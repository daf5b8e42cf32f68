use renzmc_vm::bytecode::BytecodeChunk;
use renzmc_vm::compiler::BytecodeCompiler;
use renzmc_vm::json::Json;
use renzmc_vm::value::Value;
use renzmc_vm::vm::{Step, VirtualMachine};
use renzmc_vm::OpCode::{Halt, Jump, JumpIfFalse, JumpIfTrue, LoadConst, LoadName, Pop, SetIndex};

fn s(t: &str) -> Json {
    Json::Str(t.to_string())
}

fn obj(pairs: Vec<(&str, Json)>) -> Json {
    Json::Object(pairs.into_iter().map(|(k, v)| (k.to_string(), v)).collect())
}

fn node(tag: &str, mut fields: Vec<(&str, Json)>) -> Json {
    fields.insert(0, ("type", s(tag)));
    obj(fields)
}

fn num(i: i64) -> Json {
    node("Num", vec![("value", Json::Int(i))])
}

fn text(t: &str) -> Json {
    node("String", vec![("value", s(t))])
}

fn var(n: &str) -> Json {
    node("Var", vec![("name", s(n))])
}

fn binop(l: Json, op: &str, r: Json) -> Json {
    node("BinOp", vec![("left", l), ("op", obj(vec![("type", s(op))])), ("right", r)])
}

fn print(e: Json) -> Json {
    node("Print", vec![("expr", e)])
}

fn program(stmts: Vec<Json>) -> Json {
    node("Program", vec![("statements", Json::Array(stmts))])
}

fn drive(vm: &mut VirtualMachine, chunk: &BytecodeChunk) -> (Vec<String>, Value) {
    vm.begin();
    let mut out = Vec::new();
    loop {
        match vm.step(chunk) {
            Step::Continue => {}
            Step::Print(v) => out.push(v.display()),
            Step::Done(v) => return (out, v),
            Step::Fail(e) => panic!("run failed: {}", e),
            Step::Input => panic!("unexpected input request"),
            Step::Float(..) => panic!("unexpected float work"),
        }
    }
}

fn run(ast: &Json) -> (Vec<String>, Value) {
    let mut c = BytecodeCompiler::new();
    let chunk = c.compile_from_json(ast).expect("compiles");
    let mut vm = VirtualMachine::new();
    drive(&mut vm, &chunk)
}

#[test]
fn arithmetic_prints_fourteen() {
    let ast = program(vec![print(binop(num(2), "TAMBAH", binop(num(3), "KALI", num(4))))]);
    assert_eq!(run(&ast).0, vec!["14".to_string()]);
}

#[test]
fn conditional_takes_then_branch() {
    let ast = program(vec![node(
        "If",
        vec![
            ("condition", binop(num(5), "LEBIH_DARI", num(3))),
            ("if_body", Json::Array(vec![print(text("ya"))])),
            ("else_body", Json::Array(vec![print(text("tidak"))])),
        ],
    )]);
    assert_eq!(run(&ast).0, vec!["ya".to_string()]);
}

#[test]
fn counted_loop_is_inclusive() {
    let ast = program(vec![node(
        "For",
        vec![
            ("var_name", s("i")),
            ("start", num(1)),
            ("end", num(3)),
            ("body", Json::Array(vec![print(var("i"))])),
        ],
    )]);
    assert_eq!(run(&ast).0, vec!["1", "2", "3"]);
}

#[test]
fn function_call_returns_sum() {
    let decl = node(
        "FuncDecl",
        vec![
            ("name", s("add")),
            ("params", Json::Array(vec![s("a"), s("b")])),
            (
                "body",
                Json::Array(vec![node("Return", vec![("expr", binop(var("a"), "TAMBAH", var("b")))])]),
            ),
        ],
    );
    let call = node("FuncCall", vec![("name", s("add")), ("args", Json::Array(vec![num(2), num(3)]))]);
    let ast = program(vec![decl, print(call)]);
    assert_eq!(run(&ast).0, vec!["5".to_string()]);
}

#[test]
fn foreach_visits_items_in_order() {
    let list = node("List", vec![("elements", Json::Array(vec![num(10), num(20), num(30)]))]);
    let ast = program(vec![node(
        "ForEach",
        vec![("var_name", s("x")), ("iterable", list), ("body", Json::Array(vec![print(var("x"))]))],
    )]);
    assert_eq!(run(&ast).0, vec!["10", "20", "30"]);
}

#[test]
fn dict_index_by_key() {
    let dict = node(
        "Dict",
        vec![(
            "pairs",
            Json::Array(vec![
                Json::Array(vec![text("a"), num(1)]),
                Json::Array(vec![text("b"), num(2)]),
            ]),
        )],
    );
    let ast = program(vec![
        node("VarDecl", vec![("var_name", s("d")), ("value", dict)]),
        print(node("IndexAccess", vec![("obj", var("d")), ("index", text("b"))])),
    ]);
    assert_eq!(run(&ast).0, vec!["2".to_string()]);
}

#[test]
fn while_with_break_stops_early() {
    let cond = binop(var("n"), "KURANG_DARI", num(10));
    let body = vec![
        print(var("n")),
        node(
            "If",
            vec![
                ("condition", binop(var("n"), "SAMA_DENGAN", num(2))),
                ("if_body", Json::Array(vec![node("Break", vec![])])),
                ("else_body", Json::Array(vec![])),
            ],
        ),
        node(
            "CompoundAssign",
            vec![
                ("var", obj(vec![("name", s("n"))])),
                ("op", obj(vec![("type", s("TAMBAH_SAMA_DENGAN"))])),
                ("value", num(1)),
            ],
        ),
    ];
    let ast = program(vec![
        node("VarDecl", vec![("var_name", s("n")), ("value", num(0))]),
        node("While", vec![("condition", cond), ("body", Json::Array(body))]),
        print(text("selesai")),
    ]);
    assert_eq!(run(&ast).0, vec!["0", "1", "2", "selesai"]);
}

#[test]
fn ternary_and_lambda() {
    let lam = node(
        "Lambda",
        vec![("params", Json::Array(vec![s("x")])), ("body", binop(var("x"), "KALI", var("x")))],
    );
    let ast = program(vec![
        node("VarDecl", vec![("var_name", s("sq")), ("value", lam)]),
        print(node("FuncCall", vec![("name", s("sq")), ("args", Json::Array(vec![num(7)]))])),
        print(node(
            "Ternary",
            vec![
                ("condition", node("Boolean", vec![("value", Json::Bool(false))])),
                ("if_expr", text("kiri")),
                ("else_expr", text("kanan")),
            ],
        )),
    ]);
    assert_eq!(run(&ast).0, vec!["49", "kanan"]);
}

#[test]
fn display_forms_of_collections() {
    let list = node("List", vec![("elements", Json::Array(vec![num(1), text("a"), node("NoneValue", vec![])]))]);
    let dict = node(
        "Dict",
        vec![("pairs", Json::Array(vec![Json::Array(vec![text("k"), node("Boolean", vec![("value", Json::Bool(true))])])]))],
    );
    let ast = program(vec![print(list), print(dict)]);
    assert_eq!(run(&ast).0, vec!["[1, a, kosong]", "{\"k\": benar}"]);
}

#[test]
fn division_by_zero_fails() {
    let ast = program(vec![print(binop(num(1), "PEMBAGIAN_BULAT", num(0)))]);
    let mut c = BytecodeCompiler::new();
    let chunk = c.compile_from_json(&ast).unwrap();
    let mut vm = VirtualMachine::new();
    vm.begin();
    let mut failed = false;
    for _ in 0..100 {
        match vm.step(&chunk) {
            Step::Fail(e) => {
                assert_eq!(e, "Division by zero");
                failed = true;
                break;
            }
            Step::Done(_) => break,
            _ => {}
        }
    }
    assert!(failed);
}

#[test]
fn true_division_asks_host_for_float() {
    let ast = program(vec![print(binop(num(7), "BAGI", num(2)))]);
    let mut c = BytecodeCompiler::new();
    let chunk = c.compile_from_json(&ast).unwrap();
    let mut vm = VirtualMachine::new();
    vm.begin();
    loop {
        match vm.step(&chunk) {
            Step::Float(op, a, b) => {
                assert_eq!(op, renzmc_vm::OpCode::Div);
                assert!(matches!(a, Value::Int(7)));
                assert!(matches!(b, Value::Int(2)));
                break;
            }
            Step::Continue => {}
            _ => panic!("expected a float request"),
        }
    }
}

#[test]
fn halt_result_is_top_of_stack() {
    let ast = program(vec![num(42)]);
    let (out, v) = run(&ast);
    assert!(out.is_empty());
    assert!(matches!(v, Value::Int(42)));
}

#[test]
fn unknown_tags_compile_to_nothing() {
    let ast = program(vec![node("Mystery", vec![]), print(num(1))]);
    assert_eq!(run(&ast).0, vec!["1".to_string()]);
}

#[test]
fn function_call_leaves_one_result() {
    let decl = node(
        "FuncDecl",
        vec![
            ("name", s("f")),
            ("params", Json::Array(vec![s("a")])),
            ("body", Json::Array(vec![node("Return", vec![("expr", var("a"))])])),
        ],
    );
    let call = node("FuncCall", vec![("name", s("f")), ("args", Json::Array(vec![num(9)]))]);
    let ast = program(vec![decl, call]);
    let mut c = BytecodeCompiler::new();
    let chunk = c.compile_from_json(&ast).unwrap();
    let mut vm = VirtualMachine::new();
    let (_, v) = drive(&mut vm, &chunk);
    assert!(matches!(v, Value::Int(9)));
    assert_eq!(vm.stack_len(), 0);
}

#[test]
fn stored_list_is_not_aliased() {
    let mut chunk = BytecodeChunk::new();
    let a = chunk.add_name("a".to_string());
    let zero = chunk.add_constant(Value::Int(0));
    let nine = chunk.add_constant(Value::Int(99));
    chunk.emit_with_operand(LoadName, a);
    chunk.emit_with_operand(LoadConst, zero);
    chunk.emit_with_operand(LoadConst, nine);
    chunk.emit_opcode(SetIndex);
    chunk.emit_opcode(Pop);
    chunk.emit_with_operand(LoadName, a);
    chunk.emit_opcode(Halt);
    let mut vm = VirtualMachine::new();
    vm.set_global("a".to_string(), Value::List(vec![Value::Int(1), Value::Int(2)]));
    let (_, v) = drive(&mut vm, &chunk);
    assert_eq!(v.display(), "[1, 2]");
    assert_eq!(vm.get_global("a").unwrap().display(), "[1, 2]");
}

#[test]
fn jumps_land_on_instruction_starts() {
    let ast = program(vec![
        node("VarDecl", vec![("var_name", s("n")), ("value", num(0))]),
        node(
            "While",
            vec![
                ("condition", binop(var("n"), "KURANG_DARI", num(3))),
                ("body", Json::Array(vec![node("Continue", vec![]), node("Break", vec![])])),
            ],
        ),
    ]);
    let mut c = BytecodeCompiler::new();
    let chunk = c.compile_from_json(&ast).unwrap();
    let mut starts = Vec::new();
    let mut off = 0;
    while off < chunk.code.len() {
        starts.push(off);
        let (_, size) = renzmc_vm::Instruction::decode(&chunk.code, off);
        off += size;
    }
    let mut off = 0;
    while off < chunk.code.len() {
        let (ins, size) = renzmc_vm::Instruction::decode(&chunk.code, off);
            if matches!(ins.opcode, Jump | JumpIfTrue | JumpIfFalse) {
            assert!(starts.contains(&(ins.operand.unwrap() as usize)));
        }
        off += size;
    }
}

#[test]
fn input_request_resumes_with_text() {
    let mut chunk = BytecodeChunk::new();
    chunk.emit_opcode(renzmc_vm::OpCode::Input);
    chunk.emit_opcode(renzmc_vm::OpCode::Halt);
    let mut vm = VirtualMachine::new();
    vm.begin();
    assert!(matches!(vm.step(&chunk), Step::Input));
    vm.resume(Value::String("halo".to_string()));
    match vm.step(&chunk) {
        Step::Done(v) => assert_eq!(v.display(), "halo"),
        _ => panic!("expected the end"),
    }
}

#[test]
fn round_trip_runs_the_same() {
    let decl = node(
        "FuncDecl",
        vec![
            ("name", s("dua")),
            ("params", Json::Array(vec![s("n")])),
            ("body", Json::Array(vec![node("Return", vec![("expr", binop(var("n"), "KALI", num(2)))])])),
        ],
    );
    let call = node("FuncCall", vec![("name", s("dua")), ("args", Json::Array(vec![num(21)]))]);
    let ast = program(vec![decl, print(call)]);
    let mut c = BytecodeCompiler::new();
    let chunk = c.compile_from_json(&ast).unwrap();
    let bytes = chunk.serialize(&"[]".to_string());
    let loaded = BytecodeChunk::deserialize(&bytes).ok().unwrap();
    let mut again = loaded.chunk;
    again.constants = chunk.constants.iter().map(|v| v.duplicate()).collect();
    let mut vm1 = VirtualMachine::new();
    let mut vm2 = VirtualMachine::new();
    let (out1, _) = drive(&mut vm1, &chunk);
    let (out2, _) = drive(&mut vm2, &again);
    assert_eq!(out1, vec!["42".to_string()]);
    assert_eq!(out1, out2);
}

#[test]
fn foreach_over_text_visits_characters() {
    let ast = program(vec![node(
        "ForEach",
        vec![("var_name", s("c")), ("iterable", text("hé")), ("body", Json::Array(vec![print(var("c"))]))],
    )]);
    assert_eq!(run(&ast).0, vec!["h", "é"]);
}

#[test]
fn compound_assignment_multiplies() {
    let ast = program(vec![
        node("VarDecl", vec![("var_name", s("n")), ("value", num(3))]),
        node(
            "CompoundAssign",
            vec![
                ("var", obj(vec![("name", s("n"))])),
                ("op", obj(vec![("type", s("KALI_SAMA_DENGAN"))])),
                ("value", num(5)),
            ],
        ),
        print(var("n")),
    ]);
    assert_eq!(run(&ast).0, vec!["15".to_string()]);
}

#[test]
fn bare_literals_load_constants() {
    let ast = program(vec![print(Json::Int(8)), print(Json::Str("teks".to_string())), print(Json::Null)]);
    assert_eq!(run(&ast).0, vec!["8", "teks", "kosong"]);
}

#[test]
fn list_comprehension_compiles_to_valid_code() {
    let comp = node(
        "ListComp",
        vec![
            ("var_name", s("x")),
            ("iterable", node("List", vec![("elements", Json::Array(vec![num(1), num(2)]))])),
            ("expr", binop(var("x"), "KALI", num(2))),
            ("condition", binop(var("x"), "LEBIH_DARI", num(1))),
        ],
    );
    let ast = program(vec![comp]);
    let mut c = BytecodeCompiler::new();
    let chunk = c.compile_from_json(&ast).unwrap();
    assert_eq!(*chunk.code.last().unwrap(), 255u8);
    let mut vm = VirtualMachine::new();
    let (_, v) = drive(&mut vm, &chunk);
    assert!(matches!(v, Value::Int(4)));
}

#[test]
fn failing_step_reports_the_message() {
    let ast = program(vec![print(binop(text("a"), "KURANG", num(1)))]);
    let mut c = BytecodeCompiler::new();
    let chunk = c.compile_from_json(&ast).unwrap();
    let mut vm = VirtualMachine::new();
    vm.begin();
    loop {
        match vm.step(&chunk) {
            Step::Continue => {}
            Step::Fail(e) => {
                assert_eq!(e, "Cannot subtract int from string");
                break;
            }
            _ => panic!("expected a failure"),
        }
    }
}

//! The stack machine, specified by a small-step model: each `step` executes one
//! instruction and tells the host what to do next (print, read, float arithmetic, stop).
use vstd::prelude::*;
use crate::bytecode::{decode_at, BytecodeChunk, Instruction, OpCode};
use crate::text::chars_of;
use crate::value::{
    add_spec, bit_and_spec, bit_not_spec, bit_or_spec, bit_xor_spec, contains_spec,
    div_spec, entries_view, eq_spec, find_key, floor_div_spec, ge_spec, get_index_spec, gt_spec,
    has_float, key_pos, le_spec, len_spec, lemma_dict_entries, lemma_list_vals, lt_spec,
    modulo_spec, mul_spec, negate_spec, power_spec, set_index_spec, shl_spec, show, shr_spec,
    sub_spec, texts_view, truthy, vals, Eval, Outcome, Val, Value, add_message, sub_message,
    mul_message, div_message, floor_div_message, modulo_message, power_message, compare_message,
    negate_message, bit_and_message, bit_or_message, bit_xor_message, bit_not_message,
    shift_message, len_message, contains_message, index_message, set_index_message,
};

verus! {

broadcast use vstd::std_specs::vec::group_vec_axioms, vstd::seq::group_seq_axioms;

/// Model of a call frame.
pub struct FrameModel {
    pub return_addr: int,
    pub base_pointer: int,
    pub locals: Seq<(Seq<char>, Val)>,
}

/// Model of the machine: value stack, globals, call frames, iterators (items and position),
/// instruction pointer and instruction count.
pub struct VmModel {
    pub stack: Seq<Val>,
    pub globals: Seq<(Seq<char>, Val)>,
    pub frames: Seq<FrameModel>,
    pub iters: Seq<(Seq<Val>, int)>,
    pub ip: int,
    pub executed: int,
}

/// What a step asks of the host, in the model.
pub enum Event {
    Continue,
    Print(Val),
    Input,
    Float(OpCode, Val, Val),
    Done(Val),
    Fail,
}

pub open spec fn top(s: Seq<Val>) -> Val {
    if s.len() == 0 {
        Val::Nil
    } else {
        s.last()
    }
}

pub open spec fn rest(s: Seq<Val>) -> Seq<Val> {
    if s.len() == 0 {
        s
    } else {
        s.drop_last()
    }
}

/// The value bound to `k`, if any.
pub open spec fn lookup(env: Seq<(Seq<char>, Val)>, k: Seq<char>) -> Option<Val> {
    match key_pos(env, k) {
        Some(p) => Some(env[p].1),
        None => None,
    }
}

/// `env` with `k` bound to `v`: an existing binding is replaced in place, a new one appended.
pub open spec fn put(env: Seq<(Seq<char>, Val)>, k: Seq<char>, v: Val) -> Seq<(Seq<char>, Val)> {
    match key_pos(env, k) {
        Some(p) => env.update(p, (k, v)),
        None => env.push((k, v)),
    }
}

pub open spec fn arg(i: Instruction) -> int {
    match i.operand {
        Some(x) => x as int,
        None => 0,
    }
}

/// The name an instruction's operand designates; out of range it is the empty name.
pub open spec fn name_of(names: Seq<Seq<char>>, i: Instruction) -> Seq<char> {
    if arg(i) < names.len() {
        names[arg(i)]
    } else {
        Seq::empty()
    }
}

pub open spec fn with_stack(m: VmModel, s: Seq<Val>) -> VmModel {
    VmModel { stack: s, ..m }
}

/// Name resolution: the current frame's locals, then the globals; none when unbound.
pub open spec fn load_name(m: VmModel, k: Seq<char>) -> Val {
    let g = match lookup(m.globals, k) {
        Some(v) => v,
        None => Val::Nil,
    };
    if m.frames.len() > 0 {
        match lookup(m.frames.last().locals, k) {
            Some(v) => v,
            None => g,
        }
    } else {
        g
    }
}

/// Stores into the current frame's locals, or into the globals outside any call.
pub open spec fn store_name(m: VmModel, k: Seq<char>, v: Val) -> VmModel {
    if m.frames.len() > 0 {
        let f = m.frames.last();
        VmModel {
            frames: m.frames.update(
                m.frames.len() - 1,
                FrameModel { locals: put(f.locals, k, v), ..f },
            ),
            ..m
        }
    } else {
        VmModel { globals: put(m.globals, k, v), ..m }
    }
}

pub open spec fn flip(e: Eval) -> Eval {
    match e {
        Eval::Done(Val::Bool(b)) => Eval::Done(Val::Bool(!b)),
        other => other,
    }
}

/// Result of a two-operand instruction on `a` (deeper) and `b` (top).
pub open spec fn binary_result(op: OpCode, a: Val, b: Val) -> Eval {
    match op {
        OpCode::Add => add_spec(a, b),
        OpCode::Sub => sub_spec(a, b),
        OpCode::Mul => mul_spec(a, b),
        OpCode::Div => div_spec(a, b),
        OpCode::FloorDiv => floor_div_spec(a, b),
        OpCode::Mod => modulo_spec(a, b),
        OpCode::Pow => power_spec(a, b),
        OpCode::BitAnd => bit_and_spec(a, b),
        OpCode::BitOr => bit_or_spec(a, b),
        OpCode::BitXor => bit_xor_spec(a, b),
        OpCode::Shl => shl_spec(a, b),
        OpCode::Shr => shr_spec(a, b),
        OpCode::Eq => eq_spec(a, b),
        OpCode::Ne => flip(eq_spec(a, b)),
        OpCode::Lt => lt_spec(a, b),
        OpCode::Le => le_spec(a, b),
        OpCode::Gt => gt_spec(a, b),
        OpCode::Ge => ge_spec(a, b),
        OpCode::And => Eval::Done(Val::Bool(truthy(a) && truthy(b))),
        OpCode::Or => Eval::Done(Val::Bool(truthy(a) || truthy(b))),
        OpCode::Contains => contains_spec(a, b),
        OpCode::NotContains => flip(contains_spec(a, b)),
        OpCode::GetIndex => get_index_spec(a, b),
        _ => Eval::Fail,
    }
}

pub open spec fn is_binary(op: OpCode) -> bool {
    match op {
        OpCode::Add | OpCode::Sub | OpCode::Mul | OpCode::Div | OpCode::FloorDiv | OpCode::Mod
        | OpCode::Pow | OpCode::BitAnd | OpCode::BitOr | OpCode::BitXor | OpCode::Shl
        | OpCode::Shr | OpCode::Eq | OpCode::Ne | OpCode::Lt | OpCode::Le | OpCode::Gt
        | OpCode::Ge | OpCode::And | OpCode::Or | OpCode::Contains | OpCode::NotContains
        | OpCode::GetIndex => true,
        _ => false,
    }
}

/// Result of a one-operand instruction.
pub open spec fn unary_result(op: OpCode, a: Val) -> Eval {
    match op {
        OpCode::Neg => negate_spec(a),
        OpCode::BitNot => bit_not_spec(a),
        OpCode::Not => Eval::Done(Val::Bool(!truthy(a))),
        OpCode::Len => len_spec(a),
        _ => Eval::Fail,
    }
}

pub open spec fn is_unary(op: OpCode) -> bool {
    match op {
        OpCode::Neg | OpCode::BitNot | OpCode::Not | OpCode::Len => true,
        _ => false,
    }
}

/// Pushes a computed value, or reports the failure or the float work it needs.
pub open spec fn apply(m: VmModel, op: OpCode, a: Val, b: Val, e: Eval) -> (VmModel, Event) {
    match e {
        Eval::Done(v) => (with_stack(m, m.stack.push(v)), Event::Continue),
        Eval::Fail => (m, Event::Fail),
        Eval::Float => (m, Event::Float(op, a, b)),
    }
}

/// Argument `k` of a call, or none when too few were passed.
pub open spec fn arg_or_nil(args: Seq<Val>, k: int) -> Val {
    if 0 <= k < args.len() {
        args[k]
    } else {
        Val::Nil
    }
}

/// Locals of a fresh frame: the first `n` parameters bound positionally.
pub open spec fn bind(params: Seq<Seq<char>>, args: Seq<Val>, n: nat) -> Seq<(Seq<char>, Val)>
    decreases n,
{
    if n == 0 {
        Seq::empty()
    } else {
        put(bind(params, args, (n - 1) as nat), params[n - 1], arg_or_nil(args, n - 1))
    }
}

pub open spec fn min(a: int, b: int) -> int {
    if a < b {
        a
    } else {
        b
    }
}

/// Display text of a dictionary key built at run time: a text as it is, anything else by its
/// display form.
pub open spec fn key_text(v: Val) -> Seq<char> {
    match v {
        Val::Str(s) => s,
        _ => show(v),
    }
}

/// Consecutive items taken as key/value pairs (an odd last item is dropped).
pub open spec fn pairs(items: Seq<Val>) -> Seq<(Seq<char>, Val)> {
    Seq::new(items.len() / 2, |j: int| (key_text(items[2 * j]), items[2 * j + 1]))
}

/// The items a text is iterated as: its characters, each as a one-character text.
pub open spec fn char_items(s: Seq<char>) -> Seq<Val> {
    Seq::new(s.len(), |i: int| Val::Str(seq![s[i]]))
}

/// One instruction, executed after the instruction pointer has moved past it.
pub open spec fn exec_spec(m: VmModel, i: Instruction, consts: Seq<Val>, names: Seq<Seq<char>>) -> (
    VmModel,
    Event,
) {
    let s = m.stack;
    let op = i.opcode;
    if is_binary(op) {
        let b = top(s);
        let a = top(rest(s));
        apply(with_stack(m, rest(rest(s))), op, a, b, binary_result(op, a, b))
    } else if is_unary(op) {
        let a = top(s);
        apply(with_stack(m, rest(s)), op, a, Val::Nil, unary_result(op, a))
    } else {
        match op {
            OpCode::LoadConst => (
                with_stack(
                    m,
                    s.push(
                        if arg(i) < consts.len() {
                            consts[arg(i)]
                        } else {
                            Val::Nil
                        },
                    ),
                ),
                Event::Continue,
            ),
            OpCode::LoadName => (
                with_stack(m, s.push(load_name(m, name_of(names, i)))),
                Event::Continue,
            ),
            OpCode::StoreName => (
                store_name(with_stack(m, rest(s)), name_of(names, i), top(s)),
                Event::Continue,
            ),
            OpCode::LoadGlobal => (
                with_stack(
                    m,
                    s.push(
                        match lookup(m.globals, name_of(names, i)) {
                            Some(v) => v,
                            None => Val::Nil,
                        },
                    ),
                ),
                Event::Continue,
            ),
            OpCode::StoreGlobal => (
                VmModel { stack: rest(s), globals: put(m.globals, name_of(names, i), top(s)), ..m },
                Event::Continue,
            ),
            OpCode::LoadLocal => (
                with_stack(
                    m,
                    s.push(
                        if m.frames.len() > 0 {
                            match lookup(m.frames.last().locals, name_of(names, i)) {
                                Some(v) => v,
                                None => Val::Nil,
                            }
                        } else {
                            Val::Nil
                        },
                    ),
                ),
                Event::Continue,
            ),
            OpCode::StoreLocal => (
                if m.frames.len() > 0 {
                    store_name(with_stack(m, rest(s)), name_of(names, i), top(s))
                } else {
                    with_stack(m, rest(s))
                },
                Event::Continue,
            ),
            OpCode::Jump => (VmModel { ip: arg(i), ..m }, Event::Continue),
            OpCode::JumpIfTrue => (
                VmModel {
                    stack: rest(s),
                    ip: if truthy(top(s)) {
                        arg(i)
                    } else {
                        m.ip
                    },
                    ..m
                },
                Event::Continue,
            ),
            OpCode::JumpIfFalse => (
                VmModel {
                    stack: rest(s),
                    ip: if !truthy(top(s)) {
                        arg(i)
                    } else {
                        m.ip
                    },
                    ..m
                },
                Event::Continue,
            ),
            OpCode::Call => {
                let f = top(s);
                let s1 = rest(s);
                match f {
                    Val::Function(_, params, off) => {
                        let n = min(arg(i), s1.len() as int);
                        let args = s1.subrange(s1.len() - n, s1.len() as int);
                        let s2 = s1.subrange(0, s1.len() - n);
                        let frame = FrameModel {
                            return_addr: m.ip,
                            base_pointer: s2.len() as int,
                            locals: bind(params, args, params.len()),
                        };
                        (
                            VmModel { stack: s2, frames: m.frames.push(frame), ip: off as int, ..m },
                            Event::Continue,
                        )
                    },
                    _ => (with_stack(m, s1.push(Val::Nil)), Event::Continue),
                }
            },
            OpCode::Return => {
                let v = top(s);
                let s1 = rest(s);
                if m.frames.len() > 0 {
                    let f = m.frames.last();
                    let s2 = if f.base_pointer < s1.len() {
                        s1.subrange(0, f.base_pointer)
                    } else {
                        s1
                    };
                    (
                        VmModel {
                            stack: s2.push(v),
                            frames: m.frames.drop_last(),
                            ip: f.return_addr,
                            ..m
                        },
                        Event::Continue,
                    )
                } else {
                    (with_stack(m, s1), Event::Done(v))
                }
            },
            OpCode::Halt => (with_stack(m, rest(s)), Event::Done(top(s))),
            OpCode::BuildList | OpCode::BuildTuple | OpCode::BuildSet => {
                let n = min(arg(i), s.len() as int);
                (
                    with_stack(
                        m,
                        s.subrange(0, s.len() - n).push(
                            Val::List(s.subrange(s.len() - n, s.len() as int)),
                        ),
                    ),
                    Event::Continue,
                )
            },
            OpCode::BuildDict => {
                let n = min(2 * arg(i), s.len() as int);
                let items = s.subrange(s.len() - n, s.len() as int);
                let s1 = s.subrange(0, s.len() - n);
                if exists|j: int| 0 <= j < items.len() / 2 && has_float(#[trigger] items[2 * j]) {
                    (with_stack(m, s1), Event::Float(OpCode::BuildDict, Val::List(items), Val::Nil))
                } else {
                    (with_stack(m, s1.push(Val::Dict(pairs(items)))), Event::Continue)
                }
            },
            OpCode::SetIndex => {
                let v = top(s);
                let idx = top(rest(s));
                let obj = top(rest(rest(s)));
                let s1 = rest(rest(rest(s)));
                match set_index_spec(obj, idx, v) {
                    Some(o) => (with_stack(m, s1.push(o)), Event::Continue),
                    None => (with_stack(m, s1), Event::Fail),
                }
            },
            OpCode::GetAttr => (with_stack(m, rest(s).push(Val::Nil)), Event::Continue),
            OpCode::SetAttr => (with_stack(m, rest(rest(s))), Event::Continue),
            OpCode::GetSlice => (with_stack(m, s.push(Val::Nil)), Event::Continue),
            OpCode::Pop => (with_stack(m, rest(s)), Event::Continue),
            OpCode::Dup => (
                with_stack(
                    m,
                    if s.len() > 0 {
                        s.push(s.last())
                    } else {
                        s
                    },
                ),
                Event::Continue,
            ),
            OpCode::Rot2 => (
                with_stack(
                    m,
                    if s.len() >= 2 {
                        s.subrange(0, s.len() - 2).push(s[s.len() - 1]).push(s[s.len() - 2])
                    } else {
                        s
                    },
                ),
                Event::Continue,
            ),
            OpCode::Rot3 => (
                with_stack(
                    m,
                    if s.len() >= 3 {
                        s.subrange(0, s.len() - 3).push(s[s.len() - 2]).push(s[s.len() - 1]).push(
                            s[s.len() - 3],
                        )
                    } else {
                        s
                    },
                ),
                Event::Continue,
            ),
            OpCode::GetIter => {
                let s1 = rest(s);
                match top(s) {
                    Val::List(items) => (
                        VmModel {
                            stack: s1.push(Val::Bool(true)),
                            iters: m.iters.push((items, 0)),
                            ..m
                        },
                        Event::Continue,
                    ),
                    Val::Str(t) => (
                        VmModel {
                            stack: s1.push(Val::Bool(true)),
                            iters: m.iters.push((char_items(t), 0)),
                            ..m
                        },
                        Event::Continue,
                    ),
                    _ => (with_stack(m, s1.push(Val::Bool(false))), Event::Continue),
                }
            },
            OpCode::ForIter => {
                if m.iters.len() > 0 {
                    let (items, pos) = m.iters.last();
                    if 0 <= pos < items.len() {
                        (
                            VmModel {
                                stack: s.push(items[pos]).push(Val::Bool(true)),
                                iters: m.iters.update(m.iters.len() - 1, (items, pos + 1)),
                                ..m
                            },
                            Event::Continue,
                        )
                    } else {
                        (
                            VmModel {
                                stack: s.push(Val::Bool(false)),
                                iters: m.iters.drop_last(),
                                ..m
                            },
                            Event::Continue,
                        )
                    }
                } else {
                    (with_stack(m, s.push(Val::Bool(false))), Event::Continue)
                }
            },
            OpCode::Print => (with_stack(m, rest(s)), Event::Print(top(s))),
            OpCode::Input => (m, Event::Input),
            _ => (m, Event::Continue),
        }
    }
}

/// The message of a failed two-operand instruction.
pub open spec fn binary_message(op: OpCode, a: Val, b: Val) -> Seq<char> {
    match op {
        OpCode::Add => add_message(a, b),
        OpCode::Sub => sub_message(a, b),
        OpCode::Mul => mul_message(a, b),
        OpCode::Div => div_message(a, b),
        OpCode::FloorDiv => floor_div_message(a, b),
        OpCode::Mod => modulo_message(a, b),
        OpCode::Pow => power_message(a, b),
        OpCode::BitAnd => bit_and_message(a, b),
        OpCode::BitOr => bit_or_message(a, b),
        OpCode::BitXor => bit_xor_message(a, b),
        OpCode::Shl => shift_message("Cannot left shift "@, a, b),
        OpCode::Shr => shift_message("Cannot right shift "@, a, b),
        OpCode::Lt | OpCode::Le | OpCode::Gt | OpCode::Ge => compare_message(a, b),
        OpCode::Contains | OpCode::NotContains => contains_message(a, b),
        OpCode::GetIndex => index_message(a, b),
        _ => Seq::empty(),
    }
}

/// The message of a failed one-operand instruction.
pub open spec fn unary_message(op: OpCode, a: Val) -> Seq<char> {
    match op {
        OpCode::Neg => negate_message(a),
        OpCode::BitNot => bit_not_message(a),
        OpCode::Len => len_message(a),
        _ => Seq::empty(),
    }
}

/// The message a failing step reports: the failing operation's own message.
pub open spec fn step_message(m: VmModel, code: Seq<u8>) -> Seq<char> {
    let op = decode_at(code, m.ip).0.opcode;
    let s = m.stack;
    if is_binary(op) {
        binary_message(op, top(rest(s)), top(s))
    } else if is_unary(op) {
        unary_message(op, top(s))
    } else {
        set_index_message(top(rest(rest(s))), top(rest(s)))
    }
}

/// One step of the machine on a chunk: at the end of the code the top of the stack is the
/// result; otherwise the instruction at the pointer is decoded, counted and executed.
pub open spec fn step_spec(m: VmModel, code: Seq<u8>, consts: Seq<Val>, names: Seq<Seq<char>>) -> (
    VmModel,
    Event,
) {
    if m.ip < 0 || m.ip >= code.len() {
        (with_stack(m, rest(m.stack)), Event::Done(top(m.stack)))
    } else {
        let (i, size) = decode_at(code, m.ip);
        let m1 = VmModel {
            ip: m.ip + size,
            executed: if m.executed < usize::MAX {
                m.executed + 1
            } else {
                m.executed
            },
            ..m
        };
        exec_spec(m1, i, consts, names)
    }
}


/// A call frame: where to resume, the stack height to restore, and the local bindings.
pub struct CallFrame {
    pub return_addr: usize,
    pub base_pointer: usize,
    pub locals: Vec<(String, Value)>,
}

pub open spec fn frame_model(f: CallFrame) -> FrameModel {
    FrameModel {
        return_addr: f.return_addr as int,
        base_pointer: f.base_pointer as int,
        locals: entries_view(f.locals@),
    }
}

pub open spec fn frames_of(v: Seq<CallFrame>) -> Seq<FrameModel> {
    Seq::new(v.len(), |i: int| frame_model(v[i]))
}

pub open spec fn iters_of(v: Seq<(Vec<Value>, usize)>) -> Seq<(Seq<Val>, int)> {
    Seq::new(v.len(), |i: int| (vals(v[i].0@), v[i].1 as int))
}

/// What a step asks of the host.
pub enum Step {
    /// The instruction was executed; step again.
    Continue,
    /// Write the display form of the value and a line break.
    Print(Value),
    /// Read one line and hand it back with `resume` as a text value.
    Input,
    /// The operands call for floating-point arithmetic: compute the operation (for
    /// `BuildDict`, build the dictionary from the items) and hand the result back with
    /// `resume`, or stop with an error.
    Float(OpCode, Value, Value),
    /// The program ended with this result.
    Done(Value),
    /// The program failed with this message.
    Fail(String),
}

impl Step {
    pub open spec fn event(&self) -> Event {
        match self {
            Step::Continue => Event::Continue,
            Step::Print(v) => Event::Print(v@),
            Step::Input => Event::Input,
            Step::Float(op, a, b) => Event::Float(*op, a@, b@),
            Step::Done(v) => Event::Done(v@),
            Step::Fail(_) => Event::Fail,
        }
    }
}

/// A stack machine that runs one chunk at a time. Globals survive between runs.
pub struct VirtualMachine {
    stack: Vec<Value>,
    globals: Vec<(String, Value)>,
    call_stack: Vec<CallFrame>,
    instructions_executed: usize,
    iterator_stack: Vec<(Vec<Value>, usize)>,
    ip: usize,
}

fn env_lookup(env: &Vec<(String, Value)>, k: &String) -> (r: Option<Value>)
    ensures
        r is Some <==> lookup(entries_view(env@), k@) is Some,
        r is Some ==> r->Some_0@ == lookup(entries_view(env@), k@)->Some_0,
{
    proof {
        lemma_dict_entries(*env);
    }
    match find_key(env, k) {
        Some(p) => Some(env[p].1.duplicate()),
        None => None,
    }
}

fn env_put(env: &mut Vec<(String, Value)>, k: String, v: Value)
    ensures
        entries_view(final(env)@) == put(entries_view(old(env)@), k@, v@),
{
    proof {
        lemma_dict_entries(*env);
    }
    let ghost before = entries_view(env@);
    match find_key(env, &k) {
        Some(p) => {
            let ghost kv = k@;
            let ghost vv = v@;
            env.set(p, (k, v));
            assert(entries_view(env@) =~= before.update(p as int, (kv, vv)));
        },
        None => {
            let ghost kv = k@;
            let ghost vv = v@;
            env.push((k, v));
            assert(entries_view(env@) =~= before.push((kv, vv)));
        },
    }
}

fn name_at(chunk: &BytecodeChunk, i: Instruction) -> (r: String)
    ensures
        r@ == name_of(texts_view(chunk.names@), i),
{
    let idx: usize = match i.operand {
        Some(x) => x as usize,
        None => 0,
    };
    if idx < chunk.names.len() {
        chunk.names[idx].clone()
    } else {
        String::new()
    }
}

fn flip_outcome(o: Outcome) -> (r: Outcome)
    ensures
        r is Fail ==> o is Fail && r->Fail_0 == o->Fail_0,
        r.eval() == flip(o.eval()),
{
    match o {
        Outcome::Done(Value::Bool(b)) => Outcome::Done(Value::Bool(!b)),
        other => other,
    }
}

impl VirtualMachine {
    pub closed spec fn model(&self) -> VmModel {
        VmModel {
            stack: vals(self.stack@),
            globals: entries_view(self.globals@),
            frames: frames_of(self.call_stack@),
            iters: iters_of(self.iterator_stack@),
            ip: self.ip as int,
            executed: self.instructions_executed as int,
        }
    }

    pub fn new() -> (r: VirtualMachine)
        ensures
            r.model() == (VmModel {
                stack: Seq::empty(),
                globals: Seq::empty(),
                frames: Seq::empty(),
                iters: Seq::empty(),
                ip: 0,
                executed: 0,
            }),
    {
        let r = VirtualMachine {
            stack: Vec::new(),
            globals: Vec::new(),
            call_stack: Vec::new(),
            instructions_executed: 0,
            iterator_stack: Vec::new(),
            ip: 0,
        };
        assert(r.model().stack =~= Seq::empty());
        assert(r.model().globals =~= Seq::empty());
        assert(r.model().frames =~= Seq::empty());
        assert(r.model().iters =~= Seq::empty());
        r
    }

    fn pop_value(&mut self) -> (r: Value)
        ensures
            r@ == top(old(self).model().stack),
            final(self).model() == with_stack(old(self).model(), rest(old(self).model().stack)),
    {
        match self.stack.pop() {
            Some(v) => {
                assert(vals(self.stack@) =~= vals(old(self).stack@).drop_last());
                v
            },
            None => Value::Nil,
        }
    }

    fn push_value(&mut self, v: Value)
        ensures
            final(self).model() == with_stack(old(self).model(), old(self).model().stack.push(v@)),
    {
        self.stack.push(v);
        assert(vals(self.stack@) =~= vals(old(self).stack@).push(v@));
    }

    fn finish_outcome(&mut self, op: OpCode, a: Value, b: Value, o: Outcome) -> (r: Step)
        ensures
            r is Fail ==> o is Fail && r->Fail_0 == o->Fail_0,
            (final(self).model(), r.event()) == apply(old(self).model(), op, a@, b@, o.eval()),
    {
        match o {
            Outcome::Done(v) => {
                self.push_value(v);
                Step::Continue
            },
            Outcome::Fail(e) => Step::Fail(e),
            Outcome::Float => Step::Float(op, a, b),
        }
    }

    fn exec_binary(&mut self, op: OpCode) -> (r: Step)
        requires
            is_binary(op),
        ensures
            r is Fail ==> r->Fail_0@ == binary_message(op, top(rest(old(self).model().stack)), top(old(self).model().stack)),
            ({
                let s = old(self).model().stack;
                let b = top(s);
                let a = top(rest(s));
                (final(self).model(), r.event()) == apply(
                    with_stack(old(self).model(), rest(rest(s))),
                    op,
                    a,
                    b,
                    binary_result(op, a, b),
                )
            }),
    {
        let b = self.pop_value();
        let a = self.pop_value();
        let o = match op {
            OpCode::Add => a.add(&b),
            OpCode::Sub => a.sub(&b),
            OpCode::Mul => a.mul(&b),
            OpCode::Div => a.div(&b),
            OpCode::FloorDiv => a.floor_div(&b),
            OpCode::Mod => a.modulo(&b),
            OpCode::Pow => a.power(&b),
            OpCode::BitAnd => a.bit_and(&b),
            OpCode::BitOr => a.bit_or(&b),
            OpCode::BitXor => a.bit_xor(&b),
            OpCode::Shl => a.shl(&b),
            OpCode::Shr => a.shr(&b),
            OpCode::Eq => a.eq(&b),
            OpCode::Ne => flip_outcome(a.eq(&b)),
            OpCode::Lt => a.lt(&b),
            OpCode::Le => a.le(&b),
            OpCode::Gt => a.gt(&b),
            OpCode::Ge => a.ge(&b),
            OpCode::And => Outcome::Done(Value::Bool(a.is_truthy() && b.is_truthy())),
            OpCode::Or => Outcome::Done(Value::Bool(a.is_truthy() || b.is_truthy())),
            OpCode::Contains => a.contains(&b),
            OpCode::NotContains => flip_outcome(a.contains(&b)),
            _ => a.get_index(&b),
        };
        self.finish_outcome(op, a, b, o)
    }

    fn exec_unary(&mut self, op: OpCode) -> (r: Step)
        requires
            is_unary(op),
        ensures
            r is Fail ==> r->Fail_0@ == unary_message(op, top(old(self).model().stack)),
            ({
                let s = old(self).model().stack;
                let a = top(s);
                (final(self).model(), r.event()) == apply(
                    with_stack(old(self).model(), rest(s)),
                    op,
                    a,
                    Val::Nil,
                    unary_result(op, a),
                )
            }),
    {
        let a = self.pop_value();
        let o = match op {
            OpCode::Neg => a.negate(),
            OpCode::BitNot => a.bit_not(),
            OpCode::Not => Outcome::Done(a.not()),
            _ => a.len(),
        };
        self.finish_outcome(op, a, Value::Nil, o)
    }
}

pub open spec fn is_naming(op: OpCode) -> bool {
    match op {
        OpCode::LoadConst | OpCode::LoadName | OpCode::StoreName | OpCode::LoadGlobal
        | OpCode::StoreGlobal | OpCode::LoadLocal | OpCode::StoreLocal => true,
        _ => false,
    }
}

impl VirtualMachine {
    fn store(&mut self, k: String, v: Value)
        ensures
            final(self).model() == store_name(old(self).model(), k@, v@),
    {
        let ghost m = self.model();
        match self.call_stack.pop() {
            Some(mut frame) => {
                let ghost f0 = frame;
                env_put(&mut frame.locals, k, v);
                let ghost f1 = frame;
                self.call_stack.push(frame);
                proof {
                    let n = old(self).call_stack@.len() - 1;
                    assert(frame_model(f1) == FrameModel { locals: put(frame_model(f0).locals, k@, v@), ..frame_model(f0) });
                    assert(frames_of(self.call_stack@) =~= m.frames.update(n, frame_model(f1)));
                }
            },
            None => {
                env_put(&mut self.globals, k, v);
            },
        }
    }

    fn lookup_name(&self, k: &String) -> (r: Value)
        ensures
            r@ == load_name(self.model(), k@),
    {
        let n = self.call_stack.len();
        if n > 0 {
            match env_lookup(&self.call_stack[n - 1].locals, k) {
                Some(v) => return v,
                None => {},
            }
        }
        match env_lookup(&self.globals, k) {
            Some(v) => v,
            None => Value::Nil,
        }
    }

    #[verifier::rlimit(60)]
    fn exec_naming(&mut self, chunk: &BytecodeChunk, i: Instruction) -> (r: Step)
        requires
            is_naming(i.opcode),
        ensures
            !(r is Fail),
            (final(self).model(), r.event()) == exec_spec(
                old(self).model(),
                i,
                vals(chunk.constants@),
                texts_view(chunk.names@),
            ),
    {
        let ghost names = texts_view(chunk.names@);
        match i.opcode {
            OpCode::LoadConst => {
                let idx: usize = match i.operand {
                    Some(x) => x as usize,
                    None => 0,
                };
                if idx < chunk.constants.len() {
                    let v = chunk.constants[idx].duplicate();
                    self.push_value(v);
                } else {
                    self.push_value(Value::Nil);
                }
            },
            OpCode::LoadName => {
                let k = name_at(chunk, i);
                let v = self.lookup_name(&k);
                self.push_value(v);
            },
            OpCode::StoreName => {
                let k = name_at(chunk, i);
                let v = self.pop_value();
                self.store(k, v);
            },
            OpCode::LoadGlobal => {
                let k = name_at(chunk, i);
                let v = match env_lookup(&self.globals, &k) {
                    Some(v) => v,
                    None => Value::Nil,
                };
                self.push_value(v);
            },
            OpCode::StoreGlobal => {
                let k = name_at(chunk, i);
                let v = self.pop_value();
                env_put(&mut self.globals, k, v);
            },
            OpCode::LoadLocal => {
                let k = name_at(chunk, i);
                let n = self.call_stack.len();
                let v = if n > 0 {
                    match env_lookup(&self.call_stack[n - 1].locals, &k) {
                        Some(v) => v,
                        None => Value::Nil,
                    }
                } else {
                    Value::Nil
                };
                self.push_value(v);
            },
            _ => {
                let k = name_at(chunk, i);
                let v = self.pop_value();
                if self.call_stack.len() > 0 {
                    self.store(k, v);
                }
            },
        }
        Step::Continue
    }
}

pub open spec fn is_flow(op: OpCode) -> bool {
    match op {
        OpCode::Jump | OpCode::JumpIfTrue | OpCode::JumpIfFalse | OpCode::Call | OpCode::Return
        | OpCode::Halt => true,
        _ => false,
    }
}

/// Binds parameters to arguments positionally; missing arguments are none.
fn bind_params(params: &Vec<String>, args: &Vec<Value>) -> (r: Vec<(String, Value)>)
    ensures
        entries_view(r@) == bind(texts_view(params@), vals(args@), params@.len()),
{
    let mut locals: Vec<(String, Value)> = Vec::new();
    let mut k: usize = 0;
    assert(entries_view(locals@) =~= Seq::empty());
    while k < params.len()
        invariant
            k <= params@.len(),
            entries_view(locals@) == bind(texts_view(params@), vals(args@), k as nat),
        decreases params.len() - k,
    {
        let v = if k < args.len() {
            args[k].duplicate()
        } else {
            Value::Nil
        };
        env_put(&mut locals, params[k].clone(), v);
        k = k + 1;
    }
    locals
}

impl VirtualMachine {
    #[verifier::rlimit(60)]
    fn exec_flow(&mut self, chunk: &BytecodeChunk, i: Instruction) -> (r: Step)
        requires
            is_flow(i.opcode),
        ensures
            !(r is Fail),
            (final(self).model(), r.event()) == exec_spec(
                old(self).model(),
                i,
                vals(chunk.constants@),
                texts_view(chunk.names@),
            ),
    {
        let target: usize = match i.operand {
            Some(x) => x as usize,
            None => 0,
        };
        match i.opcode {
            OpCode::Jump => {
                self.ip = target;
                Step::Continue
            },
            OpCode::JumpIfTrue => {
                let c = self.pop_value();
                if c.is_truthy() {
                    self.ip = target;
                }
                Step::Continue
            },
            OpCode::JumpIfFalse => {
                let c = self.pop_value();
                if !c.is_truthy() {
                    self.ip = target;
                }
                Step::Continue
            },
            OpCode::Call => {
                let ghost m = self.model();
                let f = self.pop_value();
                match f {
                    Value::Function { name: _, params, bytecode_offset } => {
                        let len = self.stack.len();
                        let n = if target < len {
                            target
                        } else {
                            len
                        };
                        let ghost s1 = vals(self.stack@);
                        let args = self.stack.split_off(len - n);
                        proof {
                            assert(vals(args@) =~= s1.subrange(s1.len() - n, s1.len() as int));
                            assert(vals(self.stack@) =~= s1.subrange(0, s1.len() - n));
                        }
                        let locals = bind_params(&params, &args);
                        let frame = CallFrame {
                            return_addr: self.ip,
                            base_pointer: self.stack.len(),
                            locals,
                        };
                        let ghost fm = frame_model(frame);
                        self.call_stack.push(frame);
                        self.ip = bytecode_offset;
                        proof {
                            assert(frames_of(self.call_stack@) =~= m.frames.push(fm));
                        }
                        Step::Continue
                    },
                    _ => {
                        self.push_value(Value::Nil);
                        Step::Continue
                    },
                }
            },
            OpCode::Return => {
                let ghost m = self.model();
                let v = self.pop_value();
                match self.call_stack.pop() {
                    Some(frame) => {
                        proof {
                            assert(frames_of(self.call_stack@) =~= m.frames.drop_last());
                            assert(frame_model(frame) == m.frames.last());
                        }
                        let ghost s1 = vals(self.stack@);
                        self.stack.truncate(frame.base_pointer);
                        proof {
                            if frame.base_pointer < s1.len() {
                                assert(vals(self.stack@) =~= s1.subrange(0, frame.base_pointer as int));
                            } else {
                                assert(vals(self.stack@) =~= s1);
                            }
                        }
                        self.push_value(v);
                        self.ip = frame.return_addr;
                        Step::Continue
                    },
                    None => Step::Done(v),
                }
            },
            _ => {
                let v = self.pop_value();
                Step::Done(v)
            },
        }
    }
}

pub open spec fn is_building(op: OpCode) -> bool {
    match op {
        OpCode::BuildList | OpCode::BuildTuple | OpCode::BuildSet | OpCode::BuildDict
        | OpCode::SetIndex | OpCode::GetAttr | OpCode::SetAttr | OpCode::GetSlice => true,
        _ => false,
    }
}

pub open spec fn is_shuffle(op: OpCode) -> bool {
    match op {
        OpCode::Pop | OpCode::Dup | OpCode::Rot2 | OpCode::Rot3 => true,
        _ => false,
    }
}

/// Pairs consecutive items into dictionary entries, keys by their display form.
fn make_pairs(items: &Vec<Value>) -> (r: Vec<(String, Value)>)
    requires
        forall|j: int| 0 <= j < items@.len() / 2 ==> !has_float(#[trigger] items@[2 * j]@),
    ensures
        entries_view(r@) == pairs(vals(items@)),
{
    let mut out: Vec<(String, Value)> = Vec::new();
    let half = items.len() / 2;
    let mut j: usize = 0;
    while j < half
        invariant
            j <= half,
            half == items@.len() / 2,
            out@.len() == j,
            forall|q: int| 0 <= q < items@.len() / 2 ==> !has_float(#[trigger] items@[2 * q]@),
            forall|q: int| 0 <= q < j ==> #[trigger] entries_view(out@)[q] == pairs(vals(items@))[q],
        decreases half - j,
    {
        assert(2 * j + 1 < items@.len()) by (nonlinear_arith)
            requires
                j < items@.len() / 2,
        ;
        assert(items@.len() == items.len());
        let k: usize = j + j;
        let key = match &items[k] {
            Value::String(t) => t.clone(),
            other => {
                assert(!has_float(items@[2 * j as int]@));
                other.display()
            },
        };
        let v = items[k + 1].duplicate();
        let ghost prev = out@;
        out.push((key, v));
        proof {
            assert forall|q: int| 0 <= q < j + 1 implies #[trigger] entries_view(out@)[q] == pairs(vals(items@))[q] by {
                if q < j {
                    assert(out@[q] == prev[q]);
                    assert(entries_view(prev)[q] == pairs(vals(items@))[q]);
                }
            }
        }
        j = j + 1;
    }
    assert(entries_view(out@) =~= pairs(vals(items@)));
    out
}

impl VirtualMachine {
    #[verifier::rlimit(60)]
    fn exec_building(&mut self, chunk: &BytecodeChunk, i: Instruction) -> (r: Step)
        requires
            is_building(i.opcode),
        ensures
            r is Fail ==> r->Fail_0@ == set_index_message(top(rest(rest(old(self).model().stack))), top(rest(old(self).model().stack))),
            (final(self).model(), r.event()) == exec_spec(
                old(self).model(),
                i,
                vals(chunk.constants@),
                texts_view(chunk.names@),
            ),
    {
        let count: usize = match i.operand {
            Some(x) => x as usize,
            None => 0,
        };
        let ghost m = self.model();
        match i.opcode {
            OpCode::BuildDict => self.exec_build_dict(chunk, count, i),
            OpCode::SetIndex => {
                let v = self.pop_value();
                let idx = self.pop_value();
                let mut obj = self.pop_value();
                match obj.set_index(&idx, v) {
                    Ok(()) => {
                        self.push_value(obj);
                        Step::Continue
                    },
                    Err(e) => Step::Fail(e),
                }
            },
            OpCode::GetAttr => {
                self.pop_value();
                self.push_value(Value::Nil);
                Step::Continue
            },
            OpCode::SetAttr => {
                self.pop_value();
                self.pop_value();
                Step::Continue
            },
            OpCode::GetSlice => {
                self.push_value(Value::Nil);
                Step::Continue
            },
            _ => {
                let len = self.stack.len();
                let n = if count < len {
                    count
                } else {
                    len
                };
                let ghost s = vals(self.stack@);
                let items = self.stack.split_off(len - n);
                proof {
                    assert(vals(items@) =~= s.subrange(s.len() - n, s.len() as int));
                    assert(vals(self.stack@) =~= s.subrange(0, s.len() - n));
                    lemma_list_vals(items);
                }
                self.push_value(Value::List(items));
                Step::Continue
            },
        }
    }

    #[verifier::rlimit(60)]
    fn exec_build_dict(&mut self, chunk: &BytecodeChunk, count: usize, i: Instruction) -> (r: Step)
        requires
            i.opcode == OpCode::BuildDict,
            count as int == arg(i),
        ensures
            (final(self).model(), r.event()) == exec_spec(
                old(self).model(),
                i,
                vals(chunk.constants@),
                texts_view(chunk.names@),
            ),
    {
        let len = self.stack.len();
        let n = if count <= len / 2 {
            count * 2
        } else {
            len
        };
        let ghost s = vals(self.stack@);
        let items = self.stack.split_off(len - n);
        proof {
            assert(vals(items@) =~= s.subrange(s.len() - n, s.len() as int));
            assert(vals(self.stack@) =~= s.subrange(0, s.len() - n));
        }
        let ghost iv = vals(items@);
        let mut j: usize = 0;
        let mut float_key = false;
        while j < items.len() / 2
            invariant
                j <= items@.len() / 2,
                !float_key ==> forall|q: int| 0 <= q < j ==> !has_float(#[trigger] items@[2 * q]@),
                float_key ==> exists|q: int| 0 <= q < items@.len() / 2 && has_float(#[trigger] items@[2 * q]@),
                iv == vals(items@),
            decreases items.len() / 2 - j,
        {
            assert(2 * j + 1 < items@.len()) by (nonlinear_arith)
                requires
                    j < items@.len() / 2,
            ;
            assert(items@.len() == items.len());
            let k: usize = j + j;
            if items[k].holds_float() {
                float_key = true;
            }
            j = j + 1;
        }
        if float_key {
            proof {
                lemma_list_vals(items);
                let q = choose|q: int| 0 <= q < items@.len() / 2 && has_float(#[trigger] items@[2 * q]@);
                assert(has_float(iv[2 * q]));
            }
            Step::Float(OpCode::BuildDict, Value::List(items), Value::Nil)
        } else {
            let d = make_pairs(&items);
            proof {
                lemma_dict_entries(d);
            }
            self.push_value(Value::Dict(d));
            Step::Continue
        }
    
    }

    #[verifier::rlimit(40)]
    fn exec_shuffle(&mut self, chunk: &BytecodeChunk, i: Instruction) -> (r: Step)
        requires
            is_shuffle(i.opcode),
        ensures
            !(r is Fail),
            (final(self).model(), r.event()) == exec_spec(
                old(self).model(),
                i,
                vals(chunk.constants@),
                texts_view(chunk.names@),
            ),
    {
        let ghost s = vals(self.stack@);
        let len = self.stack.len();
        match i.opcode {
            OpCode::Pop => {
                self.pop_value();
            },
            OpCode::Dup => {
                if len > 0 {
                    let v = self.stack[len - 1].duplicate();
                    self.push_value(v);
                }
            },
            OpCode::Rot2 => {
                if len >= 2 {
                    let top = self.pop_value();
                    let second = self.pop_value();
                    self.push_value(top);
                    self.push_value(second);
                    assert(vals(self.stack@) =~= s.subrange(0, s.len() - 2).push(s[s.len() - 1]).push(s[s.len() - 2]));
                }
            },
            _ => {
                if len >= 3 {
                    let top = self.pop_value();
                    let second = self.pop_value();
                    let third = self.pop_value();
                    self.push_value(second);
                    self.push_value(top);
                    self.push_value(third);
                    assert(vals(self.stack@) =~= s.subrange(0, s.len() - 3).push(s[s.len() - 2]).push(s[s.len() - 1]).push(s[s.len() - 3]));
                }
            },
        }
        Step::Continue
    }
}

fn char_values(t: &String) -> (r: Vec<Value>)
    ensures
        vals(r@) == char_items(t@),
{
    let cs = chars_of(t.as_str());
    let mut out: Vec<Value> = Vec::new();
    let mut i: usize = 0;
    while i < cs.len()
        invariant
            i <= cs@.len(),
            cs@ == t@,
            out@.len() == i,
            forall|j: int| 0 <= j < i ==> #[trigger] out@[j]@ == Val::Str(seq![cs@[j]]),
        decreases cs.len() - i,
    {
        let mut one: Vec<char> = Vec::new();
        one.push(cs[i]);
        assert(one@ =~= seq![cs@[i as int]]);
        out.push(Value::String(crate::text::string_of(&one)));
        i = i + 1;
    }
    assert(vals(out@) =~= char_items(t@));
    out
}

impl VirtualMachine {
    #[verifier::rlimit(60)]
    fn exec_iteration(&mut self, chunk: &BytecodeChunk, i: Instruction) -> (r: Step)
        requires
            i.opcode == OpCode::GetIter || i.opcode == OpCode::ForIter,
        ensures
            !(r is Fail),
            (final(self).model(), r.event()) == exec_spec(
                old(self).model(),
                i,
                vals(chunk.constants@),
                texts_view(chunk.names@),
            ),
    {
        let ghost m = self.model();
        if i.opcode == OpCode::GetIter {
            let obj = self.pop_value();
            match obj {
                Value::List(items) => {
                    let ghost iv = vals(items@);
                    proof {
                        lemma_list_vals(items);
                    }
                    self.iterator_stack.push((items, 0));
                    assert(iters_of(self.iterator_stack@) =~= m.iters.push((iv, 0)));
                    self.push_value(Value::Bool(true));
                },
                Value::String(t) => {
                    let items = char_values(&t);
                    let ghost iv = vals(items@);
                    self.iterator_stack.push((items, 0));
                    assert(iters_of(self.iterator_stack@) =~= m.iters.push((iv, 0)));
                    self.push_value(Value::Bool(true));
                },
                _ => {
                    self.push_value(Value::Bool(false));
                },
            }
        } else {
            match self.iterator_stack.pop() {
                Some(it) => {
                    let (items, pos) = it;
                    proof {
                        assert(iters_of(self.iterator_stack@) =~= m.iters.drop_last());
                        assert((vals(items@), pos as int) == m.iters.last());
                    }
                    if pos < items.len() {
                        let v = items[pos].duplicate();
                        let ghost iv = vals(items@);
                        self.iterator_stack.push((items, pos + 1));
                        assert(iters_of(self.iterator_stack@) =~= m.iters.update(
                            m.iters.len() - 1,
                            (iv, pos + 1),
                        ));
                        self.push_value(v);
                        self.push_value(Value::Bool(true));
                    } else {
                        self.push_value(Value::Bool(false));
                    }
                },
                None => {
                    self.push_value(Value::Bool(false));
                },
            }
        }
        Step::Continue
    }
}

fn binary_op(op: OpCode) -> (r: bool)
    ensures
        r == is_binary(op),
{
    match op {
        OpCode::Add | OpCode::Sub | OpCode::Mul | OpCode::Div | OpCode::FloorDiv | OpCode::Mod
        | OpCode::Pow | OpCode::BitAnd | OpCode::BitOr | OpCode::BitXor | OpCode::Shl
        | OpCode::Shr | OpCode::Eq | OpCode::Ne | OpCode::Lt | OpCode::Le | OpCode::Gt
        | OpCode::Ge | OpCode::And | OpCode::Or | OpCode::Contains | OpCode::NotContains
        | OpCode::GetIndex => true,
        _ => false,
    }
}

fn unary_op(op: OpCode) -> (r: bool)
    ensures
        r == is_unary(op),
{
    match op {
        OpCode::Neg | OpCode::BitNot | OpCode::Not | OpCode::Len => true,
        _ => false,
    }
}

fn naming_op(op: OpCode) -> (r: bool)
    ensures
        r == is_naming(op),
{
    match op {
        OpCode::LoadConst | OpCode::LoadName | OpCode::StoreName | OpCode::LoadGlobal
        | OpCode::StoreGlobal | OpCode::LoadLocal | OpCode::StoreLocal => true,
        _ => false,
    }
}

fn flow_op(op: OpCode) -> (r: bool)
    ensures
        r == is_flow(op),
{
    match op {
        OpCode::Jump | OpCode::JumpIfTrue | OpCode::JumpIfFalse | OpCode::Call | OpCode::Return
        | OpCode::Halt => true,
        _ => false,
    }
}

fn building_op(op: OpCode) -> (r: bool)
    ensures
        r == is_building(op),
{
    match op {
        OpCode::BuildList | OpCode::BuildTuple | OpCode::BuildSet | OpCode::BuildDict
        | OpCode::SetIndex | OpCode::GetAttr | OpCode::SetAttr | OpCode::GetSlice => true,
        _ => false,
    }
}

fn shuffle_op(op: OpCode) -> (r: bool)
    ensures
        r == is_shuffle(op),
{
    match op {
        OpCode::Pop | OpCode::Dup | OpCode::Rot2 | OpCode::Rot3 => true,
        _ => false,
    }
}

impl VirtualMachine {
    /// Executes one instruction of `chunk` (or ends the run at the end of the code) and
    /// says what the host has to do next.
    #[verifier::rlimit(80)]
    pub fn step(&mut self, chunk: &BytecodeChunk) -> (r: Step)
        ensures
            r is Fail ==> r->Fail_0@ == step_message(old(self).model(), chunk.code@),
            (final(self).model(), r.event()) == step_spec(
                old(self).model(),
                chunk.code@,
                vals(chunk.constants@),
                texts_view(chunk.names@),
            ),
    {
        if self.ip >= chunk.code.len() {
            let v = self.pop_value();
            return Step::Done(v);
        }
        let (instr, size) = Instruction::decode(chunk.code.as_slice(), self.ip);
        self.ip = self.ip + size;
        if self.instructions_executed < usize::MAX {
            self.instructions_executed = self.instructions_executed + 1;
        }
        let op = instr.opcode;
        if binary_op(op) {
            self.exec_binary(op)
        } else if unary_op(op) {
            self.exec_unary(op)
        } else if naming_op(op) {
            self.exec_naming(chunk, instr)
        } else if flow_op(op) {
            self.exec_flow(chunk, instr)
        } else if building_op(op) {
            self.exec_building(chunk, instr)
        } else if shuffle_op(op) {
            self.exec_shuffle(chunk, instr)
        } else if op == OpCode::GetIter || op == OpCode::ForIter {
            self.exec_iteration(chunk, instr)
        } else if op == OpCode::Print {
            let v = self.pop_value();
            Step::Print(v)
        } else if op == OpCode::Input {
            Step::Input
        } else {
            Step::Continue
        }
    }

    /// Starts a run: the instruction pointer goes back to the start of the code.
    pub fn begin(&mut self)
        ensures
            final(self).model() == (VmModel { ip: 0, ..old(self).model() }),
    {
        self.ip = 0;
    }

    /// Hands the host's answer to an `Input` or `Float` step back: it is pushed.
    pub fn resume(&mut self, v: Value)
        ensures
            final(self).model() == with_stack(old(self).model(), old(self).model().stack.push(v@)),
    {
        self.push_value(v);
    }

    pub fn set_global(&mut self, name: String, value: Value)
        ensures
            final(self).model() == (VmModel {
                globals: put(old(self).model().globals, name@, value@),
                ..old(self).model()
            }),
    {
        env_put(&mut self.globals, name, value);
    }

    pub fn get_global(&self, name: &str) -> (r: Option<Value>)
        ensures
            r is Some <==> lookup(self.model().globals, name@) is Some,
            r is Some ==> r->Some_0@ == lookup(self.model().globals, name@)->Some_0,
    {
        let k = name.to_owned();
        env_lookup(&self.globals, &k)
    }

    /// Forgets the stack, globals, frames, iterators and the instruction count.
    pub fn clear(&mut self)
        ensures
            final(self).model() == (VmModel {
                stack: Seq::empty(),
                globals: Seq::empty(),
                frames: Seq::empty(),
                iters: Seq::empty(),
                ip: 0,
                executed: 0,
            }),
    {
        self.stack.clear();
        self.globals.clear();
        self.call_stack.clear();
        self.instructions_executed = 0;
        self.iterator_stack.clear();
        self.ip = 0;
        assert(self.model().stack =~= Seq::empty());
        assert(self.model().globals =~= Seq::empty());
        assert(self.model().frames =~= Seq::empty());
        assert(self.model().iters =~= Seq::empty());
    }

    pub fn instructions_executed(&self) -> (r: usize)
        ensures
            r == self.model().executed,
    {
        self.instructions_executed
    }

    /// Number of values on the stack.
    pub fn stack_len(&self) -> (r: usize)
        ensures
            r == self.model().stack.len(),
    {
        self.stack.len()
    }
}

impl VirtualMachine {
    /// Approximate bytes held by the stack and the globals (saturating).
    pub fn memory_used(&self) -> (r: usize)
        ensures
            ({
                let total = self.model().stack.len() * vstd::layout::size_of::<Value>()
                    + self.model().globals.len() * vstd::layout::size_of::<(String, Value)>();
                r == if total <= usize::MAX {
                    total
                } else {
                    usize::MAX as nat
                }
            }),
    {
        let sv = core::mem::size_of::<Value>();
        let sg = core::mem::size_of::<(String, Value)>();
        let ghost total = self.stack@.len() * sv + self.globals@.len() * sg;
        match self.stack.len().checked_mul(sv) {
            Some(a) => match self.globals.len().checked_mul(sg) {
                Some(b) => match a.checked_add(b) {
                    Some(t) => t,
                    None => usize::MAX,
                },
                None => {
                    assert(total > usize::MAX) by (nonlinear_arith)
                        requires
                            self.globals@.len() * sg > usize::MAX,
                            total == self.stack@.len() * sv + self.globals@.len() * sg,
                            self.stack@.len() * sv >= 0,
                    ;
                    usize::MAX
                },
            },
            None => {
                assert(total > usize::MAX) by (nonlinear_arith)
                    requires
                        self.stack@.len() * sv > usize::MAX,
                        total == self.stack@.len() * sv + self.globals@.len() * sg,
                        self.globals@.len() * sg >= 0,
                ;
                usize::MAX
            },
        }
    }
}

/// A key that occurs has a first occurrence.
proof fn lemma_first_key(env: Seq<(Seq<char>, Val)>, k: Seq<char>, j: int)
    requires
        0 <= j < env.len(),
        env[j].0 == k,
    ensures
        exists|q: int|
            0 <= q < env.len() && (#[trigger] env[q]).0 == k && forall|m: int|
                0 <= m < q ==> (#[trigger] env[m]).0 != k,
    decreases j,
{
    if exists|m: int| 0 <= m < j && (#[trigger] env[m]).0 == k {
        let m = choose|m: int| 0 <= m < j && (#[trigger] env[m]).0 == k;
        lemma_first_key(env, k, m);
    } else {
        assert(0 <= j < env.len() && env[j].0 == k && forall|m: int|
            0 <= m < j ==> (#[trigger] env[m]).0 != k);
    }
}

/// Looking a name up right after binding it gives the bound value.
pub proof fn lemma_lookup_put(env: Seq<(Seq<char>, Val)>, k: Seq<char>, v: Val)
    ensures
        lookup(put(env, k, v), k) == Some(v),
{
    let e2 = put(env, k, v);
    match key_pos(env, k) {
        Some(p) => {
            let w = choose|j: int| 0 <= j < env.len() && (#[trigger] env[j]).0 == k;
            lemma_first_key(env, k, w);
            assert(0 <= p < env.len() && env[p].0 == k && forall|m: int| 0 <= m < p ==> (#[trigger] env[m]).0 != k);
            assert(e2[p].0 == k);
            assert forall|m: int| 0 <= m < p implies (#[trigger] e2[m]).0 != k by {
                assert(e2[m] == env[m]);
            }
            let q = choose|j: int|
                0 <= j < e2.len() && (#[trigger] e2[j]).0 == k && forall|m: int|
                    0 <= m < j ==> (#[trigger] e2[m]).0 != k;
            if q < p {
                assert(e2[q] == env[q]);
            } else if q > p {
                assert(e2[p].0 != k);
            }
        },
        None => {
            let n = env.len() as int;
            assert(e2[n].0 == k);
            assert forall|m: int| 0 <= m < n implies (#[trigger] e2[m]).0 != k by {
                assert(e2[m] == env[m]);
            }
            let q = choose|j: int|
                0 <= j < e2.len() && (#[trigger] e2[j]).0 == k && forall|m: int|
                    0 <= m < j ==> (#[trigger] e2[m]).0 != k;
            if q < n {
                assert(e2[q] == env[q]);
            }
        },
    }
}

/// A stored name reads back as the stored value, in a frame or at top level.
pub proof fn lemma_store_then_load(m: VmModel, k: Seq<char>, v: Val)
    ensures
        load_name(store_name(m, k, v), k) == v,
{
    if m.frames.len() > 0 {
        lemma_lookup_put(m.frames.last().locals, k, v);
        let m2 = store_name(m, k, v);
        assert(m2.frames.last().locals == put(m.frames.last().locals, k, v));
    } else {
        lemma_lookup_put(m.globals, k, v);
    }
}

/// Index assignment changes only the value on the stack: globals and every frame's locals
/// keep what they held, so a value loaded from a name is a copy that no later mutation of
/// the loaded value reaches.
pub proof fn lemma_set_index_private(
    m: VmModel,
    i: Instruction,
    consts: Seq<Val>,
    names: Seq<Seq<char>>,
)
    requires
        i.opcode == OpCode::SetIndex,
    ensures
        exec_spec(m, i, consts, names).0.globals == m.globals,
        exec_spec(m, i, consts, names).0.frames == m.frames,
{
}

/// Call balance: `Call argc` on a function value with `argc` arguments below it opens a
/// frame whose base is the stack height under the arguments. When that frame returns (its
/// result on top), the frame is gone, the machine resumes after the call, and the stack
/// holds what was under the arguments plus the result. Measured before the callee was
/// pushed, the height is the pre-call height minus `argc` plus one.
#[verifier::rlimit(60)]
pub proof fn lemma_call_balance(
    m: VmModel,
    call: Instruction,
    body: VmModel,
    ret: Instruction,
    consts: Seq<Val>,
    names: Seq<Seq<char>>,
)
    requires
        call.opcode == OpCode::Call,
        top(m.stack) is Function,
        arg(call) + 1 <= m.stack.len(),
        ret.opcode == OpCode::Return,
        body.frames == exec_spec(m, call, consts, names).0.frames,
        body.stack.len() > exec_spec(m, call, consts, names).0.frames.last().base_pointer,
    ensures
        exec_spec(m, call, consts, names).1 == Event::Continue,
        exec_spec(m, call, consts, names).0.frames.last().base_pointer == m.stack.len() - arg(call)
            - 1,
        exec_spec(m, call, consts, names).0.frames.last().return_addr == m.ip,
        exec_spec(body, ret, consts, names).1 == Event::Continue,
        exec_spec(body, ret, consts, names).0.stack.len() == m.stack.len() - arg(call),
        exec_spec(body, ret, consts, names).0.stack.last() == top(body.stack),
        exec_spec(body, ret, consts, names).0.frames == m.frames,
        exec_spec(body, ret, consts, names).0.ip == m.ip,
{
    let m2 = exec_spec(m, call, consts, names).0;
    assert(m2.frames.drop_last() =~= m.frames);
}

/// Iteration: `GetIter` on a list starts an iterator at its first item; `ForIter` pushes the
/// item at the iterator's position with a true flag above it and moves on, and once the
/// items are used up it drops the iterator and pushes false. The flag is what the loop's
/// conditional jump consumes, so the loop variable receives each item in order.
pub proof fn lemma_iteration(m: VmModel, i: Instruction, consts: Seq<Val>, names: Seq<Seq<char>>)
    ensures
        i.opcode == OpCode::GetIter && top(m.stack) is List ==> exec_spec(m, i, consts, names).0.iters
            == m.iters.push((top(m.stack)->List_0, 0)),
        i.opcode == OpCode::ForIter && m.iters.len() > 0 && 0 <= m.iters.last().1
            < m.iters.last().0.len() ==> {
            let (items, pos) = m.iters.last();
            &&& exec_spec(m, i, consts, names).0.stack == m.stack.push(items[pos]).push(
                Val::Bool(true),
            )
            &&& exec_spec(m, i, consts, names).0.iters.last() == (items, pos + 1)
            &&& exec_spec(m, i, consts, names).0.iters.len() == m.iters.len()
        },
        i.opcode == OpCode::ForIter && m.iters.len() > 0 && m.iters.last().1
            >= m.iters.last().0.len() ==> {
            &&& exec_spec(m, i, consts, names).0.stack == m.stack.push(Val::Bool(false))
            &&& exec_spec(m, i, consts, names).0.iters == m.iters.drop_last()
        },
{
}
impl Default for VirtualMachine {
    fn default() -> (r: VirtualMachine)
        ensures
            r.model() == (VmModel {
                stack: Seq::empty(),
                globals: Seq::empty(),
                frames: Seq::empty(),
                iters: Seq::empty(),
                ip: 0,
                executed: 0,
            }),
    {
        VirtualMachine::new()
    }
}

} // verus!

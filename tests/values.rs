use renzmc_vm::value::{Outcome, Value};

fn done(o: Outcome) -> Value {
    match o {
        Outcome::Done(v) => v,
        Outcome::Fail(e) => panic!("failed: {}", e),
        Outcome::Float => panic!("needs float arithmetic"),
    }
}

fn num(i: i64) -> Value {
    Value::Int(i)
}

fn text(t: &str) -> Value {
    Value::String(t.to_string())
}

#[test]
fn integer_arithmetic() {
    assert!(matches!(done(num(2).add(&num(3))), Value::Int(5)));
    assert!(matches!(done(num(2).sub(&num(3))), Value::Int(-1)));
    assert!(matches!(done(num(6).mul(&num(7))), Value::Int(42)));
    assert!(matches!(done(num(-7).floor_div(&num(2))), Value::Int(-3)));
    assert!(matches!(done(num(-7).modulo(&num(2))), Value::Int(-1)));
    assert!(matches!(done(num(2).power(&num(10))), Value::Int(1024)));
    assert!(matches!(done(num(-1).power(&num(3))), Value::Int(-1)));
    assert!(matches!(done(num(5).negate()), Value::Int(-5)));
}

#[test]
fn overflow_is_an_error() {
    assert!(matches!(num(i64::MAX).add(&num(1)), Outcome::Fail(_)));
    assert!(matches!(num(2).power(&num(64)), Outcome::Fail(_)));
    assert!(matches!(num(i64::MIN).negate(), Outcome::Fail(_)));
}

#[test]
fn division_errors_and_floats() {
    assert!(matches!(num(1).div(&num(0)), Outcome::Fail(e) if e == "Division by zero"));
    assert!(matches!(num(1).modulo(&num(0)), Outcome::Fail(e) if e == "Modulo by zero"));
    assert!(matches!(num(1).div(&num(2)), Outcome::Float));
    assert!(matches!(num(2).power(&num(-1)), Outcome::Float));
    assert!(matches!(Value::Float(0).add(&num(1)), Outcome::Float));
    assert!(matches!(text("a").div(&num(1)), Outcome::Fail(_)));
}

#[test]
fn text_and_list_operations() {
    assert_eq!(done(text("ab").add(&text("cd"))).display(), "abcd");
    assert_eq!(done(text("ab").mul(&num(3))).display(), "ababab");
    assert_eq!(done(num(2).mul(&text("x"))).display(), "xx");
    assert_eq!(done(text("ab").mul(&num(-1))).display(), "");
    let l = Value::List(vec![num(1), num(2)]);
    assert_eq!(done(l.add(&Value::List(vec![num(3)]))).display(), "[1, 2, 3]");
    assert_eq!(done(l.mul(&num(2))).display(), "[1, 2, 1, 2]");
}

#[test]
fn type_errors_name_both_kinds() {
    match num(1).add(&text("a")) {
        Outcome::Fail(e) => assert_eq!(e, "Cannot add int and string"),
        _ => panic!("expected an error"),
    }
    match text("a").negate() {
        Outcome::Fail(e) => assert_eq!(e, "Cannot negate string"),
        _ => panic!("expected an error"),
    }
}

#[test]
fn comparisons() {
    assert!(matches!(done(num(1).lt(&num(2))), Value::Bool(true)));
    assert!(matches!(done(num(2).le(&num(2))), Value::Bool(true)));
    assert!(matches!(done(num(2).gt(&num(2))), Value::Bool(false)));
    assert!(matches!(done(num(2).ge(&num(2))), Value::Bool(true)));
    assert!(matches!(done(text("abc").lt(&text("abd"))), Value::Bool(true)));
    assert!(matches!(done(text("ab").lt(&text("a"))), Value::Bool(false)));
    assert!(matches!(done(text("b").gt(&text("a"))), Value::Bool(true)));
    assert!(matches!(num(1).lt(&text("a")), Outcome::Fail(_)));
    assert!(matches!(done(num(1).eq(&num(1))), Value::Bool(true)));
    assert!(matches!(done(num(1).eq(&text("1"))), Value::Bool(false)));
    let a = Value::List(vec![num(1), text("x")]);
    let b = Value::List(vec![num(1), text("x")]);
    assert!(matches!(done(a.eq(&b)), Value::Bool(true)));
    assert!(matches!(done(Value::Dict(vec![]).eq(&Value::Dict(vec![]))), Value::Bool(false)));
}

#[test]
fn bitwise_and_shifts() {
    assert!(matches!(done(num(6).bit_and(&num(3))), Value::Int(2)));
    assert!(matches!(done(num(6).bit_or(&num(3))), Value::Int(7)));
    assert!(matches!(done(num(6).bit_xor(&num(3))), Value::Int(5)));
    assert!(matches!(done(num(0).bit_not()), Value::Int(-1)));
    assert!(matches!(done(num(1).shl(&num(4))), Value::Int(16)));
    assert!(matches!(done(num(-16).shr(&num(2))), Value::Int(-4)));
    assert!(matches!(num(1).shl(&num(64)), Outcome::Fail(_)));
}

#[test]
fn truthiness() {
    assert!(!Value::Nil.is_truthy());
    assert!(!num(0).is_truthy());
    assert!(num(3).is_truthy());
    assert!(!text("").is_truthy());
    assert!(text("a").is_truthy());
    assert!(!Value::List(vec![]).is_truthy());
    assert!(!Value::Float(0x8000_0000_0000_0000).is_truthy());
    assert!(Value::Float(0x3ff0_0000_0000_0000).is_truthy());
    assert!(matches!(text("").not(), Value::Bool(true)));
}

#[test]
fn indexing() {
    let l = Value::List(vec![num(10), num(20), num(30)]);
    assert!(matches!(done(l.get_index(&num(0))), Value::Int(10)));
    assert!(matches!(done(l.get_index(&num(-1))), Value::Int(30)));
    assert!(matches!(l.get_index(&num(3)), Outcome::Fail(_)));
    assert!(matches!(l.get_index(&num(-4)), Outcome::Fail(_)));
    assert_eq!(done(text("héllo").get_index(&num(1))).display(), "é");
    assert_eq!(done(text("abc").get_index(&num(-1))).display(), "c");
    let d = Value::Dict(vec![("a".to_string(), num(1)), ("b".to_string(), num(2))]);
    assert!(matches!(done(d.get_index(&text("b"))), Value::Int(2)));
    assert!(matches!(d.get_index(&text("z")), Outcome::Fail(e) if e == "Key 'z' not found"));
    assert!(matches!(d.get_index(&num(0)), Outcome::Fail(_)));
}

#[test]
fn index_assignment() {
    let mut l = Value::List(vec![num(1), num(2)]);
    assert!(l.set_index(&num(-1), num(9)).is_ok());
    assert_eq!(l.display(), "[1, 9]");
    assert!(l.set_index(&num(2), num(9)).is_err());
    let mut d = Value::Dict(vec![("a".to_string(), num(1))]);
    assert!(d.set_index(&text("a"), num(5)).is_ok());
    assert!(d.set_index(&text("b"), num(6)).is_ok());
    assert_eq!(d.display(), "{\"a\": 5, \"b\": 6}");
    assert!(d.set_index(&num(0), num(1)).is_err());
    assert!(num(1).set_index(&num(0), num(1)).is_err());
}

#[test]
fn length_and_membership() {
    assert!(matches!(done(text("héllo").len()), Value::Int(6)));
    assert!(matches!(done(Value::List(vec![num(1)]).len()), Value::Int(1)));
    assert!(matches!(num(1).len(), Outcome::Fail(_)));
    assert!(matches!(done(text("halo dunia").contains(&text("dun"))), Value::Bool(true)));
    assert!(matches!(done(text("halo").contains(&text("x"))), Value::Bool(false)));
    assert!(matches!(done(Value::List(vec![num(1), num(2)]).contains(&num(2))), Value::Bool(true)));
    let d = Value::Dict(vec![("a".to_string(), num(1))]);
    assert!(matches!(done(d.contains(&text("a"))), Value::Bool(true)));
    assert!(matches!(d.contains(&num(1)), Outcome::Fail(e) if e == "Dict keys must be strings"));
    assert!(matches!(Value::List(vec![Value::Float(0)]).contains(&num(0)), Outcome::Float));
}

#[test]
fn display_forms() {
    assert_eq!(Value::Nil.display(), "kosong");
    assert_eq!(Value::Bool(true).display(), "benar");
    assert_eq!(Value::Bool(false).display(), "salah");
    assert_eq!(num(-120).display(), "-120");
    assert_eq!(num(i64::MIN).display(), "-9223372036854775808");
    let f = Value::Function { name: "f".to_string(), params: vec![], bytecode_offset: 0 };
    assert_eq!(f.display(), "<fungsi f>");
    assert_eq!(f.type_tag(), "function");
    assert_eq!(Value::List(vec![]).display(), "[]");
}

#[test]
fn failure_messages_name_the_problem() {
    let l = Value::List(vec![num(1)]);
    assert!(matches!(l.get_index(&num(3)), Outcome::Fail(e) if e == "Index 3 out of range"));
    assert!(matches!(Value::List(vec![]).get_index(&num(-1)), Outcome::Fail(e) if e == "Index -1 out of range"));
    assert!(matches!(text("ab").get_index(&num(5)), Outcome::Fail(e) if e == "Index 5 out of range"));
    let mut m = Value::List(vec![num(1)]);
    assert_eq!(m.set_index(&num(4), num(0)).err().unwrap(), "Index 4 out of range");
    assert_eq!(m.set_index(&text("a"), num(0)).err().unwrap(), "Cannot index list with string");
    assert_eq!(num(1).set_index(&num(0), num(0)).err().unwrap(), "Cannot set index on int");
    assert!(matches!(text("a").mul(&text("b")), Outcome::Fail(e) if e == "Cannot multiply string and string"));
    assert!(matches!(num(1).bit_and(&text("b")), Outcome::Fail(e) if e == "Cannot bitwise AND int and string"));
    assert!(matches!(num(1).len(), Outcome::Fail(e) if e == "Cannot get length of int"));
    assert!(matches!(num(1).shl(&num(-1)), Outcome::Fail(e) if e == "Shift amount out of range"));
}

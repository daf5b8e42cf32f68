//! Runtime values, their mathematical model, and the operations on them (arithmetic,
//! comparison, indexing, membership, length and display form).
use vstd::prelude::*;
use vstd::string::StringExecFns;
use crate::text::{
    chars_of, concat, decimal, int_text, join3, join4, occurs_in, str_contains, string_of,
    text_bytes, text_lt, byte_count,
};

verus! {

broadcast use vstd::std_specs::vec::group_vec_axioms, vstd::seq::group_seq_axioms;

/// Mathematical model of a runtime value. A float is held as its IEEE-754 bit pattern.
pub enum Val {
    Nil,
    Bool(bool),
    Int(i64),
    Float(u64),
    Str(Seq<char>),
    List(Seq<Val>),
    Dict(Seq<(Seq<char>, Val)>),
    Function(Seq<char>, Seq<Seq<char>>, nat),
}

/// A runtime value of the scripting language. Lists and dictionaries are owned trees, so
/// every copy is a deep copy. A float is carried as its IEEE-754 bit pattern; arithmetic on
/// it is left to the host (see `Outcome::Float`).
pub enum Value {
    Nil,
    Bool(bool),
    Int(i64),
    Float(u64),
    String(String),
    List(Vec<Value>),
    Dict(Vec<(String, Value)>),
    Function { name: String, params: Vec<String>, bytecode_offset: usize },
}

pub open spec fn texts_view(v: Seq<String>) -> Seq<Seq<char>> {
    v.map_values(|s: String| s@)
}

/// The model of a value.
pub open spec fn model(v: &Value) -> Val
    decreases v,
{
    match v {
        Value::Nil => Val::Nil,
        Value::Bool(b) => Val::Bool(*b),
        Value::Int(i) => Val::Int(*i),
        Value::Float(f) => Val::Float(*f),
        Value::String(s) => Val::Str(s@),
        Value::List(l) => Val::List(
            Seq::new(l@.len(), |i: int| if 0 <= i < l@.len() { model(&l@[i]) } else { Val::Nil }),
        ),
        Value::Dict(d) => Val::Dict(
            Seq::new(
                d@.len(),
                |i: int|
                    if 0 <= i < d@.len() {
                        (d@[i].0@, model(&d@[i].1))
                    } else {
                        (Seq::empty(), Val::Nil)
                    },
            ),
        ),
        Value::Function { name, params, bytecode_offset } => Val::Function(
            name@,
            texts_view(params@),
            *bytecode_offset as nat,
        ),
    }
}

impl View for Value {
    type V = Val;

    open spec fn view(&self) -> Val {
        model(self)
    }
}

/// The result of an operation in the model: a value, a failure, or a case that needs
/// floating-point arithmetic.
pub enum Eval {
    Done(Val),
    Fail,
    Float,
}

/// The result of an operation on values. `Float` means that the operands call for
/// floating-point arithmetic, which the host performs.
pub enum Outcome {
    Done(Value),
    Fail(String),
    Float,
}

impl Outcome {
    pub open spec fn eval(&self) -> Eval {
        match self {
            Outcome::Done(v) => Eval::Done(v@),
            Outcome::Fail(_) => Eval::Fail,
            Outcome::Float => Eval::Float,
        }
    }
}

pub open spec fn float_bits_nonzero(f: u64) -> bool {
    f & 0x7fff_ffff_ffff_ffff != 0
}

/// Truthiness: none is false, numbers are true when nonzero, texts and collections when
/// nonempty, functions always.
pub open spec fn truthy(v: Val) -> bool {
    match v {
        Val::Nil => false,
        Val::Bool(b) => b,
        Val::Int(i) => i != 0,
        Val::Float(f) => float_bits_nonzero(f),
        Val::Str(s) => s.len() > 0,
        Val::List(l) => l.len() > 0,
        Val::Dict(d) => d.len() > 0,
        Val::Function(_, _, _) => true,
    }
}

pub open spec fn type_label(v: Val) -> Seq<char> {
    match v {
        Val::Nil => "none"@,
        Val::Bool(_) => "bool"@,
        Val::Int(_) => "int"@,
        Val::Float(_) => "float"@,
        Val::Str(_) => "string"@,
        Val::List(_) => "list"@,
        Val::Dict(_) => "dict"@,
        Val::Function(_, _, _) => "function"@,
    }
}

pub open spec fn is_number(v: Val) -> bool {
    v is Int || v is Float
}

/// Both operands are numbers and at least one is a float.
pub open spec fn float_pair(a: Val, b: Val) -> bool {
    is_number(a) && is_number(b) && (a is Float || b is Float)
}

/// Whether a float occurs anywhere inside the value.
pub open spec fn has_float(v: Val) -> bool
    decreases v,
{
    match v {
        Val::Float(_) => true,
        Val::List(l) => exists|i: int| 0 <= i < l.len() && has_float(#[trigger] l[i]),
        Val::Dict(d) => exists|i: int| 0 <= i < d.len() && has_float(#[trigger] d[i].1),
        _ => false,
    }
}

pub open spec fn int_result(r: Option<i64>) -> Eval {
    match r {
        Some(x) => Eval::Done(Val::Int(x)),
        None => Eval::Fail,
    }
}

pub open spec fn add_spec(a: Val, b: Val) -> Eval {
    if float_pair(a, b) {
        Eval::Float
    } else {
        match (a, b) {
            (Val::Int(x), Val::Int(y)) => int_result(x.checked_add(y)),
            (Val::Str(x), Val::Str(y)) => Eval::Done(Val::Str(x + y)),
            (Val::List(x), Val::List(y)) => Eval::Done(Val::List(x + y)),
            _ => Eval::Fail,
        }
    }
}

pub open spec fn sub_spec(a: Val, b: Val) -> Eval {
    if float_pair(a, b) {
        Eval::Float
    } else {
        match (a, b) {
            (Val::Int(x), Val::Int(y)) => int_result(x.checked_sub(y)),
            _ => Eval::Fail,
        }
    }
}

/// `s` repeated `n` times (no copy when `n` is not positive).
pub open spec fn repeat<T>(s: Seq<T>, n: int) -> Seq<T>
    decreases n,
{
    if n <= 0 {
        Seq::empty()
    } else {
        repeat(s, n - 1) + s
    }
}

pub open spec fn mul_spec(a: Val, b: Val) -> Eval {
    if float_pair(a, b) {
        Eval::Float
    } else {
        match (a, b) {
            (Val::Int(x), Val::Int(y)) => int_result(x.checked_mul(y)),
            (Val::Str(s), Val::Int(n)) => Eval::Done(Val::Str(repeat(s, n as int))),
            (Val::Int(n), Val::Str(s)) => Eval::Done(Val::Str(repeat(s, n as int))),
            (Val::List(l), Val::Int(n)) => Eval::Done(Val::List(repeat(l, n as int))),
            (Val::Int(n), Val::List(l)) => Eval::Done(Val::List(repeat(l, n as int))),
            _ => Eval::Fail,
        }
    }
}

/// True division always yields a float; only a zero divisor or a non-number fails here.
pub open spec fn div_spec(a: Val, b: Val) -> Eval {
    if !is_number(a) || !is_number(b) {
        Eval::Fail
    } else if b == Val::Int(0) {
        Eval::Fail
    } else {
        Eval::Float
    }
}

/// Integer floor division of two integers truncates, as the host language's `/` does.
pub open spec fn floor_div_spec(a: Val, b: Val) -> Eval {
    if float_pair(a, b) {
        Eval::Float
    } else {
        match (a, b) {
            (Val::Int(x), Val::Int(y)) => int_result(x.checked_div(y)),
            _ => Eval::Fail,
        }
    }
}

pub open spec fn modulo_spec(a: Val, b: Val) -> Eval {
    if float_pair(a, b) {
        Eval::Float
    } else {
        match (a, b) {
            (Val::Int(x), Val::Int(y)) => int_result(x.checked_rem(y)),
            _ => Eval::Fail,
        }
    }
}

pub open spec fn int_pow(a: int, n: nat) -> int
    decreases n,
{
    if n == 0 {
        1
    } else {
        a * int_pow(a, (n - 1) as nat)
    }
}

pub open spec fn power_spec(a: Val, b: Val) -> Eval {
    if float_pair(a, b) {
        Eval::Float
    } else {
        match (a, b) {
            (Val::Int(x), Val::Int(y)) => if y < 0 {
                Eval::Float
            } else if i64::MIN <= int_pow(x as int, y as nat) <= i64::MAX {
                Eval::Done(Val::Int(int_pow(x as int, y as nat) as i64))
            } else {
                Eval::Fail
            },
            _ => Eval::Fail,
        }
    }
}

/// Structural equality of float-free values. Dictionaries and functions never compare
/// equal, and values of different kinds are unequal.
pub open spec fn same(a: Val, b: Val) -> bool
    decreases a,
{
    match a {
        Val::Nil => b is Nil,
        Val::Bool(x) => b is Bool && b->Bool_0 == x,
        Val::Int(x) => b is Int && b->Int_0 == x,
        Val::Str(x) => b is Str && b->Str_0 == x,
        Val::List(x) => b is List && x.len() == b->List_0.len() && forall|i: int|
            0 <= i < x.len() ==> same(#[trigger] x[i], b->List_0[i]),
        _ => false,
    }
}

/// Equality; values holding a float anywhere are compared by the host.
pub open spec fn eq_spec(a: Val, b: Val) -> Eval {
    if has_float(a) || has_float(b) {
        Eval::Float
    } else {
        Eval::Done(Val::Bool(same(a, b)))
    }
}

pub open spec fn lt_spec(a: Val, b: Val) -> Eval {
    if float_pair(a, b) {
        Eval::Float
    } else {
        match (a, b) {
            (Val::Int(x), Val::Int(y)) => Eval::Done(Val::Bool(x < y)),
            (Val::Str(x), Val::Str(y)) => Eval::Done(Val::Bool(text_lt(x, y))),
            _ => Eval::Fail,
        }
    }
}

pub open spec fn le_spec(a: Val, b: Val) -> Eval {
    if float_pair(a, b) {
        Eval::Float
    } else {
        match (a, b) {
            (Val::Int(x), Val::Int(y)) => Eval::Done(Val::Bool(x <= y)),
            (Val::Str(x), Val::Str(y)) => Eval::Done(Val::Bool(text_lt(x, y) || x == y)),
            _ => Eval::Fail,
        }
    }
}

/// Greater-than is "not less and not equal".
pub open spec fn gt_spec(a: Val, b: Val) -> Eval {
    match lt_spec(a, b) {
        Eval::Done(Val::Bool(l)) => Eval::Done(Val::Bool(!l && !same(a, b))),
        other => other,
    }
}

/// Greater-or-equal is "not less".
pub open spec fn ge_spec(a: Val, b: Val) -> Eval {
    match lt_spec(a, b) {
        Eval::Done(Val::Bool(l)) => Eval::Done(Val::Bool(!l)),
        other => other,
    }
}

pub open spec fn negate_spec(a: Val) -> Eval {
    match a {
        Val::Int(x) => int_result(0i64.checked_sub(x)),
        Val::Float(_) => Eval::Float,
        _ => Eval::Fail,
    }
}

pub open spec fn bit_and_spec(a: Val, b: Val) -> Eval {
    match (a, b) {
        (Val::Int(x), Val::Int(y)) => Eval::Done(Val::Int(x & y)),
        _ => Eval::Fail,
    }
}

pub open spec fn bit_or_spec(a: Val, b: Val) -> Eval {
    match (a, b) {
        (Val::Int(x), Val::Int(y)) => Eval::Done(Val::Int(x | y)),
        _ => Eval::Fail,
    }
}

pub open spec fn bit_xor_spec(a: Val, b: Val) -> Eval {
    match (a, b) {
        (Val::Int(x), Val::Int(y)) => Eval::Done(Val::Int(x ^ y)),
        _ => Eval::Fail,
    }
}

pub open spec fn bit_not_spec(a: Val) -> Eval {
    match a {
        Val::Int(x) => Eval::Done(Val::Int((-1 - x) as i64)),
        _ => Eval::Fail,
    }
}

/// Shifts take an amount in `0..64`; any other amount fails.
pub open spec fn shl_spec(a: Val, b: Val) -> Eval {
    match (a, b) {
        (Val::Int(x), Val::Int(y)) => if 0 <= y < 64 {
            Eval::Done(Val::Int(x << (y as u32)))
        } else {
            Eval::Fail
        },
        _ => Eval::Fail,
    }
}

pub open spec fn shr_spec(a: Val, b: Val) -> Eval {
    match (a, b) {
        (Val::Int(x), Val::Int(y)) => if 0 <= y < 64 {
            Eval::Done(Val::Int(x >> (y as u32)))
        } else {
            Eval::Fail
        },
        _ => Eval::Fail,
    }
}

/// Position designated by an index into a sequence of length `len`: negative indices
/// count back from `len`.
pub open spec fn wrap_index(i: i64, len: nat) -> int {
    if i < 0 {
        len + i
    } else {
        i as int
    }
}

/// Position of the first entry with key `k`, if any.
pub open spec fn key_pos(d: Seq<(Seq<char>, Val)>, k: Seq<char>) -> Option<int> {
    if exists|j: int| 0 <= j < d.len() && (#[trigger] d[j]).0 == k {
        Some(
            choose|j: int|
                0 <= j < d.len() && (#[trigger] d[j]).0 == k && forall|m: int|
                    0 <= m < j ==> (#[trigger] d[m]).0 != k,
        )
    } else {
        None
    }
}

/// Indexing: lists and texts by integer (a text yields its character there as a
/// one-character text; negative indices count back from the end), dictionaries by text key.
pub open spec fn get_index_spec(a: Val, i: Val) -> Eval {
    match (a, i) {
        (Val::List(l), Val::Int(x)) => {
            let p = wrap_index(x, l.len());
            if 0 <= p < l.len() {
                Eval::Done(l[p])
            } else {
                Eval::Fail
            }
        },
        (Val::Str(s), Val::Int(x)) => {
            let p = wrap_index(x, s.len());
            if 0 <= p < s.len() {
                Eval::Done(Val::Str(seq![s[p]]))
            } else {
                Eval::Fail
            }
        },
        (Val::Dict(d), Val::Str(k)) => match key_pos(d, k) {
            Some(p) => Eval::Done(d[p].1),
            None => Eval::Fail,
        },
        _ => Eval::Fail,
    }
}

/// Index assignment: a list slot in range is replaced; a dictionary key is updated in
/// place or appended at the end. `None` is failure.
pub open spec fn set_index_spec(a: Val, i: Val, v: Val) -> Option<Val> {
    match (a, i) {
        (Val::List(l), Val::Int(x)) => {
            let p = wrap_index(x, l.len());
            if 0 <= p < l.len() {
                Some(Val::List(l.update(p, v)))
            } else {
                None
            }
        },
        (Val::Dict(d), Val::Str(k)) => match key_pos(d, k) {
            Some(p) => Some(Val::Dict(d.update(p, (k, v)))),
            None => Some(Val::Dict(d.push((k, v)))),
        },
        _ => None,
    }
}

pub open spec fn len_spec(a: Val) -> Eval {
    match a {
        Val::Str(s) => Eval::Done(Val::Int(byte_count(s) as i64)),
        Val::List(l) => Eval::Done(Val::Int(l.len() as i64)),
        Val::Dict(d) => Eval::Done(Val::Int(d.len() as i64)),
        _ => Eval::Fail,
    }
}

/// Membership: a substring of a text, an element of a list (by equality), a key of a
/// dictionary.
pub open spec fn contains_spec(a: Val, x: Val) -> Eval {
    match a {
        Val::Str(s) => match x {
            Val::Str(t) => Eval::Done(Val::Bool(occurs_in(t, s))),
            _ => Eval::Fail,
        },
        Val::List(l) => if has_float(a) || has_float(x) {
            Eval::Float
        } else {
            Eval::Done(Val::Bool(exists|j: int| 0 <= j < l.len() && same(#[trigger] l[j], x)))
        },
        Val::Dict(d) => match x {
            Val::Str(k) => Eval::Done(Val::Bool(key_pos(d, k) is Some)),
            _ => Eval::Fail,
        },
        _ => Eval::Fail,
    }
}

/// Texts joined with `", "` between them.
pub open spec fn join_parts(parts: Seq<Seq<char>>) -> Seq<char>
    decreases parts.len(),
{
    if parts.len() == 0 {
        Seq::empty()
    } else if parts.len() == 1 {
        parts[0]
    } else {
        join_parts(parts.drop_last()) + ", "@ + parts.last()
    }
}

/// Display forms of the items of a list.
pub open spec fn show_items(l: Seq<Val>) -> Seq<Seq<char>>
    decreases l,
{
    Seq::new(l.len(), |i: int| if 0 <= i < l.len() { show(l[i]) } else { Seq::empty() })
}

/// Display forms of the entries of a dictionary, each as `"key": value`.
pub open spec fn show_entries(d: Seq<(Seq<char>, Val)>) -> Seq<Seq<char>>
    decreases d,
{
    Seq::new(
        d.len(),
        |i: int|
            if 0 <= i < d.len() {
                "\""@ + d[i].0 + "\": "@ + show(d[i].1)
            } else {
                Seq::empty()
            },
    )
}

/// Display form of a float-free value: `kosong`, `benar`/`salah`, decimal integers, texts
/// unquoted, `[a, b]`, `{"k": v}` and `<fungsi name>`.
pub open spec fn show(v: Val) -> Seq<char>
    decreases v,
{
    match v {
        Val::Nil => "kosong"@,
        Val::Bool(b) => if b {
            "benar"@
        } else {
            "salah"@
        },
        Val::Int(i) => decimal(i as int),
        Val::Float(_) => Seq::empty(),
        Val::Str(s) => s,
        Val::List(l) => "["@ + join_parts(show_items(l)) + "]"@,
        Val::Dict(d) => "{"@ + join_parts(show_entries(d)) + "}"@,
        Val::Function(n, _, _) => "<fungsi "@ + n + ">"@,
    }
}

/// Models of a sequence of values.
pub open spec fn vals(s: Seq<Value>) -> Seq<Val> {
    Seq::new(s.len(), |i: int| s[i]@)
}

/// Models of a sequence of named values.
pub open spec fn entries_view(s: Seq<(String, Value)>) -> Seq<(Seq<char>, Val)> {
    Seq::new(s.len(), |i: int| (s[i].0@, s[i].1@))
}


/// `prefix` + tag of `a` + `mid` + tag of `b`: the message of a type error.
pub open spec fn type_error(prefix: Seq<char>, a: Val, mid: Seq<char>, b: Val) -> Seq<char> {
    prefix + type_label(a) + mid + type_label(b)
}

/// The message of a failed operation: integer overflow between integers, else a type error
/// naming both kinds.
pub open spec fn overflow_or(a: Val, b: Val, e: Seq<char>) -> Seq<char> {
    if a is Int && b is Int {
        "Integer overflow"@
    } else {
        e
    }
}

/// The message of a failed division-like operation: a zero divisor, integer overflow, or a
/// type error.
pub open spec fn division_message(a: Val, b: Val, zero: Seq<char>, e: Seq<char>) -> Seq<char> {
    if is_number(a) && is_number(b) && b == Val::Int(0) {
        zero
    } else if a is Int && b is Int {
        "Integer overflow"@
    } else {
        e
    }
}

/// The message of a failed index: out of range, a missing key, or a type error.
pub open spec fn index_message(a: Val, i: Val) -> Seq<char> {
    match (a, i) {
        (Val::List(_), Val::Int(x)) => out_of_range(x),
        (Val::Str(_), Val::Int(x)) => out_of_range(x),
        (Val::Dict(_), Val::Str(k)) => "Key '"@ + k + "' not found"@,
        _ => type_error("Cannot index "@, a, " with "@, i),
    }
}


/// `Index <i> out of range`.
pub open spec fn out_of_range(i: i64) -> Seq<char> {
    "Index "@ + decimal(i as int) + " out of range"@
}

pub open spec fn add_message(a: Val, b: Val) -> Seq<char> {
    overflow_or(a, b, type_error("Cannot add "@, a, " and "@, b))
}

pub open spec fn sub_message(a: Val, b: Val) -> Seq<char> {
    overflow_or(a, b, type_error("Cannot subtract "@, b, " from "@, a))
}

pub open spec fn mul_message(a: Val, b: Val) -> Seq<char> {
    overflow_or(a, b, type_error("Cannot multiply "@, a, " and "@, b))
}

pub open spec fn div_message(a: Val, b: Val) -> Seq<char> {
    division_message(a, b, "Division by zero"@, type_error("Cannot divide "@, a, " by "@, b))
}

pub open spec fn floor_div_message(a: Val, b: Val) -> Seq<char> {
    division_message(a, b, "Division by zero"@, type_error("Cannot floor divide "@, a, " by "@, b))
}

pub open spec fn modulo_message(a: Val, b: Val) -> Seq<char> {
    division_message(a, b, "Modulo by zero"@, type_error("Cannot modulo "@, a, " by "@, b))
}

pub open spec fn power_message(a: Val, b: Val) -> Seq<char> {
    overflow_or(a, b, type_error("Cannot raise "@, a, " to power "@, b))
}

pub open spec fn compare_message(a: Val, b: Val) -> Seq<char> {
    type_error("Cannot compare "@, a, " and "@, b)
}

pub open spec fn negate_message(a: Val) -> Seq<char> {
    if a is Int {
        "Integer overflow"@
    } else {
        "Cannot negate "@ + type_label(a)
    }
}

pub open spec fn bit_and_message(a: Val, b: Val) -> Seq<char> {
    type_error("Cannot bitwise AND "@, a, " and "@, b)
}

pub open spec fn bit_or_message(a: Val, b: Val) -> Seq<char> {
    type_error("Cannot bitwise OR "@, a, " and "@, b)
}

pub open spec fn bit_xor_message(a: Val, b: Val) -> Seq<char> {
    type_error("Cannot bitwise XOR "@, a, " and "@, b)
}

pub open spec fn bit_not_message(a: Val) -> Seq<char> {
    "Cannot bitwise NOT "@ + type_label(a)
}

pub open spec fn shift_message(prefix: Seq<char>, a: Val, b: Val) -> Seq<char> {
    if a is Int && b is Int {
        "Shift amount out of range"@
    } else {
        type_error(prefix, a, " by "@, b)
    }
}

pub open spec fn len_message(a: Val) -> Seq<char> {
    "Cannot get length of "@ + type_label(a)
}

pub open spec fn contains_message(a: Val, b: Val) -> Seq<char> {
    match a {
        Val::Str(_) => type_error("Cannot check if "@, a, " contains "@, b),
        Val::Dict(_) => "Dict keys must be strings"@,
        _ => "Cannot check membership in "@ + type_label(a),
    }
}

/// The message of a failed index assignment.
pub open spec fn set_index_message(a: Val, i: Val) -> Seq<char> {
    match a {
        Val::List(_) => match i {
            Val::Int(x) => out_of_range(x),
            _ => "Cannot index list with "@ + type_label(i),
        },
        Val::Dict(_) => "Cannot index dict with "@ + type_label(i),
        _ => "Cannot set index on "@ + type_label(a),
    }
}

pub proof fn lemma_list_vals(l: Vec<Value>)
    ensures
        Value::List(l)@ == Val::List(vals(l@)),
{
    assert(Value::List(l)@->List_0 =~= vals(l@));
}

pub proof fn lemma_dict_entries(d: Vec<(String, Value)>)
    ensures
        Value::Dict(d)@ == Val::Dict(entries_view(d@)),
{
    assert(Value::Dict(d)@->Dict_0 =~= entries_view(d@));
}

pub proof fn lemma_list_view(a: Vec<Value>, s: Seq<Val>)
    requires
        a@.len() == s.len(),
        forall|j: int| 0 <= j < a@.len() ==> a@[j]@ == s[j],
    ensures
        Value::List(a)@ == Val::List(s),
{
    let v = Value::List(a);
    assert(v@->List_0.len() == s.len());
    assert forall|j: int| 0 <= j < s.len() implies v@->List_0[j] == s[j] by {
        assert(a@[j]@ == s[j]);
    }
    assert(v@->List_0 =~= s);
}

pub proof fn lemma_dict_view(a: Vec<(String, Value)>, s: Seq<(Seq<char>, Val)>)
    requires
        a@.len() == s.len(),
        forall|j: int| 0 <= j < a@.len() ==> a@[j].0@ == s[j].0 && a@[j].1@ == s[j].1,
    ensures
        Value::Dict(a)@ == Val::Dict(s),
{
    assert(Value::Dict(a)@->Dict_0 =~= s);
}

pub fn copy_texts(v: &Vec<String>) -> (r: Vec<String>)
    ensures
        r@ == v@,
{
    let mut out: Vec<String> = Vec::new();
    let mut i: usize = 0;
    while i < v.len()
        invariant
            i <= v@.len(),
            out@ == v@.subrange(0, i as int),
        decreases v.len() - i,
    {
        out.push(v[i].clone());
        i = i + 1;
    }
    assert(v@.subrange(0, v@.len() as int) =~= v@);
    out
}

fn fail2(a: &str, x: &Value, b: &str, y: &Value) -> (r: Outcome)
    ensures
        r is Fail,
        r->Fail_0@ == a@ + type_label(x@) + b@ + type_label(y@),
{
    Outcome::Fail(join4(a, x.type_tag(), b, y.type_tag()))
}

fn prefixed(a: &str, b: &str) -> (r: String)
    ensures
        r@ == a@ + b@,
{
    let mut m = a.to_owned();
    m.append(b);
    m
}

fn fail1(a: &str, x: &Value) -> (r: Outcome)
    ensures
        r is Fail,
        r->Fail_0@ == a@ + type_label(x@),
{
    let mut m = a.to_owned();
    m.append(x.type_tag());
    Outcome::Fail(m)
}

impl Value {
    /// A deep copy.
    pub fn duplicate(&self) -> (r: Value)
        ensures
            r@ == self@,
        decreases self,
    {
        match self {
            Value::Nil => Value::Nil,
            Value::Bool(b) => Value::Bool(*b),
            Value::Int(i) => Value::Int(*i),
            Value::Float(f) => Value::Float(*f),
            Value::String(s) => Value::String(s.clone()),
            Value::List(l) => {
                let mut out: Vec<Value> = Vec::new();
                let mut i: usize = 0;
                while i < l.len()
                    invariant
                        i <= l.len(),
                        out@.len() == i,
                        self is List,
                        self->List_0 == *l,
                        forall|j: int| 0 <= j < i ==> out@[j]@ == l@[j]@,
                    decreases l.len() - i,
                {
                    proof {
                        assert(decreases_to!(*self => self->List_0));
                        assert(decreases_to!(*l => l[i as int]));
                    }
                    out.push(l[i].duplicate());
                    i = i + 1;
                }
                proof {
                    lemma_list_view(out, self@->List_0);
                }
                Value::List(out)
            },
            Value::Dict(d) => {
                let mut out: Vec<(String, Value)> = Vec::new();
                let mut i: usize = 0;
                while i < d.len()
                    invariant
                        i <= d.len(),
                        out@.len() == i,
                        self is Dict,
                        self->Dict_0 == *d,
                        forall|j: int|
                            0 <= j < i ==> out@[j].0@ == d@[j].0@ && out@[j].1@ == d@[j].1@,
                    decreases d.len() - i,
                {
                    proof {
                        assert(decreases_to!(*self => self->Dict_0));
                        assert(decreases_to!(*d => d[i as int]));
                        assert(decreases_to!(d[i as int] => d[i as int].1));
                    }
                    let k = d[i].0.clone();
                    let v = d[i].1.duplicate();
                    out.push((k, v));
                    i = i + 1;
                }
                proof {
                    lemma_dict_view(out, self@->Dict_0);
                }
                Value::Dict(out)
            },
            Value::Function { name, params, bytecode_offset } => {
                let r = Value::Function {
                    name: name.clone(),
                    params: copy_texts(params),
                    bytecode_offset: *bytecode_offset,
                };
                r
            },
        }
    }

    pub fn is_truthy(&self) -> (r: bool)
        ensures
            r == truthy(self@),
    {
        match self {
            Value::Nil => false,
            Value::Bool(b) => *b,
            Value::Int(i) => *i != 0,
            Value::Float(f) => *f & 0x7fff_ffff_ffff_ffff != 0,
            Value::String(s) => {
                let e = s.as_str().is_empty();
                assert(e == (s@.len() == 0));
                !e
            },
            Value::List(l) => l.len() > 0,
            Value::Dict(d) => d.len() > 0,
            Value::Function { .. } => true,
        }
    }

    pub fn type_tag(&self) -> (r: &'static str)
        ensures
            r@ == type_label(self@),
    {
        match self {
            Value::Nil => "none",
            Value::Bool(_) => "bool",
            Value::Int(_) => "int",
            Value::Float(_) => "float",
            Value::String(_) => "string",
            Value::List(_) => "list",
            Value::Dict(_) => "dict",
            Value::Function { .. } => "function",
        }
    }
}


fn is_num(v: &Value) -> (r: bool)
    ensures
        r == is_number(v@),
{
    match v {
        Value::Int(_) | Value::Float(_) => true,
        _ => false,
    }
}

fn floats(a: &Value, b: &Value) -> (r: bool)
    ensures
        r == float_pair(a@, b@),
{
    is_num(a) && is_num(b) && (matches!(a, Value::Float(_)) || matches!(b, Value::Float(_)))
}

fn int_outcome(r: Option<i64>) -> (o: Outcome)
    ensures
        o.eval() == int_result(r),
        o is Fail ==> o->Fail_0@ == "Integer overflow"@,
{
    match r {
        Some(x) => Outcome::Done(Value::Int(x)),
        None => Outcome::Fail(String::from_str("Integer overflow")),
    }
}

/// Concatenation of two lists of values (deep copies).
fn list_concat(x: &Vec<Value>, y: &Vec<Value>) -> (r: Vec<Value>)
    ensures
        Value::List(r)@ == Val::List(Value::List(*x)@->List_0 + Value::List(*y)@->List_0),
{
    let ghost xs = Value::List(*x)@->List_0;
    let ghost ys = Value::List(*y)@->List_0;
    let mut out: Vec<Value> = Vec::new();
    let mut i: usize = 0;
    while i < x.len()
        invariant
            i <= x@.len(),
            out@.len() == i,
            xs == Value::List(*x)@->List_0,
            forall|j: int| 0 <= j < i ==> out@[j]@ == xs[j],
        decreases x.len() - i,
    {
        out.push(x[i].duplicate());
        i = i + 1;
    }
    let mut k: usize = 0;
    while k < y.len()
        invariant
            k <= y@.len(),
            out@.len() == x@.len() + k,
            xs == Value::List(*x)@->List_0,
            ys == Value::List(*y)@->List_0,
            forall|j: int| 0 <= j < x@.len() ==> out@[j]@ == xs[j],
            forall|j: int| 0 <= j < k ==> out@[x@.len() + j]@ == ys[j],
        decreases y.len() - k,
    {
        out.push(y[k].duplicate());
        k = k + 1;
    }
    proof {
        let t = xs + ys;
        assert forall|j: int| 0 <= j < out@.len() implies out@[j]@ == t[j] by {
            if j >= x@.len() {
                assert(out@[x@.len() + (j - x@.len())]@ == ys[j - x@.len()]);
            }
        }
        lemma_list_view(out, t);
    }
    out
}

fn repeat_text(s: &String, n: i64) -> (r: String)
    ensures
        r@ == repeat(s@, n as int),
{
    let mut out = String::new();
    let mut i: i64 = 0;
    while i < n
        invariant
            0 <= i,
            i <= n || n < 0,
            n < 0 ==> i == 0,
            out@ == repeat(s@, i as int),
        decreases n - i,
    {
        out.append(s.as_str());
        i = i + 1;
    }
    assert(repeat(s@, n as int) == repeat(s@, i as int));
    out
}

fn repeat_list(l: &Vec<Value>, n: i64) -> (r: Vec<Value>)
    ensures
        Value::List(r)@ == Val::List(repeat(Value::List(*l)@->List_0, n as int)),
{
    let ghost ls = Value::List(*l)@->List_0;
    let mut out: Vec<Value> = Vec::new();
    proof {
        lemma_list_view(out, Seq::empty());
    }
    let mut i: i64 = 0;
    while i < n
        invariant
            0 <= i,
            i <= n || n < 0,
            n < 0 ==> i == 0,
            ls == Value::List(*l)@->List_0,
            Value::List(out)@ == Val::List(repeat(ls, i as int)),
        decreases n - i,
    {
        let more = list_concat(&out, l);
        out = more;
        i = i + 1;
    }
    assert(repeat(ls, n as int) == repeat(ls, i as int));
    out
}

proof fn lemma_pow_unit(a: int, n: nat)
    requires
        a == 0 || a == 1 || a == -1,
    ensures
        a == 1 ==> int_pow(a, n) == 1,
        a == 0 ==> int_pow(a, n) == (if n == 0 { 1int } else { 0int }),
        a == -1 ==> int_pow(a, n) == (if n % 2 == 0 { 1int } else { -1int }),
    decreases n,
{
    if n > 0 {
        lemma_pow_unit(a, (n - 1) as nat);
    }
}

fn int_power(a: i64, n: i64) -> (r: Option<i64>)
    requires
        n >= 0,
    ensures
        match r {
            Some(x) => x as int == int_pow(a as int, n as nat),
            None => !(i64::MIN <= int_pow(a as int, n as nat) <= i64::MAX),
        },
{
    if a == 0 || a == 1 || a == -1 {
        proof {
            lemma_pow_unit(a as int, n as nat);
        }
    }
    if a == 0 {
        return if n == 0 { Some(1) } else { Some(0) };
    }
    if a == 1 {
        return Some(1);
    }
    if a == -1 {
        return if n % 2 == 0 { Some(1) } else { Some(-1) };
    }
    let mut acc: i64 = 1;
    let mut i: i64 = 0;
    while i < n
        invariant
            0 <= i <= n,
            acc as int == int_pow(a as int, i as nat),
            a != 0 && a != 1 && a != -1,
        decreases n - i,
    {
        match acc.checked_mul(a) {
            Some(x) => {
                assert(int_pow(a as int, (i + 1) as nat) == a * int_pow(a as int, i as nat));
                acc = x;
            },
            None => {
                proof {
                    lemma_pow_grows(a as int, (i + 1) as nat, n as nat);
                }
                return None;
            },
        }
        i = i + 1;
    }
    Some(acc)
}

/// Once a power of an integer other than -1, 0, 1 leaves the range of `i64` it stays out.
proof fn lemma_pow_grows(a: int, m: nat, n: nat)
    requires
        a != 0 && a != 1 && a != -1,
        m <= n,
        !(i64::MIN <= int_pow(a, m) <= i64::MAX),
    ensures
        !(i64::MIN <= int_pow(a, n) <= i64::MAX),
    decreases n - m,
{
    if m < n {
        let p = int_pow(a, m);
        assert(int_pow(a, (m + 1) as nat) == a * p);
        if p > 0 {
            assert(a * p > i64::MAX || a * p < i64::MIN) by (nonlinear_arith)
                requires a != 0 && a != 1 && a != -1, p > i64::MAX;
        } else {
            assert(a * p > i64::MAX || a * p < i64::MIN) by (nonlinear_arith)
                requires a != 0 && a != 1 && a != -1, p < i64::MIN;
        }
        lemma_pow_grows(a, (m + 1) as nat, n);
    }
}

impl Value {
    pub fn add(&self, other: &Value) -> (r: Outcome)
        ensures
            r is Fail ==> r->Fail_0@ == add_message(self@, other@),
            r.eval() == add_spec(self@, other@),
    {
        if floats(self, other) {
            return Outcome::Float;
        }
        match (self, other) {
            (Value::Int(a), Value::Int(b)) => int_outcome(a.checked_add(*b)),
            (Value::String(a), Value::String(b)) => Outcome::Done(Value::String(concat(a, b))),
            (Value::List(a), Value::List(b)) => Outcome::Done(Value::List(list_concat(a, b))),
            _ => fail2("Cannot add ", self, " and ", other),
        }
    }

    pub fn sub(&self, other: &Value) -> (r: Outcome)
        ensures
            r is Fail ==> r->Fail_0@ == sub_message(self@, other@),
            r.eval() == sub_spec(self@, other@),
    {
        if floats(self, other) {
            return Outcome::Float;
        }
        match (self, other) {
            (Value::Int(a), Value::Int(b)) => int_outcome(a.checked_sub(*b)),
            _ => fail2("Cannot subtract ", other, " from ", self),
        }
    }

    pub fn mul(&self, other: &Value) -> (r: Outcome)
        ensures
            r is Fail ==> r->Fail_0@ == mul_message(self@, other@),
            r.eval() == mul_spec(self@, other@),
    {
        if floats(self, other) {
            return Outcome::Float;
        }
        match (self, other) {
            (Value::Int(a), Value::Int(b)) => int_outcome(a.checked_mul(*b)),
            (Value::String(s), Value::Int(n)) => Outcome::Done(Value::String(repeat_text(s, *n))),
            (Value::Int(n), Value::String(s)) => Outcome::Done(Value::String(repeat_text(s, *n))),
            (Value::List(l), Value::Int(n)) => Outcome::Done(Value::List(repeat_list(l, *n))),
            (Value::Int(n), Value::List(l)) => Outcome::Done(Value::List(repeat_list(l, *n))),
            _ => fail2("Cannot multiply ", self, " and ", other),
        }
    }

    pub fn div(&self, other: &Value) -> (r: Outcome)
        ensures
            r is Fail ==> r->Fail_0@ == div_message(self@, other@),
            r.eval() == div_spec(self@, other@),
    {
        if !is_num(self) || !is_num(other) {
            return fail2("Cannot divide ", self, " by ", other);
        }
        match other {
            Value::Int(0) => Outcome::Fail(String::from_str("Division by zero")),
            _ => Outcome::Float,
        }
    }

    pub fn floor_div(&self, other: &Value) -> (r: Outcome)
        ensures
            r is Fail ==> r->Fail_0@ == floor_div_message(self@, other@),
            r.eval() == floor_div_spec(self@, other@),
    {
        if floats(self, other) {
            return Outcome::Float;
        }
        match (self, other) {
            (Value::Int(a), Value::Int(b)) => if *b == 0 {
                Outcome::Fail(String::from_str("Division by zero"))
            } else {
                int_outcome(a.checked_div(*b))
            },
            _ => fail2("Cannot floor divide ", self, " by ", other),
        }
    }

    pub fn modulo(&self, other: &Value) -> (r: Outcome)
        ensures
            r is Fail ==> r->Fail_0@ == modulo_message(self@, other@),
            r.eval() == modulo_spec(self@, other@),
    {
        if floats(self, other) {
            return Outcome::Float;
        }
        match (self, other) {
            (Value::Int(a), Value::Int(b)) => if *b == 0 {
                Outcome::Fail(String::from_str("Modulo by zero"))
            } else {
                int_outcome(a.checked_rem(*b))
            },
            _ => fail2("Cannot modulo ", self, " by ", other),
        }
    }

    pub fn power(&self, other: &Value) -> (r: Outcome)
        ensures
            r is Fail ==> r->Fail_0@ == power_message(self@, other@),
            r.eval() == power_spec(self@, other@),
    {
        if floats(self, other) {
            return Outcome::Float;
        }
        match (self, other) {
            (Value::Int(a), Value::Int(b)) => if *b < 0 {
                Outcome::Float
            } else {
                match int_power(*a, *b) {
                    Some(x) => Outcome::Done(Value::Int(x)),
                    None => Outcome::Fail(String::from_str("Integer overflow")),
                }
            },
            _ => fail2("Cannot raise ", self, " to power ", other),
        }
    }
}

fn same_values(a: &Value, b: &Value) -> (r: bool)
    ensures
        r == same(a@, b@),
    decreases a,
{
    match (a, b) {
        (Value::Nil, Value::Nil) => true,
        (Value::Bool(x), Value::Bool(y)) => *x == *y,
        (Value::Int(x), Value::Int(y)) => *x == *y,
        (Value::String(x), Value::String(y)) => *x == *y,
        (Value::List(x), Value::List(y)) => {
            if x.len() != y.len() {
                return false;
            }
            let mut i: usize = 0;
            while i < x.len()
                invariant
                    i <= x@.len(),
                    x@.len() == y@.len(),
                    a is List && a->List_0 == *x,
                    b is List && b->List_0 == *y,
                    forall|j: int| 0 <= j < i ==> same(a@->List_0[j], b@->List_0[j]),
                decreases x.len() - i,
            {
                proof {
                    assert(decreases_to!(*a => a->List_0));
                    assert(decreases_to!(*x => x[i as int]));
                }
                assert(a@->List_0[i as int] == x@[i as int]@);
                assert(b@->List_0[i as int] == y@[i as int]@);
                if !same_values(&x[i], &y[i]) {
                    return false;
                }
                i = i + 1;
            }
            true
        },
        (Value::Nil, _) | (Value::Bool(_), _) | (Value::Int(_), _) | (Value::String(_), _)
        | (Value::List(_), _) => false,
        _ => false,
    }
}

fn text_less(a: &String, b: &String) -> (r: bool)
    ensures
        r == text_lt(a@, b@),
{
    let x = chars_of(a.as_str());
    let y = chars_of(b.as_str());
    let mut i: usize = 0;
    assert(x@.subrange(0, x@.len() as int) =~= x@);
    assert(y@.subrange(0, y@.len() as int) =~= y@);
    while i < x.len() && i < y.len()
        invariant
            i <= x@.len(),
            i <= y@.len(),
            x@ == a@,
            y@ == b@,
            text_lt(a@, b@) == text_lt(x@.subrange(i as int, x@.len() as int), y@.subrange(i as int, y@.len() as int)),
        decreases x.len() - i,
    {
        let ghost xs = x@.subrange(i as int, x@.len() as int);
        let ghost ys = y@.subrange(i as int, y@.len() as int);
        if x[i] != y[i] {
            assert(xs[0] == x@[i as int]);
            assert(ys[0] == y@[i as int]);
            return (x[i] as u32) < (y[i] as u32);
        }
        assert(xs.drop_first() =~= x@.subrange(i + 1, x@.len() as int));
        assert(ys.drop_first() =~= y@.subrange(i + 1, y@.len() as int));
        i = i + 1;
    }
    i < y.len()
}

pub(crate) fn find_key(d: &Vec<(String, Value)>, k: &String) -> (r: Option<usize>)
    ensures
        key_pos(Value::Dict(*d)@->Dict_0, k@) == match r {
            Some(p) => Some(p as int),
            None => None::<int>,
        },
        r is Some ==> r->Some_0 < d@.len(),
{
    let ghost m = Value::Dict(*d)@->Dict_0;
    let mut i: usize = 0;
    while i < d.len()
        invariant
            i <= d@.len(),
            m == Value::Dict(*d)@->Dict_0,
            forall|j: int| 0 <= j < i ==> m[j].0 != k@,
        decreases d.len() - i,
    {
        assert(m[i as int].0 == d@[i as int].0@);
        if d[i].0 == *k {
            proof {
                let q = choose|j: int|
                    0 <= j < m.len() && (#[trigger] m[j]).0 == k@ && forall|n: int|
                        0 <= n < j ==> (#[trigger] m[n]).0 != k@;
                assert(0 <= i < m.len() && m[i as int].0 == k@ && forall|n: int|
                    0 <= n < i ==> (#[trigger] m[n]).0 != k@);
                if q < i {
                } else if q > i {
                    assert(m[i as int].0 != k@);
                }
            }
            return Some(i);
        }
        i = i + 1;
    }
    None
}

fn render_parts(parts: &Vec<String>) -> (r: String)
    ensures
        r@ == join_parts(texts_view(parts@)),
{
    let ghost ps = texts_view(parts@);
    let mut out = String::new();
    let mut i: usize = 0;
    while i < parts.len()
        invariant
            i <= parts@.len(),
            ps == texts_view(parts@),
            out@ == join_parts(ps.subrange(0, i as int)),
        decreases parts.len() - i,
    {
        let ghost pre = ps.subrange(0, i as int);
        assert(ps.subrange(0, i + 1).drop_last() =~= pre);
        if i > 0 {
            out.append(", ");
        }
        out.append(parts[i].as_str());
        i = i + 1;
    }
    assert(ps.subrange(0, parts@.len() as int) =~= ps);
    out
}

impl Value {
    /// Whether a float occurs anywhere in the value.
    pub fn holds_float(&self) -> (r: bool)
        ensures
            r == has_float(self@),
        decreases self,
    {
        match self {
            Value::Float(_) => true,
            Value::List(l) => {
                let mut i: usize = 0;
                while i < l.len()
                    invariant
                        i <= l@.len(),
                        self is List && self->List_0 == *l,
                        forall|j: int| 0 <= j < i ==> !has_float(self@->List_0[j]),
                    decreases l.len() - i,
                {
                    proof {
                        assert(decreases_to!(*self => self->List_0));
                        assert(decreases_to!(*l => l[i as int]));
                    }
                    assert(self@->List_0[i as int] == l@[i as int]@);
                    if l[i].holds_float() {
                        return true;
                    }
                    i = i + 1;
                }
                false
            },
            Value::Dict(d) => {
                let mut i: usize = 0;
                while i < d.len()
                    invariant
                        i <= d@.len(),
                        self is Dict && self->Dict_0 == *d,
                        forall|j: int| 0 <= j < i ==> !has_float(self@->Dict_0[j].1),
                    decreases d.len() - i,
                {
                    proof {
                        assert(decreases_to!(*self => self->Dict_0));
                        assert(decreases_to!(*d => d[i as int]));
                        assert(decreases_to!(d[i as int] => d[i as int].1));
                    }
                    assert(self@->Dict_0[i as int].1 == d@[i as int].1@);
                    if d[i].1.holds_float() {
                        return true;
                    }
                    i = i + 1;
                }
                false
            },
            _ => false,
        }
    }

    /// Equality. Values that hold a float are compared by the host.
    pub fn eq(&self, other: &Value) -> (r: Outcome)
        ensures
            r.eval() == eq_spec(self@, other@),
    {
        if self.holds_float() || other.holds_float() {
            Outcome::Float
        } else {
            Outcome::Done(Value::Bool(same_values(self, other)))
        }
    }

    pub fn lt(&self, other: &Value) -> (r: Outcome)
        ensures
            r is Fail ==> r->Fail_0@ == compare_message(self@, other@),
            r.eval() == lt_spec(self@, other@),
    {
        if floats(self, other) {
            return Outcome::Float;
        }
        match (self, other) {
            (Value::Int(a), Value::Int(b)) => Outcome::Done(Value::Bool(*a < *b)),
            (Value::String(a), Value::String(b)) => Outcome::Done(Value::Bool(text_less(a, b))),
            _ => fail2("Cannot compare ", self, " and ", other),
        }
    }

    pub fn le(&self, other: &Value) -> (r: Outcome)
        ensures
            r is Fail ==> r->Fail_0@ == compare_message(self@, other@),
            r.eval() == le_spec(self@, other@),
    {
        if floats(self, other) {
            return Outcome::Float;
        }
        match (self, other) {
            (Value::Int(a), Value::Int(b)) => Outcome::Done(Value::Bool(*a <= *b)),
            (Value::String(a), Value::String(b)) => Outcome::Done(
                Value::Bool(text_less(a, b) || *a == *b),
            ),
            _ => fail2("Cannot compare ", self, " and ", other),
        }
    }

    pub fn gt(&self, other: &Value) -> (r: Outcome)
        ensures
            r is Fail ==> r->Fail_0@ == compare_message(self@, other@),
            r.eval() == gt_spec(self@, other@),
    {
        match self.lt(other) {
            Outcome::Done(Value::Bool(l)) => Outcome::Done(
                Value::Bool(!l && !same_values(self, other)),
            ),
            o => o,
        }
    }

    pub fn ge(&self, other: &Value) -> (r: Outcome)
        ensures
            r is Fail ==> r->Fail_0@ == compare_message(self@, other@),
            r.eval() == ge_spec(self@, other@),
    {
        match self.lt(other) {
            Outcome::Done(Value::Bool(l)) => Outcome::Done(Value::Bool(!l)),
            o => o,
        }
    }

    pub fn negate(&self) -> (r: Outcome)
        ensures
            r is Fail ==> r->Fail_0@ == negate_message(self@),
            r.eval() == negate_spec(self@),
    {
        match self {
            Value::Int(i) => int_outcome(0i64.checked_sub(*i)),
            Value::Float(_) => Outcome::Float,
            _ => fail1("Cannot negate ", self),
        }
    }

    pub fn not(&self) -> (r: Value)
        ensures
            r@ == Val::Bool(!truthy(self@)),
    {
        Value::Bool(!self.is_truthy())
    }

    pub fn bit_and(&self, other: &Value) -> (r: Outcome)
        ensures
            r is Fail ==> r->Fail_0@ == bit_and_message(self@, other@),
            r.eval() == bit_and_spec(self@, other@),
    {
        match (self, other) {
            (Value::Int(a), Value::Int(b)) => Outcome::Done(Value::Int(*a & *b)),
            _ => fail2("Cannot bitwise AND ", self, " and ", other),
        }
    }

    pub fn bit_or(&self, other: &Value) -> (r: Outcome)
        ensures
            r is Fail ==> r->Fail_0@ == bit_or_message(self@, other@),
            r.eval() == bit_or_spec(self@, other@),
    {
        match (self, other) {
            (Value::Int(a), Value::Int(b)) => Outcome::Done(Value::Int(*a | *b)),
            _ => fail2("Cannot bitwise OR ", self, " and ", other),
        }
    }

    pub fn bit_xor(&self, other: &Value) -> (r: Outcome)
        ensures
            r is Fail ==> r->Fail_0@ == bit_xor_message(self@, other@),
            r.eval() == bit_xor_spec(self@, other@),
    {
        match (self, other) {
            (Value::Int(a), Value::Int(b)) => Outcome::Done(Value::Int(*a ^ *b)),
            _ => fail2("Cannot bitwise XOR ", self, " and ", other),
        }
    }

    pub fn bit_not(&self) -> (r: Outcome)
        ensures
            r is Fail ==> r->Fail_0@ == bit_not_message(self@),
            r.eval() == bit_not_spec(self@),
    {
        match self {
            Value::Int(i) => {
                let x: i64 = *i;
                let r: i64 = !x;
                assert(r == -1 - x) by (bit_vector)
                    requires r == !x;
                Outcome::Done(Value::Int(r))
            },
            _ => fail1("Cannot bitwise NOT ", self),
        }
    }

    pub fn shl(&self, other: &Value) -> (r: Outcome)
        ensures
            r is Fail ==> r->Fail_0@ == shift_message("Cannot left shift "@, self@, other@),
            r.eval() == shl_spec(self@, other@),
    {
        match (self, other) {
            (Value::Int(a), Value::Int(b)) => if 0 <= *b && *b < 64 {
                Outcome::Done(Value::Int(*a << (*b as u32)))
            } else {
                Outcome::Fail(String::from_str("Shift amount out of range"))
            },
            _ => fail2("Cannot left shift ", self, " by ", other),
        }
    }

    pub fn shr(&self, other: &Value) -> (r: Outcome)
        ensures
            r is Fail ==> r->Fail_0@ == shift_message("Cannot right shift "@, self@, other@),
            r.eval() == shr_spec(self@, other@),
    {
        match (self, other) {
            (Value::Int(a), Value::Int(b)) => if 0 <= *b && *b < 64 {
                Outcome::Done(Value::Int(*a >> (*b as u32)))
            } else {
                Outcome::Fail(String::from_str("Shift amount out of range"))
            },
            _ => fail2("Cannot right shift ", self, " by ", other),
        }
    }

    pub fn get_index(&self, index: &Value) -> (r: Outcome)
        ensures
            r is Fail ==> r->Fail_0@ == index_message(self@, index@),
            r.eval() == get_index_spec(self@, index@),
    {
        match (self, index) {
            (Value::List(list), Value::Int(i)) => {
                let p: i128 = if *i < 0 { list.len() as i128 + *i as i128 } else { *i as i128 };
                if 0 <= p && p < list.len() as i128 {
                    Outcome::Done(list[p as usize].duplicate())
                } else {
                    Outcome::Fail(join3("Index ", int_text(*i).as_str(), " out of range"))
                }
            },
            (Value::String(s), Value::Int(i)) => {
                let cs = chars_of(s.as_str());
                let p: i128 = if *i < 0 {
                    cs.len() as i128 + *i as i128
                } else {
                    *i as i128
                };
                if 0 <= p && p < cs.len() as i128 {
                    let mut one: Vec<char> = Vec::new();
                    one.push(cs[p as usize]);
                    assert(one@ =~= seq![s@[p as int]]);
                    Outcome::Done(Value::String(string_of(&one)))
                } else {
                    Outcome::Fail(join3("Index ", int_text(*i).as_str(), " out of range"))
                }
            },
            (Value::Dict(dict), Value::String(key)) => match find_key(dict, key) {
                Some(p) => Outcome::Done(dict[p].1.duplicate()),
                None => Outcome::Fail(join3("Key '", key.as_str(), "' not found")),
            },
            _ => fail2("Cannot index ", self, " with ", index),
        }
    }

    pub fn len(&self) -> (r: Outcome)
        ensures
            r is Fail ==> r->Fail_0@ == len_message(self@),
            r.eval() == len_spec(self@),
    {
        match self {
            Value::String(s) => Outcome::Done(Value::Int(text_bytes(s) as i64)),
            Value::List(l) => Outcome::Done(Value::Int(l.len() as i64)),
            Value::Dict(d) => Outcome::Done(Value::Int(d.len() as i64)),
            _ => fail1("Cannot get length of ", self),
        }
    }

    pub fn contains(&self, item: &Value) -> (r: Outcome)
        ensures
            r is Fail ==> r->Fail_0@ == contains_message(self@, item@),
            r.eval() == contains_spec(self@, item@),
    {
        match self {
            Value::String(s) => match item {
                Value::String(sub) => Outcome::Done(
                    Value::Bool(str_contains(s.as_str(), sub.as_str())),
                ),
                _ => fail2("Cannot check if ", self, " contains ", item),
            },
            Value::List(list) => {
                if self.holds_float() || item.holds_float() {
                    return Outcome::Float;
                }
                let ghost l = self@->List_0;
                let mut i: usize = 0;
                while i < list.len()
                    invariant
                        i <= list@.len(),
                        self is List && self->List_0 == *list,
                        l == self@->List_0,
                        !has_float(self@) && !has_float(item@),
                        forall|j: int| 0 <= j < i ==> !same(#[trigger] l[j], item@),
                    decreases list.len() - i,
                {
                    assert(l[i as int] == list@[i as int]@);
                    if same_values(&list[i], item) {
                        assert(same(l[i as int], item@));
                        return Outcome::Done(Value::Bool(true));
                    }
                    i = i + 1;
                }
                Outcome::Done(Value::Bool(false))
            },
            Value::Dict(dict) => match item {
                Value::String(key) => Outcome::Done(Value::Bool(find_key(dict, key).is_some())),
                _ => Outcome::Fail(String::from_str("Dict keys must be strings")),
            },
            _ => fail1("Cannot check membership in ", self),
        }
    }

    /// Display form of a value without floats.
    pub fn display(&self) -> (r: String)
        requires
            !has_float(self@),
        ensures
            r@ == show(self@),
        decreases self,
    {
        match self {
            Value::Nil => String::from_str("kosong"),
            Value::Bool(b) => if *b {
                String::from_str("benar")
            } else {
                String::from_str("salah")
            },
            Value::Int(i) => int_text(*i),
            Value::Float(_) => String::new(),
            Value::String(s) => s.clone(),
            Value::List(l) => {
                let ghost m = self@->List_0;
                let mut parts: Vec<String> = Vec::new();
                let mut i: usize = 0;
                while i < l.len()
                    invariant
                        i <= l@.len(),
                        parts@.len() == i,
                        self is List && self->List_0 == *l,
                        m == self@->List_0,
                        !has_float(self@),
                        forall|j: int| 0 <= j < i ==> parts@[j]@ == show(m[j]),
                    decreases l.len() - i,
                {
                    proof {
                        assert(decreases_to!(*self => self->List_0));
                        assert(decreases_to!(*l => l[i as int]));
                        assert(m[i as int] == l@[i as int]@);
                    }
                    parts.push(l[i].display());
                    i = i + 1;
                }
                let body = render_parts(&parts);
                assert(texts_view(parts@) =~= show_items(m));
                let r = join3("[", body.as_str(), "]");
                assert(r@ == show(self@));
                r
            },
            Value::Dict(d) => {
                let ghost m = self@->Dict_0;
                let mut parts: Vec<String> = Vec::new();
                let mut i: usize = 0;
                while i < d.len()
                    invariant
                        i <= d@.len(),
                        parts@.len() == i,
                        self is Dict && self->Dict_0 == *d,
                        m == self@->Dict_0,
                        !has_float(self@),
                        forall|j: int|
                            0 <= j < i ==> parts@[j]@ == "\""@ + m[j].0 + "\": "@ + show(m[j].1),
                    decreases d.len() - i,
                {
                    proof {
                        assert(decreases_to!(*self => self->Dict_0));
                        assert(decreases_to!(*d => d[i as int]));
                        assert(decreases_to!(d[i as int] => d[i as int].1));
                        assert(m[i as int].1 == d@[i as int].1@);
                    }
                    let shown = d[i].1.display();
                    parts.push(join4("\"", d[i].0.as_str(), "\": ", shown.as_str()));
                    i = i + 1;
                }
                let body = render_parts(&parts);
                assert(texts_view(parts@) =~= show_entries(m));
                let r = join3("{", body.as_str(), "}");
                assert(r@ == show(self@));
                r
            },
            Value::Function { name, .. } => {
                let r = join3("<fungsi ", name.as_str(), ">");
                assert(r@ == show(self@));
                r
            },
        }
    }
}

impl Value {
    /// Index assignment in place. On failure the value is left as it was.
    pub fn set_index(&mut self, index: &Value, value: Value) -> (r: Result<(), String>)
        ensures
            r is Err ==> r->Err_0@ == set_index_message(old(self)@, index@),
            r is Ok <==> set_index_spec(old(self)@, index@, value@) is Some,
            r is Ok ==> Some(final(self)@) == set_index_spec(old(self)@, index@, value@),
            r is Err ==> final(self)@ == old(self)@,
    {
        let ghost v = value@;
        match self {
            Value::List(list) => match index {
                Value::Int(i) => {
                    let ghost m = Value::List(*list)@->List_0;
                    let p: i128 = if *i < 0 {
                        list.len() as i128 + *i as i128
                    } else {
                        *i as i128
                    };
                    if 0 <= p && p < list.len() as i128 {
                        let ghost before = *list;
                        list.set(p as usize, value);
                        proof {
                            let t = m.update(p as int, v);
                            assert forall|j: int| 0 <= j < list@.len() implies list@[j]@ == t[j] by {
                                if j != p {
                                    assert(list@[j] == before@[j]);
                                    assert(m[j] == before@[j]@);
                                }
                            }
                            lemma_list_view(*list, t);
                        }
                        Ok(())
                    } else {
                        Err(join3("Index ", int_text(*i).as_str(), " out of range"))
                    }
                },
                _ => Err(prefixed("Cannot index list with ", index.type_tag())),
            },
            Value::Dict(dict) => match index {
                Value::String(key) => {
                    let ghost m = Value::Dict(*dict)@->Dict_0;
                    let ghost before = *dict;
                    match find_key(dict, key) {
                        Some(p) => {
                            dict.set(p, (key.clone(), value));
                            proof {
                                let t = m.update(p as int, (key@, v));
                                assert forall|j: int| 0 <= j < dict@.len() implies dict@[j].0@ == t[j].0
                                    && dict@[j].1@ == t[j].1 by {
                                    if j != p {
                                        assert(dict@[j] == before@[j]);
                                        assert(m[j] == (before@[j].0@, before@[j].1@));
                                    }
                                }
                                lemma_dict_view(*dict, t);
                            }
                        },
                        None => {
                            dict.push((key.clone(), value));
                            proof {
                                let t = m.push((key@, v));
                                assert forall|j: int| 0 <= j < dict@.len() implies dict@[j].0@ == t[j].0
                                    && dict@[j].1@ == t[j].1 by {
                                    if j < before@.len() {
                                        assert(dict@[j] == before@[j]);
                                        assert(m[j] == (before@[j].0@, before@[j].1@));
                                    }
                                }
                                lemma_dict_view(*dict, t);
                            }
                        },
                    }
                    Ok(())
                },
                _ => Err(prefixed("Cannot index dict with ", index.type_tag())),
            },
            _ => Err(prefixed("Cannot set index on ", self.type_tag())),
        }
    }
}
} // verus!

//! The syntax tree the compiler reads: a JSON document with object member lookup.
use vstd::prelude::*;
use crate::text::text_eq;

verus! {

broadcast use vstd::std_specs::vec::group_vec_axioms, vstd::seq::group_seq_axioms;

/// A parsed JSON document, as the compiler reads its abstract syntax tree. Numbers are kept
/// as a signed integer when they are one, otherwise as the bits of a double. Object entries
/// keep their order; lookups take the first entry with a given key.
pub enum Json {
    Null,
    Bool(bool),
    Int(i64),
    Float(u64),
    Str(String),
    Array(Vec<Json>),
    Object(Vec<(String, Json)>),
}

/// Position of the first entry with key `k`.
pub open spec fn entry_pos(entries: Seq<(String, Json)>, k: Seq<char>) -> Option<int> {
    if exists|j: int| 0 <= j < entries.len() && (#[trigger] entries[j]).0@ == k {
        Some(
            choose|j: int|
                0 <= j < entries.len() && (#[trigger] entries[j]).0@ == k && forall|m: int|
                    0 <= m < j ==> (#[trigger] entries[m]).0@ != k,
        )
    } else {
        None
    }
}

/// The member `k` of an object; `None` for a missing key or a node that is not an object.
/// The items of an array node.
pub open spec fn items_of(j: Json) -> Option<Seq<Json>> {
    match j {
        Json::Array(v) => Some(v@),
        _ => None,
    }
}

pub open spec fn member(j: Json, k: Seq<char>) -> Option<Json> {
    match j {
        Json::Object(e) => match entry_pos(e@, k) {
            Some(p) => if 0 <= p < e@.len() {
                Some(e@[p].1)
            } else {
                None
            },
            None => None,
        },
        _ => None,
    }
}

impl Json {
    pub fn get(&self, key: &str) -> (r: Option<&Json>)
        ensures
            r is Some <==> member(*self, key@) is Some,
            r is Some ==> *r->Some_0 == member(*self, key@)->Some_0,
            r is Some ==> decreases_to!(*self => *r->Some_0),
    {
        match self {
            Json::Object(entries) => {
                let mut i: usize = 0;
                while i < entries.len()
                    invariant
                        i <= entries@.len(),
                        self is Object && self->Object_0 == *entries,
                        forall|j: int| 0 <= j < i ==> (#[trigger] entries@[j]).0@ != key@,
                    decreases entries.len() - i,
                {
                    if text_eq(entries[i].0.as_str(), key) {
                        proof {
                            let e = entries@;
                            let q = choose|j: int|
                                0 <= j < e.len() && (#[trigger] e[j]).0@ == key@ && forall|m: int|
                                    0 <= m < j ==> (#[trigger] e[m]).0@ != key@;
                            assert(e[i as int].0@ == key@);
                            if q > i {
                                assert(e[i as int].0@ != key@);
                            }
                            assert(decreases_to!(*self => self->Object_0));
                            assert(decreases_to!(*entries => entries[i as int]));
                            assert(decreases_to!(entries[i as int] => entries[i as int].1));
                        }
                        return Some(&entries[i].1);
                    }
                    i = i + 1;
                }
                None
            },
            _ => None,
        }
    }

    pub fn as_str(&self) -> (r: Option<&String>)
        ensures
            r is Some <==> self is Str,
            r is Some ==> *r->Some_0 == self->Str_0,
    {
        match self {
            Json::Str(s) => Some(s),
            _ => None,
        }
    }

    pub fn as_array(&self) -> (r: Option<&Vec<Json>>)
        ensures
            r is Some <==> self is Array,
            r is Some ==> *r->Some_0 == self->Array_0,
            r is Some ==> forall|i: int|
                0 <= i < r->Some_0@.len() ==> decreases_to!(*self => #[trigger] r->Some_0@[i]),
    {
        match self {
            Json::Array(a) => {
                proof {
                    assert forall|i: int| 0 <= i < a@.len() implies decreases_to!(*self => #[trigger] a@[i]) by {
                        assert(decreases_to!(*self => self->Array_0));
                        assert(decreases_to!(*a => a[i]));
                    }
                }
                Some(a)
            },
            _ => None,
        }
    }

    pub fn as_bool(&self) -> (r: Option<bool>)
        ensures
            r is Some <==> self is Bool,
            r is Some ==> r->Some_0 == self->Bool_0,
    {
        match self {
            Json::Bool(b) => Some(*b),
            _ => None,
        }
    }
}

} // verus!

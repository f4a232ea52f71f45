//! JSON values, their mathematical model and deep equality.

use vstd::prelude::*;
use crate::assoc::{distinct_keys, find, first_at, holds_key, lemma_first_exists, lemma_slot, slot};

verus! {

/// A JSON number: an integer, or a binary64 float by its bit pattern. An
/// integer and a float are never equal, whatever they hold.
#[derive(Debug)]
pub enum Num {
    Int(i128),
    Float(u64),
}

/// A JSON value. An object is a list of members in the order they are held.
#[derive(Debug)]
pub enum Json {
    Null,
    Bool(bool),
    Number(Num),
    String(String),
    Array(Vec<Json>),
    Object(Vec<(String, Json)>),
}

/// What a JSON value stands for: an object is a finite mapping from keys to
/// values, so two values with the same model are deep-equal, whatever the order
/// in which their members are held.
pub enum JsonValue {
    Null,
    Bool(bool),
    Int(int),
    /// A float by its bit pattern, negative zero written as zero.
    Float(u64),
    String(Seq<char>),
    Array(Seq<JsonValue>),
    Object(Map<Seq<char>, JsonValue>),
}

/// The bit pattern of negative zero is read as that of zero, the only two
/// patterns of finite floats that compare equal without being the same.
pub open spec fn plain_zero(bits: u64) -> u64 {
    if bits == 0x8000_0000_0000_0000u64 {
        0u64
    } else {
        bits
    }
}

/// What a number stands for.
pub open spec fn number_model(n: Num) -> JsonValue {
    match n {
        Num::Int(i) => JsonValue::Int(i as int),
        Num::Float(b) => JsonValue::Float(plain_zero(b)),
    }
}

/// What the items of an array stand for, in their order.
pub open spec fn items_model(s: Seq<Json>) -> Seq<JsonValue>
    decreases s,
{
    Seq::new(
        s.len(),
        |i: int|
            if 0 <= i < s.len() {
                json_model(s[i])
            } else {
                JsonValue::Null
            },
    )
}

/// What the members of an object stand for: each key that some member
/// carries, with the value of the first member that carries it.
pub open spec fn members_model(s: Seq<(String, Json)>) -> Map<Seq<char>, JsonValue>
    decreases s,
{
    Map::new(
        |k: Seq<char>| holds_key(s, k),
        |k: Seq<char>|
            {
                let i = slot(s, k);
                if 0 <= i < s.len() {
                    json_model(s[i].1)
                } else {
                    JsonValue::Null
                }
            },
    )
}

/// What a JSON value stands for.
pub open spec fn json_model(j: Json) -> JsonValue
    decreases j,
{
    match j {
        Json::Null => JsonValue::Null,
        Json::Bool(b) => JsonValue::Bool(b),
        Json::Number(n) => number_model(n),
        Json::String(s) => JsonValue::String(s@),
        Json::Array(a) => JsonValue::Array(items_model(a@)),
        Json::Object(o) => JsonValue::Object(members_model(o@)),
    }
}

impl View for Json {
    type V = JsonValue;

    open spec fn view(&self) -> JsonValue {
        json_model(*self)
    }
}

impl Json {
    /// No object, at any depth, holds a key twice.
    pub open spec fn wf(self) -> bool
        decreases self,
    {
        match self {
            Json::Array(a) => forall|i: int| 0 <= i < a@.len() ==> (#[trigger] a@[i]).wf(),
            Json::Object(o) => distinct_keys(o@) && forall|i: int|
                0 <= i < o@.len() ==> (#[trigger] o@[i]).1.wf(),
            _ => true,
        }
    }
}

/// The model of a member list at a key is the model of the first member that
/// carries the key.
pub proof fn lemma_member(s: Seq<(String, Json)>, k: Seq<char>, i: int)
    requires
        first_at(s, k, i),
    ensures
        members_model(s).contains_key(k),
        members_model(s)[k] == s[i].1@,
{
    lemma_slot(s, k, i);
}

/// Equality of numbers: integers by value, floats by value with the two
/// zeros equal.
fn same_number(x: &Num, y: &Num) -> (r: bool)
    ensures
        r == (number_model(*x) == number_model(*y)),
{
    match (x, y) {
        (Num::Int(a), Num::Int(b)) => *a == *b,
        (Num::Float(a), Num::Float(b)) => {
            let p: u64 = if *a == 0x8000_0000_0000_0000u64 { 0u64 } else { *a };
            let q: u64 = if *b == 0x8000_0000_0000_0000u64 { 0u64 } else { *b };
            p == q
        },
        _ => false,
    }
}

/// Equality of arrays: the same length, and equal items at each place.
fn same_items(x: &Vec<Json>, y: &Vec<Json>) -> (r: bool)
    ensures
        r == (items_model(x@) == items_model(y@)),
    decreases *x,
{
    if x.len() != y.len() {
        assert(items_model(x@).len() != items_model(y@).len());
        return false;
    }
    let mut i: usize = 0;
    while i < x.len()
        invariant
            i <= x.len(),
            x.len() == y.len(),
            forall|t: int| 0 <= t < i ==> (#[trigger] x@[t])@ == y@[t]@,
        decreases x.len() - i,
    {
        if !same_json(&x[i], &y[i]) {
            assert(items_model(x@)[i as int] != items_model(y@)[i as int]);
            return false;
        }
        i += 1;
    }
    assert(items_model(x@) =~= items_model(y@));
    true
}

/// Equality of objects: the same keys, and equal values under each.
fn same_members(x: &Vec<(String, Json)>, y: &Vec<(String, Json)>) -> (r: bool)
    ensures
        r == (members_model(x@) == members_model(y@)),
    decreases *x,
{
    let mut i: usize = 0;
    while i < x.len()
        invariant
            i <= x.len(),
            forall|t: int|
                0 <= t < i ==> holds_key(y@, (#[trigger] x@[t]).0@) && members_model(x@)[x@[t].0@]
                    == members_model(y@)[x@[t].0@],
        decreases x.len() - i,
    {
        let ghost k = x@[i as int].0@;
        match (find(x, &x[i].0), find(y, &x[i].0)) {
            (Some(f), Some(j)) => {
                proof {
                    lemma_member(x@, k, f as int);
                    lemma_member(y@, k, j as int);
                }
                if !same_json(&x[f].1, &y[j].1) {
                    return false;
                }
            },
            (_, None) => {
                proof {
                    assert(holds_key(x@, k));
                    assert(members_model(x@).contains_key(k));
                    assert(!members_model(y@).contains_key(k));
                }
                return false;
            },
            (None, _) => {
                proof {
                    assert(holds_key(x@, k));
                    assert(false);
                }
                return false;
            },
        }
        i += 1;
    }
    let mut j: usize = 0;
    while j < y.len()
        invariant
            j <= y.len(),
            forall|t: int| 0 <= t < j ==> holds_key(x@, (#[trigger] y@[t]).0@),
        decreases y.len() - j,
    {
        if find(x, &y[j].0).is_none() {
            proof {
                let k = y@[j as int].0@;
                assert(holds_key(y@, k));
                assert(members_model(y@).contains_key(k));
                assert(!members_model(x@).contains_key(k));
            }
            return false;
        }
        j += 1;
    }
    assert(members_model(x@) =~= members_model(y@)) by {
        assert forall|k: Seq<char>| holds_key(x@, k) implies holds_key(y@, k) by {
            let t = choose|t: int| 0 <= t < x@.len() && (#[trigger] x@[t]).0@ == k;
            assert(holds_key(y@, x@[t].0@));
        }
        assert forall|k: Seq<char>| holds_key(y@, k) implies holds_key(x@, k) by {
            let t = choose|t: int| 0 <= t < y@.len() && (#[trigger] y@[t]).0@ == k;
            assert(holds_key(x@, y@[t].0@));
        }
        assert forall|k: Seq<char>| holds_key(x@, k) implies members_model(x@)[k]
            == members_model(y@)[k] by {
            let t = choose|t: int| 0 <= t < x@.len() && (#[trigger] x@[t]).0@ == k;
            assert(members_model(x@)[x@[t].0@] == members_model(y@)[x@[t].0@]);
        }
    }
    true
}

/// Deep equality: objects are equal when they map the same keys to equal
/// values, in whatever order; arrays when they hold equal values in the same
/// order; numbers, strings, booleans and null when they are the same.
pub fn same_json(a: &Json, b: &Json) -> (r: bool)
    ensures
        r == (a@ == b@),
    decreases *a,
{
    match (a, b) {
        (Json::Null, Json::Null) => true,
        (Json::Bool(x), Json::Bool(y)) => *x == *y,
        (Json::Number(x), Json::Number(y)) => same_number(x, y),
        (Json::String(x), Json::String(y)) => *x == *y,
        (Json::Array(x), Json::Array(y)) => same_items(x, y),
        (Json::Object(x), Json::Object(y)) => same_members(x, y),
        _ => false,
    }
}

/// Two member lists that carry the same keys in the same order, with values of
/// the same model, stand for the same mapping.
pub proof fn lemma_members_congruent(x: Seq<(String, Json)>, y: Seq<(String, Json)>)
    requires
        x.len() == y.len(),
        forall|t: int| 0 <= t < x.len() ==> (#[trigger] x[t]).0@ == y[t].0@ && x[t].1@ == y[t].1@,
    ensures
        members_model(x) == members_model(y),
        distinct_keys(x) ==> distinct_keys(y),
{
    assert forall|k: Seq<char>| holds_key(x, k) implies holds_key(y, k) && members_model(x)[k]
        == members_model(y)[k] by {
        lemma_first_exists(x, k);
        let i = slot(x, k);
        assert forall|j: int| 0 <= j < i implies (#[trigger] y[j]).0@ != k by {
            assert(x[j].0@ != k);
        }
        assert(x[i].0@ == y[i].0@);
        lemma_slot(y, k, i);
    }
    assert forall|k: Seq<char>| holds_key(y, k) implies holds_key(x, k) by {
        let t = choose|t: int| 0 <= t < y.len() && (#[trigger] y[t]).0@ == k;
        assert(x[t].0@ == k);
    }
    assert(members_model(x) =~= members_model(y));
    if distinct_keys(x) {
        assert forall|i: int, j: int| 0 <= i < j < y.len() implies (#[trigger] y[i]).0@ != (
        #[trigger] y[j]).0@ by {
            assert(x[i].0@ != x[j].0@);
        }
    }
}

/// A deep copy of the items of an array.
fn copy_items(x: &Vec<Json>) -> (r: Vec<Json>)
    ensures
        r@.len() == x@.len(),
        forall|t: int| 0 <= t < x@.len() ==> (#[trigger] r@[t])@ == x@[t]@,
        forall|t: int| 0 <= t < x@.len() && x@[t].wf() ==> (#[trigger] r@[t]).wf(),
    decreases *x,
{
    let mut out: Vec<Json> = Vec::new();
    let mut i: usize = 0;
    while i < x.len()
        invariant
            i <= x.len(),
            out@.len() == i,
            forall|t: int| 0 <= t < i ==> (#[trigger] out@[t])@ == x@[t]@,
            forall|t: int| 0 <= t < i && x@[t].wf() ==> (#[trigger] out@[t]).wf(),
        decreases x.len() - i,
    {
        let c = x[i].clone();
        out.push(c);
        i += 1;
    }
    out
}

/// A deep copy of the members of an object, in their order.
fn copy_members(x: &Vec<(String, Json)>) -> (r: Vec<(String, Json)>)
    ensures
        r@.len() == x@.len(),
        forall|t: int|
            0 <= t < x@.len() ==> (#[trigger] r@[t]).0@ == x@[t].0@ && r@[t].1@ == x@[t].1@,
        forall|t: int| 0 <= t < x@.len() && x@[t].1.wf() ==> (#[trigger] r@[t]).1.wf(),
    decreases *x,
{
    let mut out: Vec<(String, Json)> = Vec::new();
    let mut i: usize = 0;
    while i < x.len()
        invariant
            i <= x.len(),
            out@.len() == i,
            forall|t: int|
                0 <= t < i ==> (#[trigger] out@[t]).0@ == x@[t].0@ && out@[t].1@ == x@[t].1@,
            forall|t: int| 0 <= t < i && x@[t].1.wf() ==> (#[trigger] out@[t]).1.wf(),
        decreases x.len() - i,
    {
        let k = x[i].0.clone();
        let c = x[i].1.clone();
        out.push((k, c));
        i += 1;
    }
    out
}

impl Clone for Json {
    /// A deep copy: it stands for the same value, and is well formed where
    /// `self` is.
    fn clone(&self) -> (r: Json)
        ensures
            r@ == self@,
            self.wf() ==> r.wf(),
        decreases self,
    {
        match self {
            Json::Null => Json::Null,
            Json::Bool(b) => Json::Bool(*b),
            Json::Number(Num::Int(i)) => Json::Number(Num::Int(*i)),
            Json::Number(Num::Float(b)) => Json::Number(Num::Float(*b)),
            Json::String(s) => Json::String(s.clone()),
            Json::Array(a) => {
                let out = copy_items(a);
                assert(items_model(out@) =~= items_model(a@));
                Json::Array(out)
            },
            Json::Object(o) => {
                let out = copy_members(o);
                proof {
                    lemma_members_congruent(o@, out@);
                }
                Json::Object(out)
            },
        }
    }
}

impl PartialEq for Json {
    /// Deep equality, as `same_json` computes it.
    fn eq(&self, other: &Json) -> (r: bool) {
        same_json(self, other)
    }
}

impl vstd::std_specs::cmp::PartialEqSpecImpl for Json {
    open spec fn obeys_eq_spec() -> bool {
        true
    }

    open spec fn eq_spec(&self, other: &Json) -> bool {
        self@ == other@
    }
}

} // verus!

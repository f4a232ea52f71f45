//! Lists of entries keyed by text.
//!
//! A JSON object and a branch of a diff tree are both kept as a list of
//! `(key, value)` entries. As a mapping, such a list gives each key the value of
//! the first entry that carries it; a list in which no key occurs twice is the
//! well-formed case, and there every entry counts.

use vstd::prelude::*;

verus! {

/// Some entry of `s` carries the key `k`.
pub open spec fn holds_key<V>(s: Seq<(String, V)>, k: Seq<char>) -> bool {
    exists|i: int| 0 <= i < s.len() && (#[trigger] s[i]).0@ == k
}

/// Entry `i` of `s` is the first one that carries the key `k`.
pub open spec fn first_at<V>(s: Seq<(String, V)>, k: Seq<char>, i: int) -> bool {
    &&& 0 <= i < s.len()
    &&& s[i].0@ == k
    &&& forall|j: int| 0 <= j < i ==> (#[trigger] s[j]).0@ != k
}

/// The index of the first entry of `s` that carries `k`, if there is one.
pub open spec fn slot<V>(s: Seq<(String, V)>, k: Seq<char>) -> int {
    choose|i: int| first_at(s, k, i)
}

/// No key occurs in two entries of `s`.
pub open spec fn distinct_keys<V>(s: Seq<(String, V)>) -> bool {
    forall|i: int, j: int|
        0 <= i < j < s.len() ==> (#[trigger] s[i]).0@ != (#[trigger] s[j]).0@
}

/// The set of keys carried by the first `n` entries of `s`.
pub open spec fn keys_before<V>(s: Seq<(String, V)>, n: int) -> Set<Seq<char>> {
    Set::new(|k: Seq<char>| exists|i: int| 0 <= i < n && i < s.len() && (#[trigger] s[i]).0@ == k)
}

/// The first entry that carries a key is the one `slot` names.
pub proof fn lemma_slot<V>(s: Seq<(String, V)>, k: Seq<char>, i: int)
    requires
        first_at(s, k, i),
    ensures
        slot(s, k) == i,
        holds_key(s, k),
{
    let c = slot(s, k);
    assert(first_at(s, k, c));
    if c < i {
        assert(s[c].0@ != k);
    }
    if i < c {
        assert(s[i].0@ != k);
    }
}

/// In a list without repeated keys every entry is the first to carry its key.
pub proof fn lemma_distinct_first<V>(s: Seq<(String, V)>, i: int)
    requires
        distinct_keys(s),
        0 <= i < s.len(),
    ensures
        first_at(s, s[i].0@, i),
        slot(s, s[i].0@) == i,
{
    assert forall|j: int| 0 <= j < i implies (#[trigger] s[j]).0@ != s[i].0@ by {}
    lemma_slot(s, s[i].0@, i);
}

/// A key that the list holds has a first entry.
pub proof fn lemma_first_exists<V>(s: Seq<(String, V)>, k: Seq<char>)
    requires
        holds_key(s, k),
    ensures
        first_at(s, k, slot(s, k)),
{
    let w = choose|i: int| 0 <= i < s.len() && (#[trigger] s[i]).0@ == k;
    lemma_first_upto(s, k, w);
}

/// Among the entries up to `w` that carry `k`, one comes first.
proof fn lemma_first_upto<V>(s: Seq<(String, V)>, k: Seq<char>, w: int)
    requires
        0 <= w < s.len(),
        s[w].0@ == k,
    ensures
        first_at(s, k, slot(s, k)),
    decreases w,
{
    if exists|j: int| 0 <= j < w && (#[trigger] s[j]).0@ == k {
        let j = choose|j: int| 0 <= j < w && (#[trigger] s[j]).0@ == k;
        lemma_first_upto(s, k, j);
    } else {
        assert(first_at(s, k, w));
    }
}

/// Appending an entry whose key is new keeps the keys distinct.
pub proof fn lemma_push_distinct<V>(s: Seq<(String, V)>, e: (String, V))
    requires
        distinct_keys(s),
        !holds_key(s, e.0@),
    ensures
        distinct_keys(s.push(e)),
{
    let t = s.push(e);
    assert forall|i: int, j: int| 0 <= i < j < t.len() implies (#[trigger] t[i]).0@ != (
    #[trigger] t[j]).0@ by {
        if j == s.len() {
            assert(t[i] == s[i]);
        } else {
            assert(t[i] == s[i]);
            assert(t[j] == s[j]);
        }
    }
}

/// Looks a key up by a scan from the front.
///
/// Returns the index of the first entry that carries `key`, and `None` when no
/// entry does.
pub fn find<V>(entries: &Vec<(String, V)>, key: &String) -> (r: Option<usize>)
    ensures
        match r {
            Some(i) => first_at(entries@, key@, i as int),
            None => !holds_key(entries@, key@),
        },
{
    let mut i: usize = 0;
    while i < entries.len()
        invariant
            i <= entries.len(),
            forall|j: int| 0 <= j < i ==> (#[trigger] entries@[j]).0@ != key@,
        decreases entries.len() - i,
    {
        if entries[i].0 == *key {
            return Some(i);
        }
        i += 1;
    }
    None
}

} // verus!

//! The tree comparator.
//!
//! [`diff`] says, over the models, what comparing two JSON values finds;
//! [`match_json`] computes it.

use vstd::prelude::*;
use crate::assoc::{distinct_keys, find, holds_key, keys_before, lemma_distinct_first};
use crate::json::{lemma_member, members_model, same_json, Json, JsonValue};
use crate::key_node::{branches_model, key_paths, lemma_branch_push, reaches, KeyNode, KeyTree};
use crate::mismatch::{no_difference, Mismatch, MismatchValue};

verus! {

/// A mapping of children as a tree: `Nil` when it holds no key, a branch
/// otherwise.
pub open spec fn branch(m: Map<Seq<char>, KeyTree>) -> KeyTree {
    if exists|k: Seq<char>| m.contains_key(k) {
        KeyTree::Node(m)
    } else {
        KeyTree::Nil
    }
}

/// What comparing the two values under the key `k` of two objects finds;
/// nothing where one of them lacks the key.
pub open spec fn diff_at(a: JsonValue, b: JsonValue, k: Seq<char>) -> MismatchValue
    decreases a, 0nat,
{
    match (a, b) {
        (JsonValue::Object(l), JsonValue::Object(r)) => if l.contains_key(k) && r.contains_key(k) {
            diff(l[k], r[k])
        } else {
            no_difference()
        },
        _ => no_difference(),
    }
}

/// The children of the tree of keys that only the left object `a` has: each key
/// that `b` lacks, marked `Nil`, and each key of both under which the left
/// value has keys that the right one lacks.
pub open spec fn left_children(a: JsonValue, b: JsonValue) -> Map<Seq<char>, KeyTree>
    decreases a, 1nat,
{
    match (a, b) {
        (JsonValue::Object(l), JsonValue::Object(r)) => Map::new(
            |k: Seq<char>|
                l.contains_key(k) && (r.contains_key(k) ==> !(diff_at(a, b, k).left_only_keys
                    is Nil)),
            |k: Seq<char>| diff_at(a, b, k).left_only_keys,
        ),
        _ => Map::empty(),
    }
}

/// The children of the tree of keys that only the right object `b` has.
pub open spec fn right_children(a: JsonValue, b: JsonValue) -> Map<Seq<char>, KeyTree>
    decreases a, 1nat,
{
    match (a, b) {
        (JsonValue::Object(l), JsonValue::Object(r)) => Map::new(
            |k: Seq<char>|
                r.contains_key(k) && (l.contains_key(k) ==> !(diff_at(a, b, k).right_only_keys
                    is Nil)),
            |k: Seq<char>| diff_at(a, b, k).right_only_keys,
        ),
        _ => Map::empty(),
    }
}

/// The children of the tree of differing values: each key of both objects
/// under which something differs.
pub open spec fn both_children(a: JsonValue, b: JsonValue) -> Map<Seq<char>, KeyTree>
    decreases a, 1nat,
{
    match (a, b) {
        (JsonValue::Object(l), JsonValue::Object(r)) => Map::new(
            |k: Seq<char>|
                l.contains_key(k) && r.contains_key(k) && !(diff_at(a, b, k).keys_in_both is Nil),
            |k: Seq<char>| diff_at(a, b, k).keys_in_both,
        ),
        _ => Map::empty(),
    }
}

/// What comparing `a` with `b` finds.
///
/// Two objects are compared key by key. Any other pair is compared as a
/// whole: it differs, with both values reported, unless the two are deep-equal.
pub open spec fn diff(a: JsonValue, b: JsonValue) -> MismatchValue
    decreases a, 2nat,
{
    match (a, b) {
        (JsonValue::Object(_), JsonValue::Object(_)) => MismatchValue {
            left_only_keys: branch(left_children(a, b)),
            right_only_keys: branch(right_children(a, b)),
            keys_in_both: branch(both_children(a, b)),
            date_differ: None,
        },
        _ => MismatchValue {
            left_only_keys: KeyTree::Nil,
            right_only_keys: KeyTree::Nil,
            keys_in_both: if a == b {
                KeyTree::Nil
            } else {
                KeyTree::Value(a, b)
            },
            date_differ: None,
        },
    }
}

/// The tree with the two values of every leaf exchanged.
pub open spec fn mirror(t: KeyTree) -> KeyTree
    decreases t,
{
    match t {
        KeyTree::Nil => KeyTree::Nil,
        KeyTree::Value(x, y) => KeyTree::Value(y, x),
        KeyTree::Node(m) => KeyTree::Node(
            Map::new(
                |k: Seq<char>| m.contains_key(k),
                |k: Seq<char>|
                    if m.contains_key(k) {
                        mirror(m[k])
                    } else {
                        KeyTree::Nil
                    },
            ),
        ),
    }
}

/// Two values that are deep-equal do not differ: comparing them finds nothing,
/// in any of the three trees.
pub proof fn equal_values_do_not_differ(a: JsonValue, b: JsonValue)
    requires
        a == b,
    ensures
        diff(a, b) == no_difference(),
    decreases a,
{
    match a {
        JsonValue::Object(l) => {
            assert forall|k: Seq<char>| l.contains_key(k) implies diff_at(a, b, k)
                == no_difference() by {
                equal_values_do_not_differ(l[k], l[k]);
            }
            assert(left_children(a, b) =~= Map::empty());
            assert(right_children(a, b) =~= Map::empty());
            assert(both_children(a, b) =~= Map::empty());
        },
        _ => {},
    }
}

/// Exchanging the two sides exchanges the tree of keys that only the left has
/// with the tree of keys that only the right has, and turns the tree of
/// differing values into its mirror: the same key paths, with the two values
/// of each leaf exchanged.
pub proof fn swapping_sides_swaps_findings(a: JsonValue, b: JsonValue)
    ensures
        diff(b, a).left_only_keys == diff(a, b).right_only_keys,
        diff(b, a).right_only_keys == diff(a, b).left_only_keys,
        diff(b, a).keys_in_both == mirror(diff(a, b).keys_in_both),
        key_paths(diff(b, a).keys_in_both) == key_paths(diff(a, b).keys_in_both),
        diff(b, a).date_differ == diff(a, b).date_differ,
    decreases a,
{
    mirror_keeps_key_paths(diff(a, b).keys_in_both);
    match (a, b) {
        (JsonValue::Object(l), JsonValue::Object(r)) => {
            assert forall|k: Seq<char>| l.contains_key(k) && r.contains_key(k) implies {
                &&& diff_at(b, a, k).left_only_keys == diff_at(a, b, k).right_only_keys
                &&& diff_at(b, a, k).right_only_keys == diff_at(a, b, k).left_only_keys
                &&& diff_at(b, a, k).keys_in_both == mirror(diff_at(a, b, k).keys_in_both)
            } by {
                swapping_sides_swaps_findings(l[k], r[k]);
            }
            assert(left_children(b, a) =~= right_children(a, b));
            assert(right_children(b, a) =~= left_children(a, b));
            let m = both_children(a, b);
            let mm = Map::new(
                |k: Seq<char>| m.contains_key(k),
                |k: Seq<char>|
                    if m.contains_key(k) {
                        mirror(m[k])
                    } else {
                        KeyTree::Nil
                    },
            );
            assert(both_children(b, a) =~= mm);
            if exists|k: Seq<char>| m.contains_key(k) {
                let k = choose|k: Seq<char>| m.contains_key(k);
                assert(mm.contains_key(k));
                assert(mirror(KeyTree::Node(m))->Node_0 =~= mm);
            } else {
                assert forall|k: Seq<char>| !mm.contains_key(k) by {}
            }
            assert(branch(mm) == mirror(branch(m)));
        },
        _ => {},
    }
}

/// A tree and its mirror have the same key paths.
pub proof fn mirror_keeps_key_paths(t: KeyTree)
    ensures
        key_paths(mirror(t)) == key_paths(t),
{
    assert forall|path: Seq<Seq<char>>| reaches(mirror(t), path) == reaches(t, path) by {
        lemma_mirror_reaches(t, path);
    }
    assert(key_paths(mirror(t)) =~= key_paths(t));
}

/// A key path ends in a tree exactly when it ends in the mirror of the tree.
proof fn lemma_mirror_reaches(t: KeyTree, path: Seq<Seq<char>>)
    ensures
        reaches(mirror(t), path) == reaches(t, path),
    decreases path.len(),
{
    match t {
        KeyTree::Node(m) => {
            if path.len() > 0 && m.contains_key(path[0]) {
                lemma_mirror_reaches(m[path[0]], path.drop_first());
            }
        },
        _ => {},
    }
}

/// A tree made of children without empty branches has none itself.
proof fn lemma_branch_populated(m: Map<Seq<char>, KeyTree>)
    requires
        forall|k: Seq<char>| m.contains_key(k) ==> (#[trigger] m[k]).populated(),
    ensures
        branch(m).populated(),
{
    if exists|k: Seq<char>| m.contains_key(k) {
        let t = KeyTree::Node(m);
        assert(t->Node_0 == m);
        assert(t.populated());
    } else {
        assert(branch(m) is Nil);
    }
}

/// No comparison yields an empty branch: in each of the three trees every
/// branch, at any depth, holds at least one key.
pub proof fn diff_has_no_empty_branch(a: JsonValue, b: JsonValue)
    ensures
        diff(a, b).populated(),
    decreases a,
{
    match (a, b) {
        (JsonValue::Object(l), JsonValue::Object(r)) => {
            assert forall|k: Seq<char>| diff_at(a, b, k).populated() by {
                if l.contains_key(k) && r.contains_key(k) {
                    diff_has_no_empty_branch(l[k], r[k]);
                }
            }
            let ml = left_children(a, b);
            let mr = right_children(a, b);
            let mb = both_children(a, b);
            assert forall|k: Seq<char>| ml.contains_key(k) implies (#[trigger] ml[k]).populated() by {
                assert(ml[k] == diff_at(a, b, k).left_only_keys);
                assert(diff_at(a, b, k).populated());
            }
            assert forall|k: Seq<char>| mr.contains_key(k) implies (#[trigger] mr[k]).populated() by {
                assert(mr[k] == diff_at(a, b, k).right_only_keys);
                assert(diff_at(a, b, k).populated());
            }
            assert forall|k: Seq<char>| mb.contains_key(k) implies (#[trigger] mb[k]).populated() by {
                assert(mb[k] == diff_at(a, b, k).keys_in_both);
                assert(diff_at(a, b, k).populated());
            }
            lemma_branch_populated(ml);
            lemma_branch_populated(mr);
            lemma_branch_populated(mb);
        },
        _ => {},
    }
}

/// A list of children as a tree: `Nil` when the list is empty.
fn wrap(entries: Vec<(String, KeyNode)>) -> (n: KeyNode)
    requires
        distinct_keys(entries@),
        forall|t: int| 0 <= t < entries@.len() ==> (#[trigger] entries@[t]).1.wf(),
    ensures
        n@ == branch(branches_model(entries@)),
        n.wf(),
{
    if entries.len() == 0 {
        KeyNode::Nil
    } else {
        proof {
            assert(holds_key(entries@, entries@[0].0@));
            assert(branches_model(entries@).contains_key(entries@[0].0@));
        }
        KeyNode::Node(entries)
    }
}

/// Files `child` under `key` unless it is `Nil`.
fn attach(entries: &mut Vec<(String, KeyNode)>, key: &String, child: KeyNode)
    requires
        distinct_keys(old(entries)@),
        forall|t: int| 0 <= t < old(entries)@.len() ==> (#[trigger] old(entries)@[t]).1.wf(),
        !holds_key(old(entries)@, key@),
        child.wf(),
    ensures
        distinct_keys(final(entries)@),
        forall|t: int| 0 <= t < final(entries)@.len() ==> (#[trigger] final(entries)@[t]).1.wf(),
        child@ is Nil ==> final(entries)@ == old(entries)@,
        !(child@ is Nil) ==> branches_model(final(entries)@) == branches_model(
            old(entries)@,
        ).insert(key@, child@),
{
    if !child.is_nil() {
        mark(entries, key, child);
    }
}

/// Files `child` under `key`.
fn mark(entries: &mut Vec<(String, KeyNode)>, key: &String, child: KeyNode)
    requires
        distinct_keys(old(entries)@),
        forall|t: int| 0 <= t < old(entries)@.len() ==> (#[trigger] old(entries)@[t]).1.wf(),
        !holds_key(old(entries)@, key@),
        child.wf(),
    ensures
        distinct_keys(final(entries)@),
        forall|t: int| 0 <= t < final(entries)@.len() ==> (#[trigger] final(entries)@[t]).1.wf(),
        branches_model(final(entries)@) == branches_model(old(entries)@).insert(key@, child@),
{
    let ghost before = entries@;
    let entry = (key.clone(), child);
    proof {
        lemma_branch_push(before, entry);
        crate::assoc::lemma_push_distinct(before, entry);
    }
    entries.push(entry);
    assert(entries@ == before.push(entry));
    assert forall|t: int| 0 <= t < entries@.len() implies (#[trigger] entries@[t]).1.wf() by {
        if t < before.len() {
            assert(entries@[t] == before[t]);
        }
    }
}

/// Compares the member lists of two objects.
fn match_members(a: &Vec<(String, Json)>, b: &Vec<(String, Json)>) -> (m: Mismatch)
    requires
        Json::Object(*a).wf(),
        Json::Object(*b).wf(),
    ensures
        m@ == diff(Json::Object(*a)@, Json::Object(*b)@),
        m.wf(),
    decreases *a,
{
    let ghost va = Json::Object(*a)@;
    let ghost vb = Json::Object(*b)@;
    let ghost l = members_model(a@);
    let ghost r = members_model(b@);
    let mut left: Vec<(String, KeyNode)> = Vec::new();
    let mut right: Vec<(String, KeyNode)> = Vec::new();
    let mut both: Vec<(String, KeyNode)> = Vec::new();
    let mut i: usize = 0;
    while i < a.len()
        invariant
            i <= a.len(),
            Json::Object(*a).wf(),
            Json::Object(*b).wf(),
            va == JsonValue::Object(l),
            vb == JsonValue::Object(r),
            l == members_model(a@),
            r == members_model(b@),
            distinct_keys(left@),
            distinct_keys(right@),
            distinct_keys(both@),
            forall|t: int| 0 <= t < left@.len() ==> (#[trigger] left@[t]).1.wf(),
            forall|t: int| 0 <= t < right@.len() ==> (#[trigger] right@[t]).1.wf(),
            forall|t: int| 0 <= t < both@.len() ==> (#[trigger] both@[t]).1.wf(),
            branches_model(left@) == left_children(va, vb).restrict(keys_before(a@, i as int)),
            branches_model(right@) == right_children(va, vb).restrict(keys_before(a@, i as int)),
            branches_model(both@) == both_children(va, vb).restrict(keys_before(a@, i as int)),
        decreases a.len() - i,
    {
        let ghost k = a@[i as int].0@;
        let ghost seen = keys_before(a@, i as int);
        let ghost next = keys_before(a@, i as int + 1);
        proof {
            lemma_distinct_first(a@, i as int);
            lemma_member(a@, k, i as int);
            assert(!seen.contains(k));
            assert(next =~= seen.insert(k));
            assert(a@[i as int].1.wf());
            assert(!branches_model(left@).contains_key(k));
            assert(!branches_model(right@).contains_key(k));
            assert(!branches_model(both@).contains_key(k));
            assert(!holds_key(left@, k) && !holds_key(right@, k) && !holds_key(both@, k));
        }
        match find(b, &a[i].0) {
            None => {
                assert(!r.contains_key(k));
                mark(&mut left, &a[i].0, KeyNode::Nil);
                proof {
                    assert(branches_model(left@) =~= left_children(va, vb).restrict(next));
                    assert(right_children(va, vb).restrict(seen) =~= right_children(
                        va,
                        vb,
                    ).restrict(next));
                    assert(both_children(va, vb).restrict(seen) =~= both_children(va, vb).restrict(
                        next,
                    ));
                }
            },
            Some(j) => {
                proof {
                    lemma_member(b@, k, j as int);
                    assert(b@[j as int].1.wf());
                }
                let sub = match_json(&a[i].1, &b[j].1);
                assert(sub@ == diff_at(va, vb, k));
                let Mismatch { left_only_keys: sl, right_only_keys: sr, keys_in_both: su, date_differ: _ } = sub;
                attach(&mut left, &a[i].0, sl);
                attach(&mut right, &a[i].0, sr);
                attach(&mut both, &a[i].0, su);
                proof {
                    assert(branches_model(left@) =~= left_children(va, vb).restrict(next));
                    assert(branches_model(right@) =~= right_children(va, vb).restrict(next));
                    assert(branches_model(both@) =~= both_children(va, vb).restrict(next));
                }
            },
        }
        i += 1;
    }
    let ghost all = keys_before(a@, a@.len() as int);
    proof {
        assert forall|k: Seq<char>| l.contains_key(k) implies all.contains(k) by {
            let t = choose|t: int| 0 <= t < a@.len() && (#[trigger] a@[t]).0@ == k;
            assert(a@[t].0@ == k);
        }
        assert(branches_model(left@) =~= left_children(va, vb));
        assert(branches_model(both@) =~= both_children(va, vb));
    }
    let mut j: usize = 0;
    while j < b.len()
        invariant
            j <= b.len(),
            Json::Object(*a).wf(),
            Json::Object(*b).wf(),
            va == JsonValue::Object(l),
            vb == JsonValue::Object(r),
            l == members_model(a@),
            r == members_model(b@),
            distinct_keys(right@),
            forall|t: int| 0 <= t < right@.len() ==> (#[trigger] right@[t]).1.wf(),
            branches_model(right@) == right_children(va, vb).restrict(
                l.dom().union(keys_before(b@, j as int)),
            ),
        decreases b.len() - j,
    {
        let ghost k = b@[j as int].0@;
        let ghost seen = l.dom().union(keys_before(b@, j as int));
        let ghost next = l.dom().union(keys_before(b@, j as int + 1));
        proof {
            lemma_distinct_first(b@, j as int);
            lemma_member(b@, k, j as int);
            assert(!keys_before(b@, j as int).contains(k));
            assert(next =~= seen.insert(k));
        }
        if find(a, &b[j].0).is_none() {
            assert(!l.contains_key(k));
            assert(!branches_model(right@).contains_key(k));
            assert(!holds_key(right@, k));
            mark(&mut right, &b[j].0, KeyNode::Nil);
            assert(branches_model(right@) =~= right_children(va, vb).restrict(next));
        } else {
            assert(l.contains_key(k));
            assert(seen =~= next);
        }
        j += 1;
    }
    proof {
        let whole = l.dom().union(keys_before(b@, b@.len() as int));
        assert forall|k: Seq<char>| r.contains_key(k) implies whole.contains(k) by {
            let t = choose|t: int| 0 <= t < b@.len() && (#[trigger] b@[t]).0@ == k;
            assert(b@[t].0@ == k);
        }
        assert(branches_model(right@) =~= right_children(va, vb));
    }
    Mismatch::new(wrap(left), wrap(right), wrap(both), None)
}

/// Compares two JSON values.
///
/// Two objects are compared key by key, and so are the objects found under a
/// key of both, to any depth. Any other pair of values is compared by deep
/// equality, and reported with both values where it differs.
pub fn match_json(value1: &Json, value2: &Json) -> (m: Mismatch)
    requires
        value1.wf(),
        value2.wf(),
    ensures
        m@ == diff(value1@, value2@),
        m@.populated(),
        m.wf(),
    decreases *value1,
{
    proof {
        diff_has_no_empty_branch(value1@, value2@);
    }
    match (value1, value2) {
        (Json::Object(a), Json::Object(b)) => match_members(a, b),
        _ => {
            if same_json(value1, value2) {
                Mismatch::none()
            } else {
                Mismatch::new(
                    KeyNode::Nil,
                    KeyNode::Nil,
                    KeyNode::Value(value1.clone(), value2.clone()),
                    None,
                )
            }
        },
    }
}

} // verus!

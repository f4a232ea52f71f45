//! The record of one comparison.

use vstd::prelude::*;
use crate::key_node::{same_node, KeyNode, KeyTree};

verus! {

/// What comparing two records found.
///
/// The three trees hold the keys that exist on the left only, the keys that
/// exist on the right only, and the keys that exist on both sides with values
/// that differ. `date_differ` is set when the two records do not carry the same
/// timestamp: to `true` when the left one is earlier, to `false` when the
/// right one is.
#[derive(Debug)]
pub struct Mismatch {
    pub left_only_keys: KeyNode,
    pub right_only_keys: KeyNode,
    pub keys_in_both: KeyNode,
    pub date_differ: Option<bool>,
}

/// What a `Mismatch` stands for.
pub struct MismatchValue {
    pub left_only_keys: KeyTree,
    pub right_only_keys: KeyTree,
    pub keys_in_both: KeyTree,
    pub date_differ: Option<bool>,
}

/// The finding that nothing differs.
pub open spec fn no_difference() -> MismatchValue {
    MismatchValue {
        left_only_keys: KeyTree::Nil,
        right_only_keys: KeyTree::Nil,
        keys_in_both: KeyTree::Nil,
        date_differ: None,
    }
}

/// The finding that the two records are not of the same instant.
pub open spec fn out_of_step(left_is_earlier: bool) -> MismatchValue {
    MismatchValue {
        left_only_keys: KeyTree::Nil,
        right_only_keys: KeyTree::Nil,
        keys_in_both: KeyTree::Nil,
        date_differ: Some(left_is_earlier),
    }
}

impl MismatchValue {
    /// None of the three trees has an empty branch.
    pub open spec fn populated(self) -> bool {
        &&& self.left_only_keys.populated()
        &&& self.right_only_keys.populated()
        &&& self.keys_in_both.populated()
    }
}

impl View for Mismatch {
    type V = MismatchValue;

    open spec fn view(&self) -> MismatchValue {
        MismatchValue {
            left_only_keys: self.left_only_keys@,
            right_only_keys: self.right_only_keys@,
            keys_in_both: self.keys_in_both@,
            date_differ: self.date_differ,
        }
    }
}

impl Mismatch {
    /// No branch of the three trees holds a key twice.
    pub open spec fn wf(self) -> bool {
        &&& self.left_only_keys.wf()
        &&& self.right_only_keys.wf()
        &&& self.keys_in_both.wf()
    }

    /// A finding with the three trees and the word on the timestamps as given.
    pub fn new(l: KeyNode, r: KeyNode, u: KeyNode, d: Option<bool>) -> (m: Mismatch)
        ensures
            m.left_only_keys == l,
            m.right_only_keys == r,
            m.keys_in_both == u,
            m.date_differ == d,
    {
        Mismatch { left_only_keys: l, right_only_keys: r, keys_in_both: u, date_differ: d }
    }

    /// The finding that nothing differs.
    pub fn none() -> (m: Mismatch)
        ensures
            m@ == no_difference(),
            m.wf(),
    {
        Mismatch::new(KeyNode::Nil, KeyNode::Nil, KeyNode::Nil, None)
    }

    /// Tells whether nothing was found: no tree holds anything and the
    /// timestamps did not differ.
    pub fn is_empty(&self) -> (r: bool)
        ensures
            r == (self@ == no_difference()),
    {
        self.left_only_keys.is_nil() && self.right_only_keys.is_nil()
            && self.keys_in_both.is_nil() && self.date_differ.is_none()
    }
}

/// Equality of findings: tree by tree, and the same word on the timestamps.
pub fn same_mismatch(a: &Mismatch, b: &Mismatch) -> (r: bool)
    ensures
        r == (a@ == b@),
{
    let dates = match (a.date_differ, b.date_differ) {
        (None, None) => true,
        (Some(x), Some(y)) => x == y,
        _ => false,
    };
    dates && same_node(&a.left_only_keys, &b.left_only_keys) && same_node(
        &a.right_only_keys,
        &b.right_only_keys,
    ) && same_node(&a.keys_in_both, &b.keys_in_both)
}

impl PartialEq for Mismatch {
    /// Equality of findings, as `same_mismatch` computes it.
    fn eq(&self, other: &Mismatch) -> (r: bool) {
        same_mismatch(self, other)
    }
}

impl vstd::std_specs::cmp::PartialEqSpecImpl for Mismatch {
    open spec fn obeys_eq_spec() -> bool {
        true
    }

    open spec fn eq_spec(&self, other: &Mismatch) -> bool {
        self@ == other@
    }
}

} // verus!

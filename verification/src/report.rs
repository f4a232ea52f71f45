//! What there is to show of a finding.

use vstd::prelude::*;
use crate::key_node::{node_paths, texts, KeyNode};
use crate::mismatch::Mismatch;

verus! {

/// What there is to show of one tree.
#[derive(Debug)]
pub enum Section {
    /// The tree is `Nil`: nothing to show.
    Absent,
    /// The tree is a single `Value`: the roots themselves differ.
    Root,
    /// The tree is a branch: its dotted key paths.
    Paths(Vec<String>),
}

/// What there is to show of a finding, tree by tree.
#[derive(Debug)]
pub struct Report {
    /// Keys of both sides whose values differ.
    pub mismatch: Section,
    /// Keys that only the left side has.
    pub left_extra: Section,
    /// Keys that only the right side has.
    pub right_extra: Section,
}

/// A tree of keys of one side only is a single `Value`, which no comparison
/// yields.
#[derive(Clone, Copy, Debug, PartialEq, Eq, Structural)]
pub enum ReportError {
    Unknown,
}

/// `section` shows `tree`: nothing for `Nil`, the root for a `Value`, and for a
/// branch its flattened paths, in their order.
pub open spec fn shows(section: Section, tree: KeyNode) -> bool {
    match tree {
        KeyNode::Nil => section is Absent,
        KeyNode::Value(_, _) => section is Root,
        KeyNode::Node(_) => section matches Section::Paths(keys) && texts(keys@) == node_paths(
            tree,
            None,
        ),
    }
}

/// What there is to show of one tree.
pub fn section_of(tree: &KeyNode) -> (s: Section)
    ensures
        shows(s, *tree),
{
    match tree {
        KeyNode::Nil => Section::Absent,
        KeyNode::Value(_, _) => Section::Root,
        KeyNode::Node(_) => {
            let mut keys: Vec<String> = Vec::new();
            tree.absolute_keys(&mut keys, None);
            assert(texts(keys@) =~= node_paths(*tree, None));
            Section::Paths(keys)
        },
    }
}

/// What there is to show of a finding.
///
/// Fails exactly when the tree of left-only keys or the tree of right-only
/// keys is a single `Value`. Otherwise each section shows its tree.
pub fn display_output(result: &Mismatch) -> (r: Result<Report, ReportError>)
    ensures
        match r {
            Ok(report) => {
                &&& !(result.left_only_keys is Value)
                &&& !(result.right_only_keys is Value)
                &&& shows(report.mismatch, result.keys_in_both)
                &&& shows(report.left_extra, result.left_only_keys)
                &&& shows(report.right_extra, result.right_only_keys)
            },
            Err(_) => result.left_only_keys is Value || result.right_only_keys is Value,
        },
{
    let mismatch = section_of(&result.keys_in_both);
    let left_extra = match section_of(&result.left_only_keys) {
        Section::Root => {
            return Err(ReportError::Unknown);
        },
        s => s,
    };
    let right_extra = match section_of(&result.right_only_keys) {
        Section::Root => {
            return Err(ReportError::Unknown);
        },
        s => s,
    };
    Ok(Report { mismatch, left_extra, right_extra })
}

} // verus!

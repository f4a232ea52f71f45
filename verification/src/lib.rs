//! Structural comparison of two streams of timestamped JSON records.
//!
//! Each record is one line of JSON with a `timestamp` member. Two records of
//! the same instant are compared key by key, to any depth; of two records of
//! different instants only the earlier one is reported, as an event that the
//! other stream lacks.
//!
//! - [`json`]: JSON values, their model and deep equality.
//! - [`key_node`]: the diff tree and its flattening into dotted key paths.
//! - [`mismatch`]: the record of one comparison.
//! - [`process`]: the tree comparator.
//! - [`parse`], [`timestamp`]: reading JSON text and RFC 3339 timestamps.
//! - [`align`]: comparing line with line, and stepping through two streams.
//! - [`report`]: what there is to show of a finding.
//! - [`mode`]: how the two sources are named on the command line.
//! - [`assoc`]: lists of entries keyed by text, on which the trees are built.

pub mod align;
pub mod assoc;
pub mod json;
pub mod key_node;
pub mod mismatch;
pub mod mode;
pub mod parse;
pub mod process;
pub mod report;
pub mod timestamp;

pub use align::{compare_jsons, Aligner, CompareError, Event, Side};
pub use json::{Json, Num};
pub use key_node::KeyNode;
pub use mismatch::Mismatch;
pub use process::match_json;
pub use report::{display_output, Report, ReportError, Section};

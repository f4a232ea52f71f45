//! Aligning two streams of records by their timestamps.
//!
//! [`compare_jsons`] compares one line of each stream. [`Aligner`] holds the
//! line of each stream that is waiting to be compared and decides, step by
//! step, which of them is consumed.

use vstd::prelude::*;
use crate::assoc::find;
use crate::json::{lemma_member, Json, JsonValue};
use crate::key_node::KeyNode;
use crate::mismatch::{no_difference, out_of_step, Mismatch, MismatchValue};
use crate::parse::{document_of, parse_record};
use crate::process::{diff, match_json};
use crate::timestamp::{instant_of, instants_are_totally_ordered, parse_instant, Instant};

verus! {

/// One of the two streams.
#[derive(Clone, Copy, Debug, PartialEq, Eq, Structural)]
pub enum Side {
    Left,
    Right,
}

/// Why two lines could not be compared.
#[derive(Clone, Copy, Debug, PartialEq, Eq, Structural)]
pub enum CompareError {
    /// The line of this side is not JSON.
    MalformedJson(Side),
    /// The record of this side has no `timestamp` member that is a string in
    /// RFC 3339 form.
    BadTimestamp(Side),
}

/// The text of the `timestamp` member of a record: present when the record is
/// an object that holds the key with a string under it.
pub open spec fn stamp_text(record: JsonValue) -> Option<Seq<char>> {
    match record {
        JsonValue::Object(m) => if m.contains_key("timestamp"@) {
            match m["timestamp"@] {
                JsonValue::String(s) => Some(s),
                _ => None,
            }
        } else {
            None
        },
        _ => None,
    }
}

/// The instant at which a record is stamped.
pub open spec fn stamp_of(record: JsonValue) -> Option<Instant> {
    match stamp_text(record) {
        Some(s) => instant_of(s),
        None => None,
    }
}

/// What comparing two records that are stamped `left_at` and `right_at`
/// finds: their differences when they are of the same instant, and else only
/// which of them is the earlier one.
pub open spec fn verdict(
    left: JsonValue,
    right: JsonValue,
    left_at: Instant,
    right_at: Instant,
) -> MismatchValue {
    if left_at == right_at {
        diff(left, right)
    } else {
        out_of_step(left_at.before(right_at))
    }
}

/// What comparing two lines comes to.
pub open spec fn comparison(a: Seq<char>, b: Seq<char>) -> Result<MismatchValue, CompareError> {
    match (document_of(a), document_of(b)) {
        (None, _) => Err(CompareError::MalformedJson(Side::Left)),
        (Some(_), None) => Err(CompareError::MalformedJson(Side::Right)),
        (Some(left), Some(right)) => match (stamp_of(left), stamp_of(right)) {
            (None, _) => Err(CompareError::BadTimestamp(Side::Left)),
            (Some(_), None) => Err(CompareError::BadTimestamp(Side::Right)),
            (Some(left_at), Some(right_at)) => Ok(verdict(left, right, left_at, right_at)),
        },
    }
}

/// The `timestamp` member of a record, where it is a string.
pub fn timestamp_field(record: &Json) -> (r: Option<&String>)
    ensures
        match r {
            Some(s) => stamp_text(record@) == Some(s@),
            None => stamp_text(record@) is None,
        },
{
    match record {
        Json::Object(members) => {
            let key = "timestamp".to_owned();
            match find(members, &key) {
                Some(i) => {
                    proof {
                        lemma_member(members@, key@, i as int);
                    }
                    match &members[i].1 {
                        Json::String(s) => Some(s),
                        _ => None,
                    }
                },
                None => None,
            }
        },
        _ => None,
    }
}

/// The instant at which a record is stamped: `None` when it has no
/// `timestamp` member that is a string, or when the string is no RFC 3339
/// timestamp.
pub fn read_timestamp(record: &Json) -> (r: Option<Instant>)
    ensures
        r == stamp_of(record@),
{
    match timestamp_field(record) {
        Some(s) => parse_instant(s.as_str()),
        None => None,
    }
}

/// Compares two records whose timestamps have been read.
///
/// Records of the same instant are compared key by key. Otherwise the trees
/// stay empty and `date_differ` says whether the left record is the earlier
/// one.
pub fn compare_records(left: &Json, right: &Json, left_at: Instant, right_at: Instant) -> (m:
    Mismatch)
    requires
        left.wf(),
        right.wf(),
    ensures
        m@ == verdict(left@, right@, left_at, right_at),
        m.date_differ is Some <==> left_at != right_at,
        m.date_differ matches Some(left_is_earlier) ==> m@ == out_of_step(left_is_earlier),
        m@.populated(),
        m.wf(),
{
    if left_at.seconds == right_at.seconds && left_at.nanos == right_at.nanos {
        match_json(left, right)
    } else {
        Mismatch::new(
            KeyNode::Nil,
            KeyNode::Nil,
            KeyNode::Nil,
            Some(left_at.is_before(&right_at)),
        )
    }
}

/// Compares one line of the left stream with one line of the right stream.
///
/// Both lines must be JSON, the left one is looked at first; both records must
/// carry a timestamp, again the left one first. The result is then the
/// `verdict` on the two records.
pub fn compare_jsons(a: &str, b: &str) -> (r: Result<Mismatch, CompareError>)
    ensures
        match r {
            Ok(m) => {
                &&& comparison(a@, b@) == Ok::<MismatchValue, CompareError>(m@)
                &&& m.date_differ matches Some(left_is_earlier) ==> m@ == out_of_step(
                    left_is_earlier,
                )
                &&& m@.populated()
                &&& m.wf()
            },
            Err(e) => comparison(a@, b@) == Err::<MismatchValue, CompareError>(e),
        },
{
    let left = match parse_record(a) {
        Some(j) => j,
        None => {
            return Err(CompareError::MalformedJson(Side::Left));
        },
    };
    let right = match parse_record(b) {
        Some(j) => j,
        None => {
            return Err(CompareError::MalformedJson(Side::Right));
        },
    };
    let left_at = match read_timestamp(&left) {
        Some(t) => t,
        None => {
            return Err(CompareError::BadTimestamp(Side::Left));
        },
    };
    let right_at = match read_timestamp(&right) {
        Some(t) => t,
        None => {
            return Err(CompareError::BadTimestamp(Side::Right));
        },
    };
    Ok(compare_records(&left, &right, left_at, right_at))
}

/// Whether a step on the waiting lines `left` and `right` consumes the left
/// one, and whether it consumes the right one.
///
/// Nothing is consumed while a line is missing or the two cannot be compared.
pub open spec fn consumed(left: Seq<char>, right: Seq<char>) -> (bool, bool) {
    if left.len() == 0 || right.len() == 0 {
        (false, false)
    } else {
        match comparison(left, right) {
            Ok(found) => match found.date_differ {
                Some(left_is_earlier) => (left_is_earlier, !left_is_earlier),
                None => (true, true),
            },
            Err(_) => (false, false),
        }
    }
}

/// A step advances the stream that is behind: of two lines with readable
/// timestamps it consumes the one that is strictly earlier and leaves the
/// other, and it consumes both when they are of the same instant.
pub proof fn step_consumes_the_earlier_line(left: Seq<char>, right: Seq<char>)
    requires
        left.len() > 0,
        right.len() > 0,
    ensures
        match (document_of(left), document_of(right)) {
            (Some(l), Some(r)) => match (stamp_of(l), stamp_of(r)) {
                (Some(left_at), Some(right_at)) => {
                    &&& left_at.before(right_at) ==> consumed(left, right) == (true, false)
                    &&& right_at.before(left_at) ==> consumed(left, right) == (false, true)
                    &&& left_at == right_at ==> consumed(left, right) == (true, true)
                },
                _ => consumed(left, right) == (false, false),
            },
            _ => consumed(left, right) == (false, false),
        },
{
    match (document_of(left), document_of(right)) {
        (Some(l), Some(r)) => match (stamp_of(l), stamp_of(r)) {
            (Some(left_at), Some(right_at)) => {
                instants_are_totally_ordered(left_at, right_at);
            },
            _ => {},
        },
        _ => {},
    }
}

/// What one step of the aligner found.
#[derive(Debug)]
pub enum Event {
    /// A stream has no line left: the run is over.
    End,
    /// The two lines could not be compared.
    Failed(CompareError),
    /// The left line is the earlier one: the right stream misses this event.
    Missing(String),
    /// The right line is the earlier one: the right stream has this event in
    /// addition.
    New(String),
    /// The two lines are of the same instant and differ.
    Modified { before: String, after: String, mismatch: Mismatch },
    /// The two lines are of the same instant and do not differ.
    Same,
}

/// The lines that wait to be compared, one of each stream at most. An empty
/// line stands for none.
#[derive(Debug)]
pub struct Aligner {
    pub left: String,
    pub right: String,
}

impl Aligner {
    /// An aligner with no line waiting.
    pub fn new() -> (a: Aligner)
        ensures
            a.left@.len() == 0,
            a.right@.len() == 0,
    {
        Aligner { left: String::new(), right: String::new() }
    }

    /// Tells whether the next line of the left stream is wanted.
    pub fn wants_left(&self) -> (r: bool)
        ensures
            r == (self.left@.len() == 0),
    {
        self.left.as_str().is_empty()
    }

    /// Tells whether the next line of the right stream is wanted.
    pub fn wants_right(&self) -> (r: bool)
        ensures
            r == (self.right@.len() == 0),
    {
        self.right.as_str().is_empty()
    }

    /// Compares the two waiting lines and consumes what the comparison
    /// settles.
    ///
    /// With a line missing on either side the run ends. Lines that cannot be
    /// compared stay where they are. Of two lines that are not of the same
    /// instant, only the earlier one is consumed; of two lines of the same
    /// instant, both are.
    pub fn step(&mut self) -> (e: Event)
        ensures
            final(self).left@ == if consumed(old(self).left@, old(self).right@).0 {
                Seq::<char>::empty()
            } else {
                old(self).left@
            },
            final(self).right@ == if consumed(old(self).left@, old(self).right@).1 {
                Seq::<char>::empty()
            } else {
                old(self).right@
            },
            match e {
                Event::End => {
                    &&& old(self).left@.len() == 0 || old(self).right@.len() == 0
                    &&& final(self).left@ == old(self).left@
                    &&& final(self).right@ == old(self).right@
                },
                Event::Failed(error) => {
                    &&& old(self).left@.len() > 0 && old(self).right@.len() > 0
                    &&& comparison(old(self).left@, old(self).right@) == Err::<
                        MismatchValue,
                        CompareError,
                    >(error)
                    &&& final(self).left@ == old(self).left@
                    &&& final(self).right@ == old(self).right@
                },
                Event::Missing(line) => {
                    &&& old(self).left@.len() > 0 && old(self).right@.len() > 0
                    &&& comparison(old(self).left@, old(self).right@) == Ok::<
                        MismatchValue,
                        CompareError,
                    >(out_of_step(true))
                    &&& line@ == old(self).left@
                    &&& final(self).left@.len() == 0
                    &&& final(self).right@ == old(self).right@
                },
                Event::New(line) => {
                    &&& old(self).left@.len() > 0 && old(self).right@.len() > 0
                    &&& comparison(old(self).left@, old(self).right@) == Ok::<
                        MismatchValue,
                        CompareError,
                    >(out_of_step(false))
                    &&& line@ == old(self).right@
                    &&& final(self).left@ == old(self).left@
                    &&& final(self).right@.len() == 0
                },
                Event::Modified { before, after, mismatch } => {
                    &&& old(self).left@.len() > 0 && old(self).right@.len() > 0
                    &&& comparison(old(self).left@, old(self).right@) == Ok::<
                        MismatchValue,
                        CompareError,
                    >(mismatch@)
                    &&& mismatch@.date_differ is None
                    &&& mismatch@ != no_difference()
                    &&& mismatch.wf()
                    &&& before@ == old(self).left@
                    &&& after@ == old(self).right@
                    &&& final(self).left@.len() == 0
                    &&& final(self).right@.len() == 0
                },
                Event::Same => {
                    &&& old(self).left@.len() > 0 && old(self).right@.len() > 0
                    &&& comparison(old(self).left@, old(self).right@) == Ok::<
                        MismatchValue,
                        CompareError,
                    >(no_difference())
                    &&& final(self).left@.len() == 0
                    &&& final(self).right@.len() == 0
                },
            },
    {
        if self.wants_left() || self.wants_right() {
            return Event::End;
        }
        let found = match compare_jsons(self.left.as_str(), self.right.as_str()) {
            Ok(m) => m,
            Err(error) => {
                return Event::Failed(error);
            },
        };
        match found.date_differ {
            Some(true) => {
                let mut line = String::new();
                std::mem::swap(&mut self.left, &mut line);
                assert(self.left@ =~= Seq::<char>::empty());
                Event::Missing(line)
            },
            Some(false) => {
                let mut line = String::new();
                std::mem::swap(&mut self.right, &mut line);
                assert(self.right@ =~= Seq::<char>::empty());
                Event::New(line)
            },
            None => {
                let mut before = String::new();
                let mut after = String::new();
                std::mem::swap(&mut self.left, &mut before);
                std::mem::swap(&mut self.right, &mut after);
                assert(self.left@ =~= Seq::<char>::empty());
                assert(self.right@ =~= Seq::<char>::empty());
                if found.is_empty() {
                    Event::Same
                } else {
                    Event::Modified { before, after, mismatch: found }
                }
            },
        }
    }
}

} // verus!

//! How the two sources are named on the command line.

use vstd::prelude::*;

verus! {

/// Where the two records come from.
#[derive(Clone, Copy, Debug, PartialEq, Eq, Structural)]
pub enum InputReadMode {
    /// The two arguments are the JSON documents themselves.
    D,
    /// The two arguments are paths of files.
    F,
}

/// The word is neither `d` nor `f`.
#[derive(Clone, Copy, Debug, PartialEq, Eq, Structural)]
pub struct BadOption;

/// The mode that a word selects.
pub open spec fn mode_of(word: Seq<char>) -> Option<InputReadMode> {
    if word == seq!['d'] {
        Some(InputReadMode::D)
    } else if word == seq!['f'] {
        Some(InputReadMode::F)
    } else {
        None
    }
}

/// Reads the mode: `d` selects `D`, `f` selects `F`, and any other word is
/// refused.
pub fn read_mode(s: &str) -> (r: Result<InputReadMode, BadOption>)
    ensures
        match r {
            Ok(mode) => mode_of(s@) == Some(mode),
            Err(_) => mode_of(s@) is None,
        },
{
    let word = s.to_owned();
    proof {
        reveal_strlit("d");
        reveal_strlit("f");
        assert("d"@ =~= seq!['d']);
        assert("f"@ =~= seq!['f']);
    }
    if word == "d".to_owned() {
        Ok(InputReadMode::D)
    } else if word == "f".to_owned() {
        Ok(InputReadMode::F)
    } else {
        Err(BadOption)
    }
}

} // verus!

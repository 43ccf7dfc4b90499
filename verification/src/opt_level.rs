//! Optimization levels accepted by the backend.

use crate::text::str_equal;
use vstd::prelude::*;

verus! {

/// How hard the code generator should try (`Off` is the level named "none").
/// The level never changes what a
/// program is lowered to, only how the backend compiles the result.
#[derive(Clone, Copy, Debug, PartialEq, Eq, Structural)]
pub enum OptLevel {
    Off,
    Speed,
    SpeedAndSize,
}

impl OptLevel {
    /// The name of the level as the backend's settings spell it.
    pub open spec fn name(self) -> Seq<char> {
        match self {
            OptLevel::Off => "none"@,
            OptLevel::Speed => "speed"@,
            OptLevel::SpeedAndSize => "speed_and_size"@,
        }
    }

    /// The level that a word names, if it names one.
    pub open spec fn named(word: Seq<char>) -> Option<OptLevel> {
        if word == "none"@ {
            Some(OptLevel::Off)
        } else if word == "speed"@ {
            Some(OptLevel::Speed)
        } else if word == "speed_and_size"@ {
            Some(OptLevel::SpeedAndSize)
        } else {
            None
        }
    }

    /// The text of the message that rejects `word`.
    pub open spec fn unknown_message(word: Seq<char>) -> Seq<char> {
        "unknown optimization level "@ + word
    }

    pub fn to_str(self) -> (r: &'static str)
        ensures
            r@ == self.name(),
    {
        match self {
            OptLevel::Off => "none",
            OptLevel::Speed => "speed",
            OptLevel::SpeedAndSize => "speed_and_size",
        }
    }

    /// Reads a level from its name; any other word is rejected with a message
    /// that quotes it.
    pub fn parse(s: &str) -> (r: Result<OptLevel, String>)
        ensures
            match r {
                Ok(level) => OptLevel::named(s@) == Some(level),
                Err(msg) => OptLevel::named(s@).is_none() && msg@ == OptLevel::unknown_message(s@),
            },
    {
        if str_equal(s, "none") {
            Ok(OptLevel::Off)
        } else if str_equal(s, "speed") {
            Ok(OptLevel::Speed)
        } else if str_equal(s, "speed_and_size") {
            Ok(OptLevel::SpeedAndSize)
        } else {
            Err(String::from_str("unknown optimization level ").concat(s))
        }
    }
}

impl core::str::FromStr for OptLevel {
    type Err = String;

    /// Reads a level from its name, as `parse` does.
    fn from_str(s: &str) -> (r: Result<OptLevel, String>)
        ensures
            match r {
                Ok(level) => OptLevel::named(s@) == Some(level),
                Err(msg) => OptLevel::named(s@).is_none() && msg@ == OptLevel::unknown_message(s@),
            },
    {
        OptLevel::parse(s)
    }
}

/// Every level is read back from its own name.
pub proof fn lemma_name_round_trip(level: OptLevel)
    ensures
        OptLevel::named(level.name()) == Some(level),
{
    reveal_strlit("none");
    reveal_strlit("speed");
    reveal_strlit("speed_and_size");
    assert("none"@.len() == 4);
    assert("speed"@.len() == 5);
    assert("speed_and_size"@.len() == 14);
}

} // verus!

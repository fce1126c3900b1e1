//! Quality-control verdict flags and their conversion from the codes the
//! statistical routines report.
//!
//! The statistical library reports its verdicts as small integer codes (one
//! per variant, in declaration order). Only the seven codes below are part of
//! this engine's vocabulary; any other code is rejected, so a routine that
//! grows new verdicts cannot silently leak them to callers.

use vstd::prelude::*;

verus! {

/// Verdict of a QC check for a single data point.
#[derive(Debug, Clone, Copy, PartialEq, Eq, Structural)]
pub enum Flag {
    /// The data point passed the check with no issues
    Pass,
    /// The data point failed the check
    Fail,
    /// The data point did not fail, but was inside a warning threshold
    Warn,
    /// The check was inconclusive
    Inconclusive,
    /// The input was invalid, so the data point could not be checked
    Invalid,
    /// Data needed for the check was missing
    DataMissing,
    /// The data point did not have enough neighbours for a spatial check
    Isolated,
}

/// The flag a given code stands for, or `None` for a code outside the
/// engine's vocabulary.
pub open spec fn spec_flag_of_code(code: u8) -> Option<Flag> {
    if code == 0 {
        Some(Flag::Pass)
    } else if code == 1 {
        Some(Flag::Fail)
    } else if code == 2 {
        Some(Flag::Warn)
    } else if code == 3 {
        Some(Flag::Inconclusive)
    } else if code == 4 {
        Some(Flag::Invalid)
    } else if code == 5 {
        Some(Flag::DataMissing)
    } else if code == 6 {
        Some(Flag::Isolated)
    } else {
        None
    }
}

/// The code a flag is reported as: its position in the declaration order.
pub open spec fn spec_code_of_flag(f: Flag) -> u8 {
    match f {
        Flag::Pass => 0,
        Flag::Fail => 1,
        Flag::Warn => 2,
        Flag::Inconclusive => 3,
        Flag::Invalid => 4,
        Flag::DataMissing => 5,
        Flag::Isolated => 6,
    }
}

impl Flag {
    /// The code of this flag: its position in the declaration order.
    pub fn code(self) -> (r: u8)
        ensures
            r == spec_code_of_flag(self),
    {
        match self {
            Flag::Pass => 0,
            Flag::Fail => 1,
            Flag::Warn => 2,
            Flag::Inconclusive => 3,
            Flag::Invalid => 4,
            Flag::DataMissing => 5,
            Flag::Isolated => 6,
        }
    }

    /// The flag a statistical routine's code stands for; `None` exactly when
    /// the code lies outside the engine's vocabulary.
    pub fn try_from_code(code: u8) -> (r: Option<Flag>)
        ensures
            r == spec_flag_of_code(code),
            r is Some <==> code <= 6,
    {
        match code {
            0 => Some(Flag::Pass),
            1 => Some(Flag::Fail),
            2 => Some(Flag::Warn),
            3 => Some(Flag::Inconclusive),
            4 => Some(Flag::Invalid),
            5 => Some(Flag::DataMissing),
            6 => Some(Flag::Isolated),
            _ => None,
        }
    }
}

/// Converting a flag to its code and back returns the same flag, and a code
/// inside the vocabulary survives the round trip unchanged.
pub proof fn lemma_flag_code_round_trip(f: Flag, code: u8)
    ensures
        spec_flag_of_code(spec_code_of_flag(f)) == Some(f),
        spec_flag_of_code(code) matches Some(g) ==> spec_code_of_flag(g) == code,
{
}

} // verus!

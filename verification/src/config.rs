//! Simulation settings that the library itself interprets.

use vstd::prelude::*;
use crate::text::{trim_spec, trim_str, str_equal};

verus! {

/// How the initial opinion profile is drawn.
///
/// Only the uniform profile exists; the enum leaves room for others.
#[derive(Debug, Clone, Copy, PartialEq, Eq, Structural)]
pub enum StartProfile {
    /// Uniform on `[0,1]` (the open interval `]0,1[` for the geometric and
    /// harmonic means).
    Uniform,
}

impl StartProfile {
    /// The name under which the profile is written and parsed.
    pub fn label(&self) -> (r: &'static str)
        ensures
            r@ == start_profile_label(*self),
    {
        match self {
            StartProfile::Uniform => "uniform",
        }
    }
}

/// The name of a start profile.
pub open spec fn start_profile_label(p: StartProfile) -> Seq<char> {
    match p {
        StartProfile::Uniform => "uniform"@,
    }
}

/// The error message that `parse_start_profile` gives for the input `s`.
pub open spec fn start_profile_error(s: Seq<char>) -> Seq<char> {
    "不正な初期分布: \""@ + s + "\" (uniform のみ対応)"@
}

/// Parses a start profile; surrounding white space is ignored.
pub fn parse_start_profile(s: &str) -> (r: Result<StartProfile, String>)
    ensures
        r is Ok <==> trim_spec(s@) == "uniform"@,
        r matches Ok(p) ==> p == StartProfile::Uniform,
        r matches Err(msg) ==> msg@ == start_profile_error(s@),
{
    let t = trim_str(s);
    if str_equal(t, "uniform") {
        Ok(StartProfile::Uniform)
    } else {
        let mut msg = String::from_str("不正な初期分布: \"");
        msg.append(s);
        msg.append("\" (uniform のみ対応)");
        Err(msg)
    }
}

} // verus!

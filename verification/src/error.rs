//! The helpers' error type.
use vstd::prelude::*;

verus! {

/// Why a helper refused its input.
///
/// Every variant carries the human-readable message that the command prints.
#[derive(Debug)]
pub enum GwsError {
    /// The command-line input is inconsistent (e.g. a path without a file name).
    Validation(String),
    /// The API discovery document lacks a resource or a method.
    Discovery(String),
    /// Any other refusal, such as a malformed cell reference or a missing table.
    Other(String),
}

impl GwsError {
    /// The message carried by the error.
    pub open spec fn message_spec(&self) -> Seq<char> {
        match self {
            GwsError::Validation(m) => m@,
            GwsError::Discovery(m) => m@,
            GwsError::Other(m) => m@,
        }
    }

    /// The message carried by the error.
    pub fn message(&self) -> (r: String)
        ensures
            r@ == self.message_spec(),
    {
        match self {
            GwsError::Validation(m) => m.clone(),
            GwsError::Discovery(m) => m.clone(),
            GwsError::Other(m) => m.clone(),
        }
    }
}

/// `r` is the outcome that the spec `s` describes, an error being an
/// `Other` error with the message that `s` gives.
pub open spec fn other_outcome<T>(r: Result<T, GwsError>, s: Result<T, Seq<char>>) -> bool {
    match (r, s) {
        (Ok(a), Ok(b)) => a == b,
        (Err(GwsError::Other(m)), Err(t)) => m@ == t,
        _ => false,
    }
}

/// Builds the message `prefix` followed by `tail`.
pub fn concat_msg(prefix: &str, tail: &str) -> (r: String)
    ensures
        r@ == prefix@ + tail@,
{
    let mut s = String::from_str(prefix);
    s.append(tail);
    s
}


/// Builds the message `a`, `b`, `c` in turn.
pub fn concat3(a: &str, b: &str, c: &str) -> (r: String)
    ensures
        r@ == a@ + b@ + c@,
{
    let mut s = String::from_str(a);
    s.append(b);
    s.append(c);
    s
}

} // verus!

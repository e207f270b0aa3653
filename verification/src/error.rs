//! The library's own error values and the probes that produce them, so
//! callers can tell the error kinds apart.

use vstd::prelude::*;

verus! {

/// The generic failure.
#[derive(Debug, PartialEq, Eq, Structural, Clone, Copy)]
pub struct MyError {}

impl MyError {
    /// A human-readable description.
    pub fn message(&self) -> (s: &'static str)
        ensures
            s@ == "Fail error occurred."@,
    {
        "Fail error occurred."
    }
}

/// A failure of the BGP machinery.
#[derive(Debug, PartialEq, Eq, Structural, Clone, Copy)]
pub enum MyBgpError {
    BgpError,
}

impl MyBgpError {
    /// A human-readable description.
    pub fn message(&self) -> (s: &'static str)
        ensures
            s@ == "This is BGP error"@,
    {
        "This is BGP error"
    }
}

/// A probe that always fails with the generic error, never with any
/// other kind.
pub fn error_my_test() -> (r: Result<(), MyError>)
    ensures
        r == Err::<(), MyError>(MyError {  }),
{
    Err(MyError {  })
}

/// A probe that always fails with the BGP error, never with any other
/// kind.
pub fn error_my_bgp_test() -> (r: Result<(), MyBgpError>)
    ensures
        r == Err::<(), MyBgpError>(MyBgpError::BgpError),
{
    Err(MyBgpError::BgpError)
}

} // verus!

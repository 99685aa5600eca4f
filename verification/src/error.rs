//! Error and exit-code contract of the library.
//!
//! `Spec` is bad input (malformed Gherkin, invalid URL, unsupported
//! HTTP method, missing argument) and maps to exit code 3; the other
//! variants are infrastructure failures and map to exit code 2.
//! Test-assertion failures are not errors: they are `pass: false` on a
//! test result and exit code 1.
use vstd::prelude::*;

verus! {

/// Library error. Each variant carries its message.
#[derive(Debug)]
pub enum Error {
    /// Bad input.
    Spec(String),
    /// Infrastructure failure.
    System(String),
    /// I/O failure.
    Io(String),
    /// HTTP transport failure.
    Http(String),
}

/// Operation completed; assertions passed.
pub const OK: i32 = 0;

/// Operation completed; a test or spec assertion failed.
pub const TEST_FAILED: i32 = 1;

/// System error (network / auth / config / IO).
pub const SYSTEM_ERROR: i32 = 2;

/// Bad input (invalid URL, malformed Gherkin, missing arg).
pub const SPEC_ERROR: i32 = 3;

/// The exit code an error maps to.
pub open spec fn exit_code_of(e: Error) -> i32 {
    match e {
        Error::Spec(_) => SPEC_ERROR,
        _ => SYSTEM_ERROR,
    }
}

/// Maps an error to the CLI exit code: `Spec` to 3, the rest to 2.
pub fn map_error_to_exit(e: &Error) -> (code: i32)
    ensures
        code == exit_code_of(*e),
{
    match e {
        Error::Spec(_) => SPEC_ERROR,
        Error::System(_) | Error::Io(_) | Error::Http(_) => SYSTEM_ERROR,
    }
}

/// The message an error displays: `spec error: ...`, `system error: ...`,
/// or the bare message of a wrapped I/O or HTTP error.
pub open spec fn error_text(e: Error) -> Seq<char> {
    match e {
        Error::Spec(m) => "spec error: "@ + m@,
        Error::System(m) => "system error: "@ + m@,
        Error::Io(m) => m@,
        Error::Http(m) => m@,
    }
}

impl Error {
    /// The text this error displays.
    pub fn to_text(&self) -> (s: String)
        ensures
            s@ == error_text(*self),
    {
        match self {
            Error::Spec(m) => {
                let mut s = String::from_str("spec error: ");
                s.append(m.as_str());
                s
            },
            Error::System(m) => {
                let mut s = String::from_str("system error: ");
                s.append(m.as_str());
                s
            },
            Error::Io(m) => m.clone(),
            Error::Http(m) => m.clone(),
        }
    }
}

} // verus!

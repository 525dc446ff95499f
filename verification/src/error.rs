//! Errors of the reconciliation core.
//!
//! The first four variants are configuration errors (malformed declarative
//! input); `MalformedSpec` and `UnsupportedInstaller` arise while probing
//! installed state; `MalformedLog` means the incremental log decoder could
//! not make progress; the last three concern executing operations.

use vstd::prelude::*;

use crate::strutil::{join_str, spec_join};

verus! {

#[derive(Clone, Debug)]
pub enum Error {
    /// A required field of a declarative entry is absent; holds the field name.
    MissingField(String),
    /// A field of a declarative entry has the wrong type; holds the field name.
    TypeMismatch(String),
    /// A declarative entry that must be a record is not one.
    NotARecord,
    /// A declarative list that must be a list is not one; holds the list name.
    NotAList(String),
    /// The concatenated-JSON install log could not be decoded.
    MalformedLog,
    /// The installer's bookkeeping file has an unexpected shape; holds the
    /// offending field name.
    MalformedSpec(String),
    /// The configured installer is not one the backend supports.
    UnsupportedInstaller,
    /// A command was about to be issued with no words at all.
    EmptyCommand,
    /// An issued command exited unsuccessfully; holds the exact argv.
    OperationFailed(Vec<String>),
    /// A post-install hook reported failure.
    HookFailed,
}

impl Error {
    /// The message `describe` returns.
    pub open spec fn spec_describe(self) -> Seq<char> {
        match self {
            Error::MissingField(f) => "missing field: "@ + f@,
            Error::TypeMismatch(f) => "field has the wrong type: "@ + f@,
            Error::NotARecord => "expected a record"@,
            Error::NotAList(f) => "expected a list: "@ + f@,
            Error::MalformedLog => "malformed install log"@,
            Error::MalformedSpec(f) => "malformed install bookkeeping: "@ + f@,
            Error::UnsupportedInstaller => "unsupported installer"@,
            Error::EmptyCommand => "cannot run an empty command"@,
            Error::OperationFailed(argv) => "command failed: "@ + spec_join(
                argv.deep_view(),
                " "@,
            ),
            Error::HookFailed => "a post-install hook failed"@,
        }
    }

    /// A human-readable account of the error.
    pub fn describe(&self) -> (r: String)
        ensures
            r@ == self.spec_describe(),
    {
        match self {
            Error::MissingField(f) => {
                let mut s = "missing field: ".to_owned();
                s.append(f.as_str());
                s
            },
            Error::TypeMismatch(f) => {
                let mut s = "field has the wrong type: ".to_owned();
                s.append(f.as_str());
                s
            },
            Error::NotARecord => "expected a record".to_owned(),
            Error::NotAList(f) => {
                let mut s = "expected a list: ".to_owned();
                s.append(f.as_str());
                s
            },
            Error::MalformedLog => "malformed install log".to_owned(),
            Error::MalformedSpec(f) => {
                let mut s = "malformed install bookkeeping: ".to_owned();
                s.append(f.as_str());
                s
            },
            Error::UnsupportedInstaller => "unsupported installer".to_owned(),
            Error::EmptyCommand => "cannot run an empty command".to_owned(),
            Error::OperationFailed(argv) => {
                let mut s = "command failed: ".to_owned();
                let joined = join_str(argv, " ");
                s.append(joined.as_str());
                s
            },
            Error::HookFailed => "a post-install hook failed".to_owned(),
        }
    }
}

} // verus!

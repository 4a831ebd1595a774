//! The errors of schema management.

use vstd::prelude::*;
use vstd::string::*;

verus! {

/// `core::fmt::Error`, which a failed write into a bounded buffer gives.
#[verifier::external_type_specification]
#[verifier::external_body]
pub struct ExFmtError(core::fmt::Error);

/// `std::io::Error`, which reading a migration source gives.
#[verifier::external_type_specification]
#[verifier::external_body]
pub struct ExIoError(std::io::Error);

/// Wraps all possible errors related to `oapth` or third-party crates.
#[derive(Debug)]
pub enum Error {
    /// Format error
    Fmt(core::fmt::Error),
    /// Incomplete SQL file
    IncompleteSqlFile,
    /// Invalid migration
    InvalidMigration,
    /// IO error
    Io(std::io::Error),
    /// Maximum number of groups
    MaxNumGroups,
}

/// `Display` of `core::fmt::Error`.
///
/// Its text is not stated here: `core` does not document it.
#[verifier::external_body]
fn fmt_error_text(e: &core::fmt::Error) -> String {
    e.to_string()
}

/// `Display` of `std::io::Error`.
///
/// Its text is not stated here: it depends on the operating system's message for the error.
#[verifier::external_body]
fn io_error_text(e: &std::io::Error) -> String {
    e.to_string()
}

/// Whether `m` describes `e`: a fixed text for each error, and for the errors of `core::fmt`
/// and `std::io` a prefix followed by their own description.
pub open spec fn message_holds(e: Error, m: Seq<char>) -> bool {
    match e {
        Error::Fmt(_) => exists|t: Seq<char>| m == "Fmt: "@ + t,
        Error::IncompleteSqlFile => m == "A migration file must contain a '--oapth UP' section"@,
        Error::InvalidMigration => m == "Invalid migration"@,
        Error::Io(_) => exists|t: Seq<char>| m == "IO: "@ + t,
        Error::MaxNumGroups => m == "There can't be more than 16 groups in a configuration"@,
    }
}

impl Error {
    /// The description of the error.
    pub fn message(&self) -> (r: String)
        ensures
            message_holds(*self, r@),
    {
        match self {
            Error::Fmt(e) => {
                let t = fmt_error_text(e);
                let r = String::from_str("Fmt: ").concat(t.as_str());
                assert(r@ == "Fmt: "@ + t@);
                r
            },
            Error::IncompleteSqlFile => String::from_str(
                "A migration file must contain a '--oapth UP' section",
            ),
            Error::InvalidMigration => String::from_str("Invalid migration"),
            Error::Io(e) => {
                let t = io_error_text(e);
                let r = String::from_str("IO: ").concat(t.as_str());
                assert(r@ == "IO: "@ + t@);
                r
            },
            Error::MaxNumGroups => String::from_str(
                "There can't be more than 16 groups in a configuration",
            ),
        }
    }
}

impl From<core::fmt::Error> for Error {
    fn from(from: core::fmt::Error) -> (r: Self) {
        Error::Fmt(from)
    }
}

impl vstd::std_specs::convert::FromSpecImpl<core::fmt::Error> for Error {
    open spec fn obeys_from_spec() -> bool {
        true
    }

    open spec fn from_spec(v: core::fmt::Error) -> Self {
        Error::Fmt(v)
    }
}

impl From<std::io::Error> for Error {
    fn from(from: std::io::Error) -> (r: Self) {
        Error::Io(from)
    }
}

impl vstd::std_specs::convert::FromSpecImpl<std::io::Error> for Error {
    open spec fn obeys_from_spec() -> bool {
        true
    }

    open spec fn from_spec(v: std::io::Error) -> Self {
        Error::Io(v)
    }
}

} // verus!

//! What the command line interface decides.

use vstd::prelude::*;
use vstd::string::*;

use crate::error::message_holds;
use crate::text::chars_of;

verus! {

/// The errors of the command line interface.
#[derive(Debug)]
pub enum Error {
    /// An error of the library
    Oapth(crate::error::Error),
}

impl From<crate::error::Error> for Error {
    fn from(from: crate::error::Error) -> (r: Self) {
        Error::Oapth(from)
    }
}

impl vstd::std_specs::convert::FromSpecImpl<crate::error::Error> for Error {
    open spec fn obeys_from_spec() -> bool {
        true
    }

    open spec fn from_spec(v: crate::error::Error) -> Self {
        Error::Oapth(v)
    }
}

impl Error {
    /// The description of the error: `oapth: ` and the description of the inner error.
    pub fn message(&self) -> (r: String)
        ensures
            match self {
                Error::Oapth(e) => exists|t: Seq<char>|
                    r@ == "oapth: "@ + t && #[trigger] message_holds(*e, t),
            },
    {
        match self {
            Error::Oapth(e) => {
                let t = e.message();
                let r = String::from_str("oapth: ").concat(t.as_str());
                assert(message_holds(*e, t@));
                r
            },
        }
    }
}

/// The message given when no seeds directory is known.
pub open spec fn missing_seeds_message() -> Seq<char> {
    "The `seeds` parameter must be provided through the CLI or the configuration file"@
}

/// The seeds directory: the one given on the command line, else the one of the configuration
/// file; an error when neither is given.
pub fn _seeds_file_path<'a>(cli_seeds: Option<&'a str>, toml_seeds: Option<&'a str>) -> (r: Result<
    &'a str,
    &'static str,
>)
    ensures
        match (cli_seeds, toml_seeds) {
            (Some(p), _) => r == Ok::<&str, &str>(p),
            (None, Some(p)) => r == Ok::<&str, &str>(p),
            (None, None) => r matches Err(m) && m@ == missing_seeds_message(),
        },
{
    if let Some(el) = cli_seeds {
        return Ok(el);
    }
    if let Some(el) = toml_seeds {
        return Ok(el);
    }
    Err("The `seeds` parameter must be provided through the CLI or the configuration file")
}

/// The configuration file read when none is given on the command line.
pub open spec fn default_cfg_file_name() -> Seq<char> {
    "oapth.toml"@
}

/// `PathBuf::push` of the relative `name` onto `dir`, with `/` as the separator: a separator
/// is added unless `dir` is empty or already ends with one.
pub open spec fn path_joined(dir: Seq<char>, name: Seq<char>) -> Seq<char> {
    if dir.len() == 0 || dir.last() == '/' {
        dir + name
    } else {
        dir + "/"@ + name
    }
}

/// The configuration file: the one given on the command line, else `oapth.toml` in the
/// current directory `cwd`.
pub fn _toml_file_path(cli_toml: Option<&str>, cwd: &str) -> (r: String)
    ensures
        match cli_toml {
            Some(p) => r@ == p@,
            None => r@ == path_joined(cwd@, default_cfg_file_name()),
        },
{
    if let Some(el) = cli_toml {
        return String::from_str(el);
    }
    let v = chars_of(cwd);
    let dir = String::from_str(cwd);
    if v.len() == 0 || v[v.len() - 1] == '/' {
        dir.concat("oapth.toml")
    } else {
        dir.concat("/").concat("oapth.toml")
    }
}

} // verus!

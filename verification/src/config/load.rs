//! Where the configuration comes from.

use vstd::prelude::*;

use crate::util::text::{cat2, cat4};

verus! {

/// Where the configuration is, where nobody says otherwise.
pub const DEFAULT_CONFIG_PATH: &'static str = "/etc/bpm/config.toml";

/// Where the configuration is: where the command line says, else where the environment says.
pub fn config_path(explicit: Option<&str>, environment: Option<&str>) -> (r: String)
    ensures
        r@ == match explicit {
            Some(p) => p@,
            None => match environment {
                Some(p) => p@,
                None => DEFAULT_CONFIG_PATH@,
            },
        },
{
    match explicit {
        Some(p) => p.to_owned(),
        None => match environment {
            Some(p) => p.to_owned(),
            None => DEFAULT_CONFIG_PATH.to_owned(),
        },
    }
}

/// How reading the file went.
pub enum ReadOutcome {
    Read,
    NotFound(String),
    Failed(String),
}

/// Which configuration is used.
pub enum Source {
    File,
    /// The one that the program brings.
    Embedded,
    Fail(String),
}

/// Which configuration is used: a file that nobody asked for may be missing, any other one may
/// not.
pub fn load(path: &str, explicit: bool, from_environment: bool, read: ReadOutcome) -> (r: Source)
    ensures
        match (r, read) {
            (Source::File, ReadOutcome::Read) => true,
            (Source::Embedded, ReadOutcome::NotFound(_)) => !explicit && !from_environment,
            (Source::Fail(m), ReadOutcome::NotFound(e)) => (explicit || from_environment) && m@
                == "read "@ + path@ + ": "@ + e@,
            (Source::Fail(m), ReadOutcome::Failed(e)) => m@ == "read "@ + path@ + ": "@ + e@,
            _ => false,
        },
{
    match read {
        ReadOutcome::Read => Source::File,
        ReadOutcome::NotFound(e) => if !explicit && !from_environment {
            Source::Embedded
        } else {
            Source::Fail(cat4("read ", path, ": ", e.as_str()))
        },
        ReadOutcome::Failed(e) => Source::Fail(cat4("read ", path, ": ", e.as_str())),
    }
}

/// What is said before the fault of a configuration that could not be read as one.
pub fn parse_context(origin: &str) -> (r: String)
    ensures
        r@ == "parse "@ + origin@,
{
    cat2("parse ", origin)
}

/// What is said before the fault of a configuration that is not valid.
pub fn validate_context(origin: &str) -> (r: String)
    ensures
        r@ == "validate "@ + origin@,
{
    cat2("validate ", origin)
}

} // verus!

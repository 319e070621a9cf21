//! Resolution of the run parameters from the raw argument list and the
//! case-insensitivity toggle.

use vstd::prelude::*;

verus! {

/// Why a configuration could not be built from the raw arguments.
#[derive(Debug, PartialEq, Eq)]
pub enum ConfigError {
    /// No query argument was supplied after the program name.
    MissingQuery,
    /// A query was supplied but no filename followed it.
    MissingFilename,
}

impl ConfigError {
    /// A short human-readable description of the error.
    pub fn message(&self) -> (text: &'static str)
        ensures
            *self is MissingQuery ==> text@ == "missing query"@,
            *self is MissingFilename ==> text@ == "missing filename"@,
    {
        match self {
            ConfigError::MissingQuery => "missing query",
            ConfigError::MissingFilename => "missing filename",
        }
    }
}

/// The validated parameters of one search run: what to look for, where to
/// look, and whether matching respects case.
#[derive(Debug)]
pub struct Config {
    pub query: String,
    pub filename: String,
    pub case_sensitive: bool,
}

impl Config {
    /// Builds a configuration from the raw argument list and the state of the
    /// case-insensitivity toggle. The first argument is the program name; the
    /// query comes second and the filename third. Matching is case-sensitive
    /// exactly when the toggle is not set. The filename is not checked for
    /// existence here: loading the file is the caller's step.
    pub fn new(args: &Vec<String>, case_insensitive: bool) -> (result: Result<Config, ConfigError>)
        ensures
            args@.len() < 2 ==> result == Err::<Config, ConfigError>(ConfigError::MissingQuery),
            args@.len() == 2 ==> result == Err::<Config, ConfigError>(
                ConfigError::MissingFilename,
            ),
            args@.len() >= 3 ==> (result matches Ok(config) && config.query@ == args@[1]@
                && config.filename@ == args@[2]@ && config.case_sensitive == !case_insensitive),
    {
        if args.len() < 2 {
            return Err(ConfigError::MissingQuery);
        }
        if args.len() < 3 {
            return Err(ConfigError::MissingFilename);
        }
        let query = args[1].clone();
        let filename = args[2].clone();
        Ok(Config { query, filename, case_sensitive: !case_insensitive })
    }
}

} // verus!

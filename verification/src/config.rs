//! Resolving the search configuration from plain command-line values and the
//! value of the case-insensitivity environment variable.

use vstd::prelude::*;
use vstd::string::StringExecFns;

verus! {

/// What a search invocation was asked to do: the query, the name of the file
/// to search, and whether the comparison is case-sensitive.
pub struct Config {
    pub query: String,
    pub filename: String,
    pub case_sensitive: bool,
}

/// Why a configuration could not be resolved: the query or the file name was
/// missing from the arguments.
#[derive(Debug, PartialEq, Eq)]
pub enum ConfigError {
    MissingQuery,
    MissingFilename,
}

/// True when the arguments ask for a case-sensitive search on their own: they
/// do, unless their third member is the literal flag "-i".
pub open spec fn spec_case_sensitive_default(args: Seq<Seq<char>>) -> bool {
    !(args.len() >= 3 && args[2] == "-i"@)
}

/// True when the resolved search is case-sensitive: a present environment
/// variable (whatever its value) forces a case-insensitive search, and only in
/// its absence do the arguments decide.
pub open spec fn spec_case_sensitive(args: Seq<Seq<char>>, env: Option<Seq<char>>) -> bool {
    env is None && spec_case_sensitive_default(args)
}

impl Config {
    /// Resolves a configuration from the command-line arguments (the program
    /// name already excluded) and the value of the case-insensitivity
    /// environment variable, `None` when that variable is absent. The first
    /// argument is the query and the second the file name; each is required,
    /// and missing ones are reported apart.
    pub fn new(args: Vec<String>, case_insensitive_env: Option<String>) -> (r: Result<
        Config,
        ConfigError,
    >)
        ensures
            args@.len() == 0 <==> r == Err::<Config, ConfigError>(ConfigError::MissingQuery),
            args@.len() == 1 <==> r == Err::<Config, ConfigError>(ConfigError::MissingFilename),
            args@.len() >= 2 ==> (r matches Ok(c) && c.query@ == args@[0]@ && c.filename@
                == args@[1]@ && c.case_sensitive == spec_case_sensitive(
                args.deep_view(),
                case_insensitive_env.deep_view(),
            )),
    {
        if args.len() == 0 {
            return Err(ConfigError::MissingQuery);
        }
        if args.len() == 1 {
            return Err(ConfigError::MissingFilename);
        }
        let query = args[0].clone();
        let filename = args[1].clone();
        let flagged = args.len() >= 3 && args[2] == String::from_str("-i");
        let default_case_sensitive = !flagged;
        let case_sensitive = match case_insensitive_env {
            Some(_) => false,
            None => default_case_sensitive,
        };
        Ok(Config { query, filename, case_sensitive })
    }
}

} // verus!

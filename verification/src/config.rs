//! The configuration of one search and how it is built from arguments.

use vstd::prelude::*;
use vstd::string::StringExecFns;

verus! {

/// Why a list of arguments gives no configuration.
#[derive(Clone, Copy, Debug, PartialEq, Eq, Structural)]
pub enum ConfigError {
    /// The argument that names the query is absent.
    MissingQuery,
    /// The argument that names the file is absent.
    MissingFilename,
}

impl ConfigError {
    /// The text shown to the user for this error.
    pub fn message(&self) -> (text: &'static str)
        ensures
            *self == ConfigError::MissingQuery ==> text@ == "Didn't get a query string"@,
            *self == ConfigError::MissingFilename ==> text@ == "Didn't get a file name"@,
    {
        match self {
            ConfigError::MissingQuery => "Didn't get a query string",
            ConfigError::MissingFilename => "Didn't get a file name",
        }
    }
}

/// What to search for, where, and whether letter case matters.
#[derive(Clone, Debug)]
pub struct Config {
    /// The text to look for.
    pub query: String,
    /// The path of the file to search.
    pub filename: String,
    /// Whether the comparison sets letter case aside.
    pub case_insensitive: bool,
}

/// The case mode that a list of at least three arguments selects: a fourth
/// argument decides alone (insensitive exactly when it is the single letter
/// `I`); without one the ambient toggle decides.
pub open spec fn selects_case_insensitive(args: Seq<String>, toggle_set: bool) -> bool {
    if args.len() >= 4 {
        args[3]@ == seq!['I']
    } else {
        toggle_set
    }
}

impl Config {
    /// Builds the configuration from the program's arguments, the program's
    /// own name first, and from whether the ambient case toggle is set.
    ///
    /// The name is skipped; the next two arguments are the query and the file
    /// name, and both are required.
    pub fn new(args: Vec<String>, toggle_set: bool) -> (made: Result<Config, ConfigError>)
        ensures
            args@.len() < 2 <==> made == Err::<Config, ConfigError>(ConfigError::MissingQuery),
            args@.len() == 2 <==> made == Err::<Config, ConfigError>(ConfigError::MissingFilename),
            args@.len() >= 3 <==> made is Ok,
            made matches Ok(config) ==> {
                &&& config.query@ == args@[1]@
                &&& config.filename@ == args@[2]@
                &&& config.case_insensitive == selects_case_insensitive(args@, toggle_set)
            },
    {
        if args.len() < 2 {
            return Err(ConfigError::MissingQuery);
        }
        if args.len() < 3 {
            return Err(ConfigError::MissingFilename);
        }
        let case_insensitive = if args.len() >= 4 {
            let flag = String::from_str("I");
            proof {
                reveal_strlit("I");
                assert(flag@ =~= seq!['I']);
            }
            args[3] == flag
        } else {
            toggle_set
        };
        Ok(Config { query: args[1].clone(), filename: args[2].clone(), case_insensitive })
    }
}

} // verus!

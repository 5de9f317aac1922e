//! What a run is asked to do: the query, the file to read, and whether letter
//! case counts. It is built from the command line's arguments and from the
//! value of one environment variable, both handed in by the caller.

use vstd::prelude::*;
use crate::scan::str_eq;

verus! {

/// The name of the environment variable that switches letter case off.
pub const CASE_INSENSITIVE_VAR: &'static str = "CASE_INSENSITIVE";

/// The one value of the variable that leaves the search case-sensitive.
pub const DISABLING_VALUE: &'static str = "false";

/// What `Config::new` answers when there are fewer than three arguments.
pub const NOT_ENOUGH_ARGS: &'static str = "Not enough args!";

/// A validated request: find `query` in the file named `filename`.
#[derive(Debug, PartialEq, Eq)]
pub struct Config {
    pub query: String,
    pub filename: String,
    pub case_insensitive: bool,
}

/// A `Config` as plain values.
pub struct ConfigView {
    pub query: Seq<char>,
    pub filename: Seq<char>,
    pub case_insensitive: bool,
}

impl View for Config {
    type V = ConfigView;

    open spec fn view(&self) -> ConfigView {
        ConfigView {
            query: self.query@,
            filename: self.filename@,
            case_insensitive: self.case_insensitive,
        }
    }
}

/// Whether a value of the variable switches letter case off: every value
/// does, but for the text `false`.
pub open spec fn enables(value: Seq<char>) -> bool {
    value != DISABLING_VALUE@
}

/// Whether letter case is switched off, given the variable's value if it is
/// set: an unset variable leaves the search case-sensitive.
pub open spec fn case_insensitive_from(variable: Option<Seq<char>>) -> bool {
    match variable {
        Some(value) => enables(value),
        None => false,
    }
}

/// What the arguments and the variable amount to: the configuration with the
/// second and third argument as query and file name, or nothing where there
/// are fewer than three arguments. Arguments behind the third are not read.
pub open spec fn configured(args: Seq<Seq<char>>, variable: Option<Seq<char>>) -> Option<
    ConfigView,
> {
    if args.len() < 3 {
        None
    } else {
        Some(
            ConfigView {
                query: args[1],
                filename: args[2],
                case_insensitive: case_insensitive_from(variable),
            },
        )
    }
}

/// Reads a value of the variable: `false` for the text `false`, `true` for
/// every other text, the empty one too.
pub fn string_to_bool(value: &str) -> (enabled: bool)
    ensures
        enabled == enables(value@),
{
    !str_eq(value, DISABLING_VALUE)
}

impl Config {
    /// Builds the configuration from the arguments as the host delivers them
    /// (the program's name first) and from the value of the variable
    /// `CASE_INSENSITIVE`, `None` where it is not set. Fails with
    /// `NOT_ENOUGH_ARGS` exactly where there are fewer than three arguments.
    pub fn new(args: &[String], variable: Option<&str>) -> (built: Result<Config, &'static str>)
        ensures
            match built {
                Ok(config) => configured(args.deep_view(), variable.deep_view()) == Some(config@),
                Err(message) => configured(args.deep_view(), variable.deep_view()) is None
                    && message@ == NOT_ENOUGH_ARGS@,
            },
    {
        if args.len() < 3 {
            return Err(NOT_ENOUGH_ARGS);
        }
        let query = args[1].clone();
        let filename = args[2].clone();
        let case_insensitive = match variable {
            Some(value) => string_to_bool(value),
            None => false,
        };
        Ok(Config { query, filename, case_insensitive })
    }
}

/// What `Config::new` answered, as plain values: the configuration, or the
/// text of the refusal.
pub open spec fn answer(built: Result<Config, &'static str>) -> Result<ConfigView, Seq<char>> {
    match built {
        Ok(config) => Ok(config@),
        Err(message) => Err(message@),
    }
}

/// Building is deterministic: whatever `Config::new` answers for the same
/// arguments and the same value of the variable is the same answer.
pub proof fn law_deterministic(
    args: &[String],
    variable: Option<&str>,
    built: Result<Config, &'static str>,
    same_args: &[String],
    same_variable: Option<&str>,
    built_again: Result<Config, &'static str>,
)
    requires
        args.deep_view() == same_args.deep_view(),
        variable.deep_view() == same_variable.deep_view(),
        call_ensures(Config::new, (args, variable), built),
        call_ensures(Config::new, (same_args, same_variable), built_again),
    ensures
        answer(built) == answer(built_again),
{
}

/// The variable switches letter case off unless it is unset or holds the
/// text `false`.
pub proof fn law_environment(args: Seq<Seq<char>>, variable: Option<Seq<char>>)
    requires
        args.len() >= 3,
    ensures
        configured(args, variable) matches Some(config) && (config.case_insensitive <==> !(
            variable is None || variable == Some(DISABLING_VALUE@))),
{
}

} // verus!

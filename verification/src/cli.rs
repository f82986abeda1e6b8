//! The command line: which report to make, on which project, in which format.

use vstd::prelude::*;
use crate::git::{bound_of, log_args, log_args_spec, Bound, BoundModel};
use crate::text::{opt_view, string_views};

verus! {

/// Declares std's `std::path::PathBuf` to Verus as an opaque type: a
/// project root given on the command line is carried through as it is.
#[verifier::external_type_specification]
#[verifier::external_body]
pub struct ExPathBuf(std::path::PathBuf);

/// The output format of a report.
#[derive(Debug)]
pub enum OutputFormat {
    Json,
    Text,
}

/// The report to make.
#[derive(Debug)]
pub enum Command {
    /// A changelog of the last `limit` commits, optionally bounded by a
    /// ref or a date on either side.
    Log { limit: usize, since: Option<String>, until: Option<String> },
    /// A summary of the last `limit` commits.
    Summary { limit: usize },
    /// The details of one commit.
    Show { commit: String },
    /// The evidence sources of the project.
    Sources,
}

/// A parsed command line.
#[derive(Debug)]
pub struct Cli {
    /// The project root, where given.
    pub repo: Option<std::path::PathBuf>,
    /// The output format.
    pub format: OutputFormat,
    /// The report to make.
    pub command: Command,
}

impl Cli {
    /// Whether the report is to be written as JSON.
    pub fn is_json(&self) -> (b: bool)
        ensures
            b == (self.format is Json),
    {
        match self.format {
            OutputFormat::Json => true,
            OutputFormat::Text => false,
        }
    }
}

impl Command {
    /// The `git log` arguments that the command reads the history with: a
    /// changelog reads its `limit` commits within its bounds, each bound a
    /// ref where git says it names a commit and a date otherwise; a summary
    /// reads its `limit` last commits; the other commands read no history
    /// list.
    pub fn history_args(&self, since_names_commit: bool, until_names_commit: bool) -> (args: Option<Vec<String>>)
        ensures
            match self {
                Command::Log { limit, since, until } => args matches Some(a) && string_views(a@)
                    == log_args_spec(
                    *limit as nat,
                    bound_spec(opt_view(*since), since_names_commit),
                    bound_spec(opt_view(*until), until_names_commit),
                ),
                Command::Summary { limit } => args matches Some(a) && string_views(a@)
                    == log_args_spec(*limit as nat, None, None),
                _ => args is None,
            },
    {
        match self {
            Command::Log { limit, since, until } => {
                let s: Option<Bound> = match since {
                    Some(x) => Some(bound_of(x.as_str(), since_names_commit)),
                    None => None,
                };
                let u: Option<Bound> = match until {
                    Some(x) => Some(bound_of(x.as_str(), until_names_commit)),
                    None => None,
                };
                Some(log_args(*limit, &s, &u))
            },
            Command::Summary { limit } => Some(log_args(*limit, &None, &None)),
            Command::Show { .. } => None,
            Command::Sources => None,
        }
    }
}

/// The bound that an optional `--since` or `--until` text gives.
pub open spec fn bound_spec(text: Option<Seq<char>>, names_commit: bool) -> Option<BoundModel> {
    match text {
        Some(t) => Some(if names_commit { BoundModel::Ref(t) } else { BoundModel::Date(t) }),
        None => None,
    }
}

} // verus!

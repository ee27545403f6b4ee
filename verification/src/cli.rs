//! The command line: which mode an invocation runs in.

use vstd::prelude::*;

use crate::input::opt_view;
use crate::text::str_eq;

verus! {

/// What one invocation of the program does.
pub enum CliCommand {
    /// `--refresh-usage`: fetch the usage API into the cache.
    RefreshUsage,
    /// `--refresh-session-name [sid]`: resolve a session's name into its cache.
    RefreshSessionName(Option<String>),
    /// `update` or `--update`: replace the executable by the latest release.
    Update,
    /// `--version` or `-V`: print the version.
    Version,
    /// Anything else: render the status line from stdin.
    Render,
}

/// The first argument (after the program name) is one of the mode flags.
pub open spec fn is_mode_flag(a: Seq<char>) -> bool {
    a == "--refresh-usage"@ || a == "--refresh-session-name"@ || a == "update"@ || a
        == "--update"@ || a == "--version"@ || a == "-V"@
}

/// Picks the mode from the process arguments (`args[0]` is the program).
pub fn parse_command(args: &Vec<String>) -> (r: CliCommand)
    ensures
        match r {
            CliCommand::RefreshUsage => args@.len() > 1 && args@[1]@ == "--refresh-usage"@,
            CliCommand::RefreshSessionName(sid) => args@.len() > 1 && args@[1]@
                == "--refresh-session-name"@ && opt_view(sid) == (if args@.len() > 2 {
                Some(args@[2]@)
            } else {
                None
            }),
            CliCommand::Update => args@.len() > 1 && (args@[1]@ == "update"@ || args@[1]@
                == "--update"@),
            CliCommand::Version => args@.len() > 1 && (args@[1]@ == "--version"@ || args@[1]@
                == "-V"@),
            CliCommand::Render => !(args@.len() > 1 && is_mode_flag(args@[1]@)),
        },
{
    if args.len() < 2 {
        return CliCommand::Render;
    }
    let a = args[1].as_str();
    if str_eq(a, "--refresh-usage") {
        CliCommand::RefreshUsage
    } else if str_eq(a, "--refresh-session-name") {
        if args.len() > 2 {
            CliCommand::RefreshSessionName(Some(args[2].clone()))
        } else {
            CliCommand::RefreshSessionName(None)
        }
    } else if str_eq(a, "update") || str_eq(a, "--update") {
        CliCommand::Update
    } else if str_eq(a, "--version") || str_eq(a, "-V") {
        CliCommand::Version
    } else {
        CliCommand::Render
    }
}

} // verus!

//! The fields of the host CLI's status-line payload that the widgets read.

use vstd::prelude::*;

verus! {

/// The text values of the stdin payload that the status line reads; a field
/// is `None` when the payload lacks it or holds something other than a string.
pub struct StatusInput {
    /// `model.display_name`
    pub model_display_name: Option<String>,
    /// `version`
    pub version: Option<String>,
    /// `session_id`
    pub session_id: Option<String>,
    /// `workspace.project_dir`
    pub project_dir: Option<String>,
    /// `workspace.current_dir`
    pub current_dir: Option<String>,
    /// `cwd`
    pub cwd: Option<String>,
}

/// The characters of an optional string.
pub open spec fn opt_view(o: Option<String>) -> Option<Seq<char>> {
    match o {
        Some(s) => Some(s@),
        None => None,
    }
}

/// The first of two optional values that is present (`Option::or_else`).
pub open spec fn first_present(a: Option<Seq<char>>, b: Option<Seq<char>>) -> Option<Seq<char>> {
    match a {
        Some(x) => Some(x),
        None => b,
    }
}

} // verus!

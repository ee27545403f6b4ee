//! The logic of a coding-agent CLI's status line: the widgets' text, the
//! parsing of command output, HTTP header dumps and versions, and the
//! policies that decide when cached data is refreshed.

pub mod cli;
pub mod context;
pub mod git;
pub mod headers;
pub mod input;
pub mod render;
pub mod session;
pub mod text;
pub mod update;
pub mod usage;

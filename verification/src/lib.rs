//! Finds what a shell would run for a name or a glob pattern: executables on
//! the search path, and the aliases and functions of a captured shell session.
//!
//! - [`shell`] reads the aliases and functions out of a session.
//! - [`pattern`] turns a token into a matcher, with the glob engine behind it.
//! - [`search`] goes through the candidates for one token, in the order in
//!   which a shell looks a name up.
//! - [`non_win`] and [`win`] are the runs of the two kinds of platforms:
//!   files told by their executable bit, and files told by their extension.
//! - [`cmd`] and [`matcher`] match the entries of a walk against several
//!   arguments at once, by name and extension.
//! - [`app`] holds the settings of a run, [`path_entry`] a directory of the
//!   search path, [`names`] and [`text`] the handling of names and
//!   characters.
//!
//! The library reads no file and writes nothing: its callers list the
//! directories when the search asks for them, and show what was found.

pub mod app;
pub mod cmd;
pub mod matcher;
pub mod names;
pub mod non_win;
pub mod path_entry;
pub mod pattern;
pub mod search;
pub mod shell;
pub mod text;
pub mod win;

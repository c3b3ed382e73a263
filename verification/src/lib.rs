//! Verified core of a personal fitness tracker: a shorthand command grammar
//! that turns strings such as `dl,100,5` into typed, dated events, a
//! line-oriented journal codec, a derived per-type/per-date index over the
//! journal, and the reconciliation step that keeps the two in sync.

use vstd::prelude::*;

pub mod date;
pub mod num;
pub mod strutil;
pub mod event;
pub mod grammar;
pub mod state;
pub mod codec;
pub mod snapshot;
pub mod log;

verus! {

/// What an invocation asks for: log a batch of shorthand commands, or list
/// the shortcode table.
#[derive(Clone, Debug)]
pub enum Command {
    Log { input: String },
    Shortcodes,
}

/// The tool's parsed invocation; the surrounding binary fills it in from the
/// command line and dispatches on `command`.
#[derive(Clone, Debug)]
pub struct AustrianOak {
    pub command: Command,
}

} // verus!

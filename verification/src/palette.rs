//! The fixed palette of terminal colors and the one function that applies it.

use vstd::prelude::*;
use vstd::string::*;

verus! {

pub const RESET: &'static str = "\x1b[0m";
pub const BORDER: &'static str = "\x1b[38;5;99m";
pub const HEADER: &'static str = "\x1b[38;5;82m";
pub const INDEX: &'static str = "\x1b[38;5;51m";
pub const TYPE: &'static str = "\x1b[38;5;78m";
pub const SIZE: &'static str = "\x1b[38;5;45m";
pub const MODIFIED: &'static str = "\x1b[38;5;114m";
pub const MODIFIED_RECENT: &'static str = "\x1b[38;5;82m";
pub const MODIFIED_SOON: &'static str = "\x1b[38;5;148m";
pub const MODIFIED_HOURS: &'static str = "\x1b[38;5;184m";
pub const MODIFIED_DAYS: &'static str = "\x1b[38;5;208m";
pub const MODIFIED_WEEKS: &'static str = "\x1b[38;5;203m";
pub const MODIFIED_OLD: &'static str = "\x1b[38;5;244m";
pub const MODIFIED_FUTURE: &'static str = "\x1b[38;5;111m";
pub const DIR: &'static str = "\x1b[38;5;45m";
pub const FILE: &'static str = "\x1b[38;5;252m";
pub const EXEC: &'static str = "\x1b[38;5;197m";
pub const DOTFILE: &'static str = "\x1b[38;5;179m";
pub const WARN: &'static str = "\x1b[38;5;214m";
pub const GIT_DIRTY: &'static str = "\x1b[38;5;214m";
pub const GIT_ADDED: &'static str = "\x1b[38;5;77m";
pub const GIT_REMOVED: &'static str = "\x1b[38;5;203m";
pub const GIT_CLEAN: &'static str = "\x1b[38;5;240m";

/// `text` between the escape sequence `color` and the reset sequence.
pub open spec fn painted(text: Seq<char>, color: Seq<char>) -> Seq<char> {
    color + text + RESET@
}

/// Wraps `text` in the escape sequence `color` and the reset sequence.
pub fn paint(text: &str, color: &str) -> (out: String)
    ensures
        out@ == painted(text@, color@),
{
    let mut out = String::from_str(color);
    out.append(text);
    out.append(RESET);
    out
}

} // verus!

//! Fuzzy directory picker for a terminal multiplexer.
//!
//! The library holds the verified core: the fuzzy match engine, the ranked
//! selection list with its undo history, the key-event controller, the
//! session-reconciliation rules, the fixed shapes of every multiplexer
//! invocation, and the configuration text formats. All terminal drawing,
//! process spawning and file access live outside, in the surrounding
//! application.

use vstd::prelude::*;
use vstd::string::StringExecFns;

pub mod cli;
pub mod config;
pub mod input;
pub mod match_engine;
pub mod selection;
pub mod session;
pub mod text;
pub mod tmux;

pub use session::SessionAction;
pub use session::SessionFacts;
pub use session::resolve_action;
pub use session::start_tmux;
pub use tmux::switch_sessions;

verus! {

/// Everything the library itself can reject: malformed configuration text, a
/// malformed session listing, and a path that yields no session name.
/// Failures of the surrounding process machinery stay outside the library.
#[derive(Clone, Copy, Debug, PartialEq, Eq, Structural)]
pub enum Error {
    /// A configuration line does not hold exactly three fields
    /// (zero-based line index).
    InvalidFieldCount(usize),
    /// The minimum-depth field of a configuration line is not a number
    /// that fits (zero-based line index).
    InvalidMinDepth(usize),
    /// The maximum-depth field of a configuration line is not a number
    /// that fits (zero-based line index).
    InvalidMaxDepth(usize),
    /// A line of the multiplexer's session listing is not a quoted name
    /// (zero-based line index).
    InvalidSessionLine(usize),
    /// The confirmed path has no usable final component to name a session
    /// after.
    MissingSessionName,
}

impl Error {
    /// The message each error renders as, line index included where there is
    /// one.
    pub open spec fn message_spec(self) -> Seq<char> {
        match self {
            Error::InvalidFieldCount(i) => "Invalid number of values on line "@ + text::dec_str(
                i as int,
            ),
            Error::InvalidMinDepth(i) => "Invalid min_depth on line "@ + text::dec_str(i as int),
            Error::InvalidMaxDepth(i) => "Invalid max_depth on line "@ + text::dec_str(i as int),
            Error::InvalidSessionLine(i) => "Invalid session list entry on line "@ + text::dec_str(
                i as int,
            ),
            Error::MissingSessionName => "Failed to get session_name from filepath."@,
        }
    }

    /// Renders the error as its message.
    pub fn message(&self) -> (r: String)
        ensures
            r@ == self.message_spec(),
    {
        match self {
            Error::InvalidFieldCount(i) => {
                let mut s = String::from_str("Invalid number of values on line ");
                let num = text::format_usize(*i);
                s.append(num.as_str());
                s
            },
            Error::InvalidMinDepth(i) => {
                let mut s = String::from_str("Invalid min_depth on line ");
                let num = text::format_usize(*i);
                s.append(num.as_str());
                s
            },
            Error::InvalidMaxDepth(i) => {
                let mut s = String::from_str("Invalid max_depth on line ");
                let num = text::format_usize(*i);
                s.append(num.as_str());
                s
            },
            Error::InvalidSessionLine(i) => {
                let mut s = String::from_str("Invalid session list entry on line ");
                let num = text::format_usize(*i);
                s.append(num.as_str());
                s
            },
            Error::MissingSessionName => String::from_str(
                "Failed to get session_name from filepath.",
            ),
        }
    }
}

/// The text of the trailing cause lines of an error report, one cause each.
pub open spec fn causes_text(causes: Seq<Seq<char>>) -> Seq<char>
    decreases causes.len(),
{
    if causes.len() == 0 {
        Seq::empty()
    } else {
        causes_text(causes.drop_last()) + "Caused by:\t"@ + causes.last() + seq!['\n']
    }
}

/// The text of a whole error report: the message on its own line, then one
/// line per cause.
pub open spec fn chain_text(top: Seq<char>, causes: Seq<Seq<char>>) -> Seq<char> {
    top + seq!['\n'] + causes_text(causes)
}

/// Renders an error and the chain of its causes, one line each.
pub fn error_chain_fmt(top: &str, causes: &Vec<String>) -> (r: String)
    ensures
        r@ == chain_text(top@, causes@.map_values(|c: String| c@)),
{
    let ghost cs = causes@.map_values(|c: String| c@);
    let mut s = String::from_str(top);
    proof {
        reveal_strlit("\n");
    }
    s.append("\n");
    let mut i: usize = 0;
    proof {
        assert(causes_text(cs.subrange(0, 0)) =~= Seq::<char>::empty());
        assert(s@ =~= top@ + seq!['\n'] + causes_text(cs.subrange(0, 0)));
    }
    while i < causes.len()
        invariant
            i <= causes@.len(),
            cs == causes@.map_values(|c: String| c@),
            s@ == top@ + seq!['\n'] + causes_text(cs.subrange(0, i as int)),
        decreases causes@.len() - i,
    {
        proof {
            reveal_strlit("\n");
        }
        s.append("Caused by:\t");
        s.append(causes[i].as_str());
        s.append("\n");
        proof {
            assert(cs.subrange(0, i as int + 1).drop_last() =~= cs.subrange(0, i as int));
            assert(cs.subrange(0, i as int + 1).last() == cs[i as int]);
            assert(s@ =~= top@ + seq!['\n'] + causes_text(cs.subrange(0, i as int + 1)));
        }
        i += 1;
    }
    proof {
        assert(cs.subrange(0, cs.len() as int) =~= cs);
    }
    s
}

} // verus!

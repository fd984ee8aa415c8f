//! The fixed argument shapes of every multiplexer invocation the program
//! issues, and the parser for the session listing the multiplexer prints.
//! Running the commands is the surrounding application's business; here each
//! invocation is pinned down argument by argument.

use vstd::prelude::*;
use vstd::string::StrSliceExecFns;
use vstd::string::StringExecFns;
use crate::Error;
use crate::session::SessionAction;
use crate::text::{lines_of, split_lines, trim, trim_of};

verus! {

/// An argument list for one multiplexer invocation, built up left to right.
pub struct CommandBuilder {
    pub args: Vec<String>,
}

/// The arguments a builder holds, as character sequences.
pub open spec fn args_model(cb: CommandBuilder) -> Seq<Seq<char>> {
    cb.args@.map_values(|a: String| a@)
}

impl CommandBuilder {
    /// An empty argument list.
    pub fn new() -> (r: CommandBuilder)
        ensures
            args_model(r) == Seq::<Seq<char>>::empty(),
    {
        let r = CommandBuilder { args: Vec::new() };
        proof {
            assert(args_model(r) =~= Seq::<Seq<char>>::empty());
        }
        r
    }

    /// The list with one argument appended.
    pub fn arg(self, s: &str) -> (r: CommandBuilder)
        ensures
            args_model(r) == args_model(self).push(s@),
    {
        let ghost before = args_model(self);
        let mut args = self.args;
        args.push(String::from_str(s));
        let r = CommandBuilder { args };
        proof {
            assert(args_model(r) =~= before.push(s@));
        }
        r
    }

    /// The list with several arguments appended, in their given order.
    pub fn args(self, s: Vec<&str>) -> (r: CommandBuilder)
        ensures
            args_model(r) == args_model(self) + s@.map_values(|x: &str| x@),
    {
        let ghost before = args_model(self);
        let mut cur = self;
        let mut i: usize = 0;
        while i < s.len()
            invariant
                i <= s@.len(),
                args_model(cur) == before + s@.subrange(0, i as int).map_values(|x: &str| x@),
            decreases s@.len() - i,
        {
            cur = cur.arg(s[i]);
            proof {
                assert(args_model(cur) =~= before + s@.subrange(0, i as int + 1).map_values(
                    |x: &str| x@,
                ));
            }
            i += 1;
        }
        proof {
            assert(s@.subrange(0, s@.len() as int) =~= s@);
        }
        cur
    }
}

/// The invocation that asks whether a session of this name exists.
pub fn has_session(session_name: &str) -> (r: CommandBuilder)
    ensures
        args_model(r) == seq!["has-session"@, "-t"@, session_name@],
{
    let r = CommandBuilder::new().arg("has-session").arg("-t").arg(session_name);
    proof {
        assert(args_model(r) =~= seq!["has-session"@, "-t"@, session_name@]);
    }
    r
}

/// The invocation that terminates the named session.
pub fn kill_session(session_name: &str) -> (r: CommandBuilder)
    ensures
        args_model(r) == seq!["kill-session"@, "-t"@, session_name@],
{
    let r = CommandBuilder::new().arg("kill-session").arg("-t").arg(session_name);
    proof {
        assert(args_model(r) =~= seq!["kill-session"@, "-t"@, session_name@]);
    }
    r
}

/// The invocation that redirects the current client to the named session;
/// the safe move while inside the multiplexer.
pub fn switch_client(session_name: &str) -> (r: CommandBuilder)
    ensures
        args_model(r) == seq!["switch-client"@, "-t"@, session_name@],
{
    let r = CommandBuilder::new().arg("switch-client").arg("-t").arg(session_name);
    proof {
        assert(args_model(r) =~= seq!["switch-client"@, "-t"@, session_name@]);
    }
    r
}

/// The invocation that attaches this terminal to the named session; for use
/// outside the multiplexer only.
pub fn attach(session_name: &str) -> (r: CommandBuilder)
    ensures
        args_model(r) == seq!["attach"@, "-t"@, session_name@],
{
    let r = CommandBuilder::new().arg("attach").arg("-t").arg(session_name);
    proof {
        assert(args_model(r) =~= seq!["attach"@, "-t"@, session_name@]);
    }
    r
}

/// The invocation that creates a foreground session of this name rooted at
/// this path; for use outside the multiplexer only.
pub fn new_session(session_name: &str, path: &str) -> (r: CommandBuilder)
    ensures
        args_model(r) == seq!["new-session"@, "-s"@, session_name@, "-c"@, path@],
{
    let r = CommandBuilder::new().arg("new-session").arg("-s").arg(session_name).arg("-c").arg(
        path,
    );
    proof {
        assert(args_model(r) =~= seq!["new-session"@, "-s"@, session_name@, "-c"@, path@]);
    }
    r
}

/// The invocation that creates the named session rooted at this path without
/// binding any terminal to it.
pub fn new_session_detach(session_name: &str, path: &str) -> (r: CommandBuilder)
    ensures
        args_model(r) == seq!["new-session"@, "-ds"@, session_name@, "-c"@, path@],
{
    let r = CommandBuilder::new().arg("new-session").arg("-ds").arg(session_name).arg("-c").arg(
        path,
    );
    proof {
        assert(args_model(r) =~= seq!["new-session"@, "-ds"@, session_name@, "-c"@, path@]);
    }
    r
}

/// The one safe way to move to an existing session from anywhere: switch the
/// client while inside the multiplexer, attach while outside.
pub fn switch_sessions(session_name: &str, inside_multiplexer: bool) -> (r: CommandBuilder)
    ensures
        args_model(r) == if inside_multiplexer {
            seq!["switch-client"@, "-t"@, session_name@]
        } else {
            seq!["attach"@, "-t"@, session_name@]
        },
{
    if inside_multiplexer {
        switch_client(session_name)
    } else {
        attach(session_name)
    }
}

/// The argument lists, in order, that carry out a session action: nothing
/// for the deliberate no-op, a detached create followed by a switch for the
/// nested case, and a single invocation for each of the rest.
pub open spec fn action_commands_model(a: SessionAction) -> Seq<Seq<Seq<char>>> {
    match a {
        SessionAction::CreateForeground { name, path } => seq![
            seq!["new-session"@, "-s"@, name@, "-c"@, path@],
        ],
        SessionAction::AttachForeground { name } => seq![seq!["attach"@, "-t"@, name@]],
        SessionAction::CreateDetachedThenSwitch { name, path } => seq![
            seq!["new-session"@, "-ds"@, name@, "-c"@, path@],
            seq!["switch-client"@, "-t"@, name@],
        ],
        SessionAction::SwitchForeground { name } => seq![seq!["switch-client"@, "-t"@, name@]],
        SessionAction::NoOp => Seq::empty(),
    }
}

/// The invocations that carry out a session action, in the order they must
/// run.
pub fn action_commands(a: &SessionAction) -> (r: Vec<CommandBuilder>)
    ensures
        r@.map_values(|c: CommandBuilder| args_model(c)) == action_commands_model(*a),
{
    let mut out: Vec<CommandBuilder> = Vec::new();
    match a {
        SessionAction::CreateForeground { name, path } => {
            out.push(new_session(name.as_str(), path.as_str()));
        },
        SessionAction::AttachForeground { name } => {
            out.push(attach(name.as_str()));
        },
        SessionAction::CreateDetachedThenSwitch { name, path } => {
            out.push(new_session_detach(name.as_str(), path.as_str()));
            out.push(switch_client(name.as_str()));
        },
        SessionAction::SwitchForeground { name } => {
            out.push(switch_client(name.as_str()));
        },
        SessionAction::NoOp => {},
    }
    proof {
        assert(out@.map_values(|c: CommandBuilder| args_model(c)) =~= action_commands_model(*a));
    }
    out
}

/// One line of the session listing: trimmed, it must be a name wrapped in
/// single quotes, which come off.
pub open spec fn unquote(l: Seq<char>) -> Option<Seq<char>> {
    let t = trim_of(l);
    if t.len() >= 2 && t[0] == '\'' && t.last() == '\'' {
        Some(t.subrange(1, t.len() - 1))
    } else {
        None
    }
}

/// The session names a listing holds, or nothing when some line is not a
/// quoted name.
pub open spec fn sessions_of(t: Seq<char>) -> Option<Seq<Seq<char>>> {
    let ls = lines_of(t);
    if forall|i: int| 0 <= i < ls.len() ==> unquote(#[trigger] ls[i]) is Some {
        Some(
            Seq::new(
                ls.len(),
                |i: int|
                    match unquote(ls[i]) {
                        Some(n) => n,
                        None => Seq::empty(),
                    },
            ),
        )
    } else {
        None
    }
}

/// Decodes the multiplexer's session listing: one quoted name per line. The
/// first malformed line is rejected, by its index.
pub fn list_sessions(output: &str) -> (r: Result<Vec<String>, Error>)
    ensures
        r is Ok <==> sessions_of(output@) is Some,
        r matches Ok(v) ==> Some(v@.map_values(|s: String| s@)) == sessions_of(output@),
        r matches Err(e) ==> (e matches Error::InvalidSessionLine(i) && 0 <= i
            < lines_of(output@).len() && unquote(lines_of(output@)[i as int]) is None && (forall|
            j: int,
        | 0 <= j < i ==> unquote(#[trigger] lines_of(output@)[j]) is Some)),
{
    let ghost ls = lines_of(output@);
    let lines = split_lines(output);
    let mut out: Vec<String> = Vec::new();
    let mut i: usize = 0;
    while i < lines.len()
        invariant
            i <= lines@.len(),
            ls == lines_of(output@),
            lines@.map_values(|l: String| l@) == ls,
            out@.len() == i,
            forall|j: int| 0 <= j < i ==> unquote(#[trigger] ls[j]) is Some,
            forall|j: int|
                0 <= j < i ==> Some(#[trigger] out@[j]@) == unquote(ls[j]),
        decreases lines@.len() - i,
    {
        let t = trim(lines[i].as_str());
        let tlen = t.unicode_len();
        proof {
            assert(lines@[i as int]@ == ls[i as int]);
            assert(t@ == trim_of(ls[i as int]));
        }
        if tlen >= 2 && t.get_char(0) == '\'' && t.get_char(tlen - 1) == '\'' {
            let mid = t.substring_char(1, tlen - 1);
            out.push(String::from_str(mid));
        } else {
            return Err(Error::InvalidSessionLine(i));
        }
        i += 1;
    }
    proof {
        assert(sessions_of(output@) matches Some(names) && names =~= out@.map_values(
            |s: String| s@,
        ));
    }
    Ok(out)
}

} // verus!

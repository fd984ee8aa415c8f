//! Session reconciliation: decide which multiplexer action follows from the
//! current environment facts once the user has confirmed a directory.

use vstd::prelude::*;
use vstd::string::StrSliceExecFns;
use vstd::string::StringExecFns;
use crate::Error;

verus! {

/// The three environment facts consulted when a directory is confirmed.
/// They are queried fresh at confirm time and never cached.
#[derive(Clone, Copy, PartialEq, Eq, Structural)]
pub struct SessionFacts {
    /// The multiplexer daemon is running.
    pub daemon_running: bool,
    /// This process runs inside a multiplexer client.
    pub inside_multiplexer: bool,
    /// A session with the target name already exists.
    pub target_session_exists: bool,
}

/// The one action that follows from a set of facts. Name and path are the
/// session name and the directory the session is rooted at.
#[derive(Debug)]
pub enum SessionAction {
    /// Create a new foreground session; safe only outside the multiplexer.
    CreateForeground { name: String, path: String },
    /// Attach to an existing session; safe only outside the multiplexer.
    AttachForeground { name: String },
    /// Inside the multiplexer with no such session yet: create it detached,
    /// then switch the current client to it.
    CreateDetachedThenSwitch { name: String, path: String },
    /// Inside the multiplexer and the session exists: switch the client.
    SwitchForeground { name: String },
    /// The environment claims a multiplexer client but no daemon is
    /// reachable: an inconsistent environment, deliberately left alone.
    NoOp,
}

impl SessionAction {
    /// What each variant means, with its name and path, as ghost data.
    pub open spec fn modeled_by(
        self,
        facts: SessionFacts,
        name: Seq<char>,
        path: Seq<char>,
    ) -> bool {
        match (facts.daemon_running, facts.inside_multiplexer) {
            (false, false) => self matches SessionAction::CreateForeground { name: n, path: p }
                && n@ == name && p@ == path,
            (true, false) => if facts.target_session_exists {
                self matches SessionAction::AttachForeground { name: n } && n@ == name
            } else {
                self matches SessionAction::CreateForeground { name: n, path: p } && n@ == name
                    && p@ == path
            },
            (true, true) => if facts.target_session_exists {
                self matches SessionAction::SwitchForeground { name: n } && n@ == name
            } else {
                self matches SessionAction::CreateDetachedThenSwitch { name: n, path: p } && n@
                    == name && p@ == path
            },
            (false, true) => self is NoOp,
        }
    }
}

/// The full reconciliation table. Outside the multiplexer a foreground
/// create or attach is safe; inside it, only switch semantics are, creating
/// the session detached first when it does not exist yet; and a claimed
/// client without a reachable daemon is inconsistent, so nothing is done.
pub fn resolve_action(facts: SessionFacts, name: String, path: String) -> (action: SessionAction)
    ensures
        action.modeled_by(facts, name@, path@),
{
    match (facts.daemon_running, facts.inside_multiplexer) {
        (false, false) => SessionAction::CreateForeground { name, path },
        (true, false) => if facts.target_session_exists {
            SessionAction::AttachForeground { name }
        } else {
            SessionAction::CreateForeground { name, path }
        },
        (true, true) => if facts.target_session_exists {
            SessionAction::SwitchForeground { name }
        } else {
            SessionAction::CreateDetachedThenSwitch { name, path }
        },
        (false, true) => SessionAction::NoOp,
    }
}

/// `p` without its trailing path separators.
pub open spec fn drop_trailing_slashes(p: Seq<char>) -> Seq<char>
    decreases p.len(),
{
    if p.len() > 0 && p.last() == '/' {
        drop_trailing_slashes(p.drop_last())
    } else {
        p
    }
}

/// The suffix of `p` after its last path separator; all of `p` when it has
/// none.
pub open spec fn after_last_slash(p: Seq<char>) -> Seq<char>
    decreases p.len(),
{
    if p.len() == 0 {
        p
    } else if p.last() == '/' {
        Seq::empty()
    } else {
        after_last_slash(p.drop_last()).push(p.last())
    }
}

/// The session name a path yields: its final component, after trailing
/// separators come off; nothing when that component is empty or one of the
/// relative markers.
pub open spec fn session_name_spec(path: Seq<char>) -> Option<Seq<char>> {
    let name = after_last_slash(drop_trailing_slashes(path));
    if name.len() > 0 && name != seq!['.'] && name != seq!['.', '.'] {
        Some(name)
    } else {
        None
    }
}

/// The final path component that names the session, if the path has a usable
/// one.
pub fn session_name_of(path: &str) -> (r: Option<&str>)
    ensures
        match r {
            Some(n) => session_name_spec(path@) == Some(n@),
            None => session_name_spec(path@) is None,
        },
{
    let len = path.unicode_len();
    let mut end: usize = len;
    proof {
        assert(path@.subrange(0, len as int) =~= path@);
    }
    while end > 0 && path.get_char(end - 1) == '/'
        invariant
            end <= len,
            len == path@.len(),
            drop_trailing_slashes(path@) == drop_trailing_slashes(
                path@.subrange(0, end as int),
            ),
        decreases end,
    {
        proof {
            assert(path@.subrange(0, end as int).drop_last() =~= path@.subrange(
                0,
                end as int - 1,
            ));
        }
        end -= 1;
    }
    let ghost trimmed = path@.subrange(0, end as int);
    proof {
        assert(drop_trailing_slashes(path@) == trimmed);
    }
    let mut start: usize = end;
    proof {
        assert(after_last_slash(trimmed) + path@.subrange(end as int, end as int)
            =~= after_last_slash(trimmed));
    }
    while start > 0 && path.get_char(start - 1) != '/'
        invariant
            start <= end,
            end <= len,
            len == path@.len(),
            trimmed == path@.subrange(0, end as int),
            after_last_slash(trimmed) == after_last_slash(path@.subrange(0, start as int))
                + path@.subrange(start as int, end as int),
        decreases start,
    {
        proof {
            let head = path@.subrange(0, start as int);
            assert(head.last() == path@[start as int - 1]);
            assert(head.drop_last() =~= path@.subrange(0, start as int - 1));
            assert(after_last_slash(path@.subrange(0, start as int - 1)).push(
                path@[start as int - 1],
            ) + path@.subrange(start as int, end as int) =~= after_last_slash(
                path@.subrange(0, start as int - 1),
            ) + path@.subrange(start as int - 1, end as int));
        }
        start -= 1;
    }
    let ghost name = after_last_slash(trimmed);
    proof {
        if start == 0 {
            assert(path@.subrange(0, 0).len() == 0);
            assert(name =~= path@.subrange(0int, end as int));
        } else {
            assert(path@.subrange(0, start as int).last() == '/');
            assert(name =~= path@.subrange(start as int, end as int));
        }
    }
    let nlen = end - start;
    if nlen == 0 {
        return None;
    }
    if nlen == 1 && path.get_char(start) == '.' {
        proof {
            assert(name =~= seq!['.']);
        }
        return None;
    }
    if nlen == 2 && path.get_char(start) == '.' && path.get_char(start + 1) == '.' {
        proof {
            assert(name =~= seq!['.', '.']);
        }
        return None;
    }
    proof {
        if name == seq!['.'] {
            assert(name.len() == 1 && name[0] == '.');
            assert(path@[start as int] == '.');
        }
        if name == seq!['.', '.'] {
            assert(name.len() == 2 && name[0] == '.' && name[1] == '.');
            assert(path@[start as int] == '.' && path@[start as int + 1] == '.');
        }
    }
    Some(path.substring_char(start, end))
}

/// The confirm-time step: derive the session name from the confirmed path
/// and resolve the environment facts to the one action to carry out. A path
/// without a usable final component is rejected.
pub fn start_tmux(path: &str, facts: SessionFacts) -> (r: Result<SessionAction, Error>)
    ensures
        r is Ok <==> session_name_spec(path@) is Some,
        r matches Ok(a) ==> (session_name_spec(path@) matches Some(n) && a.modeled_by(
            facts,
            n,
            path@,
        )),
        r matches Err(e) ==> e == Error::MissingSessionName,
{
    match session_name_of(path) {
        Some(n) => {
            let name = String::from_str(n);
            let full = String::from_str(path);
            Ok(resolve_action(facts, name, full))
        },
        None => Err(Error::MissingSessionName),
    }
}

/// Every one of the eight combinations of the three facts is covered by the
/// table, and each row of the table pins the action down to one variant.
pub proof fn lemma_resolver_exhaustive(
    facts: SessionFacts,
    action: SessionAction,
    name: Seq<char>,
    path: Seq<char>,
)
    requires
        action.modeled_by(facts, name, path),
    ensures
        !facts.daemon_running && !facts.inside_multiplexer ==> (action matches
            SessionAction::CreateForeground { name: n, path: p } && n@ == name && p@ == path),
        facts.daemon_running && !facts.inside_multiplexer && !facts.target_session_exists
            ==> (action matches SessionAction::CreateForeground { name: n, path: p } && n@ == name
            && p@ == path),
        facts.daemon_running && !facts.inside_multiplexer && facts.target_session_exists
            ==> (action matches SessionAction::AttachForeground { name: n } && n@ == name),
        facts.daemon_running && facts.inside_multiplexer && facts.target_session_exists
            ==> (action matches SessionAction::SwitchForeground { name: n } && n@ == name),
        facts.daemon_running && facts.inside_multiplexer && !facts.target_session_exists
            ==> (action matches SessionAction::CreateDetachedThenSwitch { name: n, path: p } && n@
            == name && p@ == path),
        !facts.daemon_running && facts.inside_multiplexer ==> action is NoOp,
{
}

} // verus!

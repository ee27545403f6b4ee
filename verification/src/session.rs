//! The session-name widget: which session ids are used in a cache file
//! name, what a cache file holds, and which agent names a session.

use vstd::prelude::*;

use crate::input::{opt_view, StatusInput};
use crate::text::{chars_of, is_alnum, is_alnum_char, push_str, string_of, trim, trim_chars};

verus! {

/// How long a cached session name stays fresh.
pub const SESSION_NAME_TTL_SECS: u64 = 60;

/// A session id may name a cache file only when it holds nothing but ASCII
/// letters, digits and `-`.
pub open spec fn session_id_ok_of(sid: Seq<char>) -> bool {
    forall|i: int| 0 <= i < sid.len() ==> is_alnum(#[trigger] sid[i]) || sid[i] == '-'
}

/// Whether `sid` is safe to put in a cache file name.
pub fn session_id_ok(sid: &str) -> (r: bool)
    ensures
        r == session_id_ok_of(sid@),
{
    let v = chars_of(sid);
    for i in 0..v.len()
        invariant
            v@ == sid@,
            forall|j: int| 0 <= j < i ==> is_alnum(#[trigger] v@[j]) || v@[j] == '-',
    {
        if !(is_alnum_char(v[i]) || v[i] == '-') {
            assert(!(is_alnum(v@[i as int]) || v@[i as int] == '-'));
            return false;
        }
    }
    true
}

/// The session id of the payload, when it has one that is safe for a file name.
pub open spec fn cache_session_id_of(d: StatusInput) -> Option<Seq<char>> {
    match opt_view(d.session_id) {
        Some(sid) => if session_id_ok_of(sid) {
            Some(sid)
        } else {
            None
        },
        None => None,
    }
}

/// The session id whose cached name the widget shows.
pub fn cache_session_id(data: &StatusInput) -> (r: Option<String>)
    ensures
        opt_view(r) == cache_session_id_of(*data),
{
    match &data.session_id {
        Some(sid) => {
            if session_id_ok(sid.as_str()) {
                Some(sid.clone())
            } else {
                None
            }
        },
        None => None,
    }
}

/// The name of the cache file of a session, shared with the older
/// `session-name.cjs` script.
pub fn session_cache_file_name(sid: &str) -> (r: String)
    ensures
        r@ == "cc-session-name-"@ + sid@ + ".txt"@,
{
    let mut r = String::new();
    push_str(&mut r, "cc-session-name-");
    push_str(&mut r, sid);
    push_str(&mut r, ".txt");
    assert(r@ =~= "cc-session-name-"@ + sid@ + ".txt"@);
    r
}

/// The name a cache file holds: its trimmed text, unless that is empty.
pub open spec fn cached_name_of(content: Seq<char>) -> Option<Seq<char>> {
    let t = trim(content);
    if t.len() > 0 {
        Some(t)
    } else {
        None
    }
}

/// The session name that a cache file's text gives.
pub fn cached_session_name(content: &str) -> (r: Option<String>)
    ensures
        opt_view(r) == cached_name_of(content@),
{
    let v = chars_of(content);
    let t = trim_chars(&v);
    if t.len() > 0 {
        Some(string_of(&t))
    } else {
        None
    }
}

/// One element of the host CLI's `agents --json` array.
pub struct AgentEntry {
    /// `sessionId`, when it is a string.
    pub session_id: Option<String>,
    /// `name`, when it is a string.
    pub name: Option<String>,
}

/// Agent `i` is the first whose session id is `sid`.
pub open spec fn is_first_agent(agents: Seq<AgentEntry>, sid: Seq<char>, i: int) -> bool {
    0 <= i < agents.len() && opt_view(agents[i].session_id) == Some(sid) && forall|j: int|
        0 <= j < i ==> opt_view(#[trigger] agents[j].session_id) != Some(sid)
}

/// The name of the first agent of session `sid` (empty when it has none or
/// there is no such agent).
pub open spec fn agent_name_of(agents: Seq<AgentEntry>, sid: Seq<char>) -> Seq<char> {
    if exists|i: int| is_first_agent(agents, sid, i) {
        let i = choose|i: int| is_first_agent(agents, sid, i);
        match opt_view(agents[i].name) {
            Some(n) => n,
            None => Seq::empty(),
        }
    } else {
        Seq::empty()
    }
}

/// The name to cache for session `sid`, out of the agents list.
pub fn agent_name(agents: &Vec<AgentEntry>, sid: &str) -> (r: String)
    ensures
        r@ == agent_name_of(agents@, sid@),
{
    let sv = chars_of(sid);
    for i in 0..agents.len()
        invariant
            sv@ == sid@,
            forall|j: int| 0 <= j < i ==> opt_view(#[trigger] agents@[j].session_id) != Some(sid@),
    {
        let hit = match &agents[i].session_id {
            Some(s) => {
                let v = chars_of(s.as_str());
                crate::text::chars_eq(&v, &sv)
            },
            None => false,
        };
        if hit {
            assert(is_first_agent(agents@, sid@, i as int));
            let ghost k = choose|k: int| is_first_agent(agents@, sid@, k);
            assert(k == i) by {
                if k < i {
                    assert(opt_view(agents@[k].session_id) != Some(sid@));
                } else if k > i {
                    assert(opt_view(agents@[i as int].session_id) != Some(sid@));
                }
            }
            return match &agents[i].name {
                Some(n) => n.clone(),
                None => String::new(),
            };
        }
    }
    String::new()
}

} // verus!

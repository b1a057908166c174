//! The agent's file layout.  Paths are Unix paths held as text.
//!
//! All agent files live under `~/.cokacdir/agent/`: the markdown files, the
//! `workspace/` and `daily/` directories, `LAST_SESSION.txt` and the
//! heartbeat bookkeeping file.

use vstd::prelude::*;
use crate::text::push_str;

verus! {

/// `base` joined with `name`, as `Path::join` does on Unix: an absolute
/// `name` replaces `base`; otherwise a `'/'` goes between them unless `base`
/// is empty or already ends with one.
pub open spec fn join_path(base: Seq<char>, name: Seq<char>) -> Seq<char> {
    if name.len() > 0 && name[0] == '/' {
        name
    } else if base.len() == 0 || base.last() == '/' {
        base + name
    } else {
        base + seq!['/'] + name
    }
}

/// The agent root under a home directory: `<home>/.cokacdir/agent`.
pub open spec fn agent_root_path(home: Seq<char>) -> Seq<char> {
    join_path(join_path(home, ".cokacdir"@), "agent"@)
}

/// Executable `join_path`.
pub fn join(base: &str, name: &str) -> (r: String)
    ensures
        r@ == join_path(base@, name@),
{
    let nv = crate::text::chars_of(name);
    if nv.len() > 0 && nv[0] == '/' {
        let mut r = String::new();
        push_str(&mut r, name);
        assert(r@ =~= name@);
        return r;
    }
    let bv = crate::text::chars_of(base);
    let mut r = String::new();
    push_str(&mut r, base);
    if bv.len() > 0 && bv[bv.len() - 1] != '/' {
        crate::text::push_char(&mut r, '/');
    }
    push_str(&mut r, name);
    assert(r@ =~= join_path(base@, name@));
    r
}

/// The agent root for a given home directory.
pub fn agent_dir_in(home: &str) -> (r: String)
    ensures
        r@ == agent_root_path(home@),
{
    let base = join(home, ".cokacdir");
    join(base.as_str(), "agent")
}

/// Calls `dirs::home_dir`, the current user's home directory, and turns
/// the path into text (lossily, as `to_string_lossy` does).  What it returns
/// depends on the environment; the crate's source shows only that a home
/// directory it returns is never empty.
#[verifier::external_body]
fn home_dir() -> (r: Option<String>)
    ensures
        r matches Some(h) ==> h@.len() > 0,
{
    dirs::home_dir().map(|h| h.to_string_lossy().into_owned())
}

/// The agent root directory, `~/.cokacdir/agent/`, or `None` when the home
/// directory cannot be determined.
pub fn agent_dir() -> (r: Option<String>)
    ensures
        r matches Some(p) ==> exists|h: Seq<char>| h.len() > 0 && p@ == agent_root_path(h),
{
    match home_dir() {
        Some(h) => Some(agent_dir_in(h.as_str())),
        None => None,
    }
}

/// A file or directory directly under the agent root.
pub fn agent_entry(name: &str) -> (r: Option<String>)
    ensures
        r matches Some(p) ==> exists|h: Seq<char>|
            h.len() > 0 && p@ == join_path(agent_root_path(h), name@),
{
    match agent_dir() {
        Some(root) => Some(join(root.as_str(), name)),
        None => None,
    }
}

/// The workspace directory, `~/.cokacdir/agent/workspace/`.
pub fn workspace_dir() -> (r: Option<String>)
    ensures
        r matches Some(p) ==> exists|h: Seq<char>|
            h.len() > 0 && p@ == join_path(agent_root_path(h), "workspace"@),
{
    agent_entry("workspace")
}

/// The daily memo directory, `~/.cokacdir/agent/daily/`.
pub fn daily_dir() -> (r: Option<String>)
    ensures
        r matches Some(p) ==> exists|h: Seq<char>|
            h.len() > 0 && p@ == join_path(agent_root_path(h), "daily"@),
{
    agent_entry("daily")
}

/// The directory of the local semantic search agent,
/// `~/.cokacdir/local-agent/`.
pub fn local_agent_dir() -> (r: Option<String>)
    ensures
        r matches Some(p) ==> exists|h: Seq<char>|
            h.len() > 0 && p@ == join_path(join_path(h, ".cokacdir"@), "local-agent"@),
{
    match home_dir() {
        Some(h) => {
            let base = join(h.as_str(), ".cokacdir");
            Some(join(base.as_str(), "local-agent"))
        },
        None => None,
    }
}

/// The file that records the last heartbeat check (to the minute).
pub fn heartbeat_last_check_path() -> (r: Option<String>)
    ensures
        r matches Some(p) ==> exists|h: Seq<char>|
            h.len() > 0 && p@ == join_path(agent_root_path(h), ".heartbeat_last_check"@),
{
    agent_entry(".heartbeat_last_check")
}

} // verus!

//! Where a workspace persists: an explicit override, or a state-root base
//! joined with a project identity, the content address of the repository's
//! canonical git common directory.

use vstd::prelude::*;
use vstd::string::*;

use crate::digest::{hex_digest, hex_digest_spec};
use crate::error::WorkspaceError;
use crate::text::{str_bytes, utf8};

verus! {

/// `Path::join` on Unix: an absolute `b` replaces `a`; otherwise `b` is
/// appended with a separator unless `a` is empty or already ends in one.
pub open spec fn join_path(a: Seq<char>, b: Seq<char>) -> Seq<char> {
    if b.len() > 0 && b[0] == '/' {
        b
    } else if a.len() == 0 || a.last() == '/' {
        a + b
    } else {
        a + seq!['/'] + b
    }
}

pub fn join(a: &str, b: &str) -> (r: String)
    ensures
        r@ == join_path(a@, b@),
{
    let bn = b.unicode_len();
    if bn > 0 && b.get_char(0) == '/' {
        return b.to_owned();
    }
    let an = a.unicode_len();
    let mut r = a.to_owned();
    if an == 0 || a.get_char(an - 1) == '/' {
        r.append(b);
        r
    } else {
        proof {
            reveal_strlit("/");
        }
        r.append("/");
        r.append(b);
        r
    }
}

pub open spec fn present(v: Option<Seq<char>>) -> bool {
    v matches Some(x) && x.len() > 0
}

pub open spec fn opt_view(v: Option<&str>) -> Option<Seq<char>> {
    match v {
        Some(x) => Some(x@),
        None => None,
    }
}

pub open spec fn state_root_base_spec(
    state_root_override: Option<Seq<char>>,
    state_env: Option<Seq<char>>,
    xdg_state_home: Option<Seq<char>>,
    home: Option<Seq<char>>,
) -> Option<Seq<char>> {
    if state_root_override is Some {
        state_root_override
    } else if present(state_env) {
        state_env
    } else if present(xdg_state_home) {
        Some(join_path(xdg_state_home->0, "agent-workspace"@))
    } else if present(home) {
        Some(join_path(home->0, ".local/state/agent-workspace"@))
    } else {
        None
    }
}

pub open spec fn no_state_root_message() -> Seq<char> {
    "cannot resolve a state root: set --state-root, AGENT_WORKSPACE_STATE, XDG_STATE_HOME, or HOME"@
}

/// The identity subdirectory of a project: the digest of its canonical git
/// common directory (or of its canonical path outside git).
pub fn project_identity(canonical_source: &str) -> (r: String)
    ensures
        r@ == hex_digest_spec(utf8(canonical_source@)),
{
    let b = str_bytes(canonical_source);
    hex_digest(b.as_slice())
}

fn non_empty(v: Option<&str>) -> (r: bool)
    ensures
        r == present(opt_view(v)),
{
    match v {
        Some(x) => x.unicode_len() > 0,
        None => false,
    }
}

/// Resolve the state directory of a workspace. An explicit workspace is
/// used verbatim. Otherwise the base is the explicit state root, else a
/// non-empty `AGENT_WORKSPACE_STATE`, else `$XDG_STATE_HOME/agent-workspace`,
/// else `$HOME/.local/state/agent-workspace`; the project identity is
/// joined to it.
pub fn resolve_state_root(
    workspace_override: Option<&str>,
    state_root_override: Option<&str>,
    state_env: Option<&str>,
    xdg_state_home: Option<&str>,
    home: Option<&str>,
    project_identity: &str,
) -> (r: Result<String, WorkspaceError>)
    ensures
        workspace_override matches Some(w) ==> (r matches Ok(p) && p@ == w@),
        workspace_override is None ==> match state_root_base_spec(
            opt_view(state_root_override),
            opt_view(state_env),
            opt_view(xdg_state_home),
            opt_view(home),
        ) {
            Some(base) => r matches Ok(p) && p@ == join_path(base, project_identity@),
            None => r matches Err(WorkspaceError::InvalidPath(m)) && m@ == no_state_root_message(),
        },
{
    if let Some(w) = workspace_override {
        return Ok(w.to_owned());
    }
    let base: String = if let Some(s) = state_root_override {
        s.to_owned()
    } else if non_empty(state_env) {
        state_env.unwrap().to_owned()
    } else if non_empty(xdg_state_home) {
        join(xdg_state_home.unwrap(), "agent-workspace")
    } else if non_empty(home) {
        join(home.unwrap(), ".local/state/agent-workspace")
    } else {
        return Err(
            WorkspaceError::InvalidPath(
                "cannot resolve a state root: set --state-root, AGENT_WORKSPACE_STATE, XDG_STATE_HOME, or HOME".to_owned(),
            ),
        );
    };
    Ok(join(base.as_str(), project_identity))
}

} // verus!

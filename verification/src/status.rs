//! What herdr's socket API reports: workspaces, their git worktrees, agents and
//! the agent lifecycle state, plus the decisions the socket client makes that
//! do not need the socket itself.

use vstd::prelude::*;

use crate::text::same_text;

verus! {

/// A git worktree backing a workspace. Present only for workspaces opened
/// against a repository; plain shell workspaces omit it entirely.
#[derive(Debug)]
pub struct Worktree {
    /// Path to the repository's `.git`. Shared by every workspace pointing at the
    /// same repo, which makes it the natural grouping key for the map.
    pub repo_key: String,
    pub repo_name: String,
    pub repo_root: String,
    pub checkout_path: String,
    pub is_linked_worktree: bool,
}

impl Clone for Worktree {
    fn clone(&self) -> (r: Self)
        ensures
            r == *self,
    {
        Worktree {
            repo_key: self.repo_key.clone(),
            repo_name: self.repo_name.clone(),
            repo_root: self.repo_root.clone(),
            checkout_path: self.checkout_path.clone(),
            is_linked_worktree: self.is_linked_worktree,
        }
    }
}

/// One workspace in herdr's sidebar.
#[derive(Debug)]
pub struct Workspace {
    pub workspace_id: String,
    pub number: u32,
    pub label: String,
    pub focused: bool,
    pub pane_count: u32,
    pub tab_count: u32,
    pub agent_status: String,
    pub worktree: Option<Worktree>,
}

impl Clone for Workspace {
    fn clone(&self) -> (r: Self)
        ensures
            r == *self,
    {
        Workspace {
            workspace_id: self.workspace_id.clone(),
            number: self.number,
            label: self.label.clone(),
            focused: self.focused,
            pane_count: self.pane_count,
            tab_count: self.tab_count,
            agent_status: self.agent_status.clone(),
            worktree: match &self.worktree {
                Some(w) => Some(w.clone()),
                None => None,
            },
        }
    }
}

/// One agent attached to a pane.
#[derive(Debug)]
pub struct Agent {
    pub pane_id: String,
    pub workspace_id: String,
    pub agent: String,
    /// Title the agent set on its pane, with herdr's state glyph removed. For
    /// most agents this is the current task, which is the only field that
    /// distinguishes one row from another when every agent reports one name.
    pub terminal_title_stripped: Option<String>,
    pub agent_status: String,
    pub focused: bool,
    /// Monotonic counter bumped on every state transition. herdr exposes no
    /// wall-clock timestamp for agent activity, so this stands in for the
    /// "recency" score that drives node size and brightness.
    pub state_change_seq: u64,
    pub cwd: String,
}

impl Clone for Agent {
    fn clone(&self) -> (r: Self)
        ensures
            r == *self,
    {
        Agent {
            pane_id: self.pane_id.clone(),
            workspace_id: self.workspace_id.clone(),
            agent: self.agent.clone(),
            terminal_title_stripped: match &self.terminal_title_stripped {
                Some(t) => Some(t.clone()),
                None => None,
            },
            agent_status: self.agent_status.clone(),
            focused: self.focused,
            state_change_seq: self.state_change_seq,
            cwd: self.cwd.clone(),
        }
    }
}

/// Agent lifecycle state: the five variants of herdr's `AgentStatus`.
#[derive(Debug, Clone, Copy, PartialEq, Eq, Structural)]
pub enum Status {
    /// Waiting on the user — an approval prompt or a question.
    Blocked,
    /// Finished its task and idle-but-unread.
    Done,
    Working,
    Idle,
    Unknown,
}

/// The status a wire name denotes; anything unrecognised is `Unknown`.
pub open spec fn status_named(s: Seq<char>) -> Status {
    if s == "blocked"@ {
        Status::Blocked
    } else if s == "done"@ {
        Status::Done
    } else if s == "working"@ {
        Status::Working
    } else if s == "idle"@ {
        Status::Idle
    } else {
        Status::Unknown
    }
}

/// The glyph herdr's own sidebar shows for a status.
pub open spec fn glyph_of(s: Status) -> Seq<char> {
    match s {
        Status::Blocked => "\u{26a0}"@,
        Status::Done => "\u{25cf}"@,
        Status::Working => "\u{2733}"@,
        Status::Idle => "\u{2713}"@,
        Status::Unknown => "\u{b7}"@,
    }
}

/// The wire name of a status.
pub open spec fn label_of(s: Status) -> Seq<char> {
    match s {
        Status::Blocked => "blocked"@,
        Status::Done => "done"@,
        Status::Working => "working"@,
        Status::Idle => "idle"@,
        Status::Unknown => "unknown"@,
    }
}

/// Sort weight for attention: lower is more urgent.
pub open spec fn urgency(s: Status) -> u8 {
    match s {
        Status::Blocked => 0,
        Status::Done => 1,
        Status::Working => 2,
        Status::Idle => 3,
        Status::Unknown => 4,
    }
}

impl Status {
    /// Parse a wire name; anything unrecognised degrades to `Unknown`.
    pub fn parse(s: &str) -> (r: Status)
        ensures
            r == status_named(s@),
    {
        if same_text(s, "blocked") {
            Status::Blocked
        } else if same_text(s, "done") {
            Status::Done
        } else if same_text(s, "working") {
            Status::Working
        } else if same_text(s, "idle") {
            Status::Idle
        } else {
            Status::Unknown
        }
    }

    /// Glyphs match the ones herdr renders in its own sidebar, so the map reads
    /// the same way as the panel next to it.
    pub fn glyph(self) -> (r: &'static str)
        ensures
            r@ == glyph_of(self),
    {
        match self {
            Status::Blocked => "\u{26a0}",
            Status::Done => "\u{25cf}",
            Status::Working => "\u{2733}",
            Status::Idle => "\u{2713}",
            Status::Unknown => "\u{b7}",
        }
    }

    /// The wire name of this status.
    pub fn label(self) -> (r: &'static str)
        ensures
            r@ == label_of(self),
    {
        match self {
            Status::Blocked => "blocked",
            Status::Done => "done",
            Status::Working => "working",
            Status::Idle => "idle",
            Status::Unknown => "unknown",
        }
    }

    /// Sort weight for attention. `Done` ranks just under `Blocked`: neither is
    /// making progress, and both are waiting on a human to look at them.
    pub fn priority(self) -> (r: u8)
        ensures
            r == urgency(self),
    {
        match self {
            Status::Blocked => 0,
            Status::Done => 1,
            Status::Working => 2,
            Status::Idle => 3,
            Status::Unknown => 4,
        }
    }
}

/// Parsing the wire name of any status gives that status back.
pub proof fn label_round_trips(s: Status)
    ensures
        status_named(label_of(s)) == s,
{
    reveal_strlit("blocked");
    reveal_strlit("done");
    reveal_strlit("working");
    reveal_strlit("idle");
    reveal_strlit("unknown");
    assert("done"@ != "blocked"@) by { assert("done"@.len() != "blocked"@.len()); }
    assert("working"@ != "blocked"@) by { assert("working"@[0] != "blocked"@[0]); }
    assert("working"@ != "done"@) by { assert("working"@.len() != "done"@.len()); }
    assert("idle"@ != "blocked"@) by { assert("idle"@.len() != "blocked"@.len()); }
    assert("idle"@ != "done"@) by { assert("idle"@[0] != "done"@[0]); }
    assert("idle"@ != "working"@) by { assert("idle"@.len() != "working"@.len()); }
    assert("unknown"@ != "blocked"@) by { assert("unknown"@[0] != "blocked"@[0]); }
    assert("unknown"@ != "done"@) by { assert("unknown"@.len() != "done"@.len()); }
    assert("unknown"@ != "working"@) by { assert("unknown"@[0] != "working"@[0]); }
    assert("unknown"@ != "idle"@) by { assert("unknown"@.len() != "idle"@.len()); }
}

/// No two statuses share a priority, so sorting by priority orders them fully.
pub proof fn priority_is_injective(a: Status, b: Status)
    ensures
        urgency(a) == urgency(b) ==> a == b,
{
}

/// No two statuses share a glyph.
pub proof fn glyphs_are_distinct(a: Status, b: Status)
    ensures
        glyph_of(a) == glyph_of(b) ==> a == b,
{
    reveal_strlit("\u{26a0}");
    reveal_strlit("\u{25cf}");
    reveal_strlit("\u{2733}");
    reveal_strlit("\u{2713}");
    reveal_strlit("\u{b7}");
    if glyph_of(a) == glyph_of(b) {
        assert(glyph_of(a)[0] == glyph_of(b)[0]);
    }
}

// ---------------------------------------------------------------------------
// The socket client's decisions
// ---------------------------------------------------------------------------

/// The path `Path::join` produces for `base` and `rel`.
pub uninterp spec fn joined_path(base: Seq<char>, rel: Seq<char>) -> Seq<char>;

/// Calls `Path::join`. Its component rules (separators, absolute `rel`) are
/// std's; the contract only names the result.
#[verifier::external_body]
pub(crate) fn join_path(base: &str, rel: &str) -> (r: String)
    ensures
        r@ == joined_path(base@, rel@),
{
    std::path::Path::new(base).join(rel).to_string_lossy().into_owned()
}

/// Where the socket lives below `$HOME` when herdr did not say.
pub open spec fn home_socket_suffix() -> Seq<char> {
    ".config/herdr/herdr.sock"@
}

/// Why no socket path could be chosen.
#[derive(Debug, Clone, Copy, PartialEq, Eq, Structural)]
pub enum SocketError {
    /// Neither `HERDR_SOCKET_PATH` nor `HOME` is set.
    NoEnvironment,
}

/// A connection target for herdr's unix-socket API.
#[derive(Debug)]
pub struct Client {
    socket: String,
}

impl Client {
    /// The socket this client talks to.
    pub closed spec fn socket_path(&self) -> Seq<char> {
        self.socket@
    }

    /// A client for the socket at `socket`.
    pub fn at(socket: String) -> (c: Client)
        ensures
            c.socket_path() == socket@,
    {
        Client { socket }
    }

    /// The socket path, for connecting and for messages.
    pub fn socket(&self) -> (r: &str)
        ensures
            r@ == self.socket_path(),
    {
        self.socket.as_str()
    }

    /// Choose the socket the way herdr's own CLI does: `HERDR_SOCKET_PATH` when
    /// set, which herdr sets for every plugin process, else
    /// `$HOME/.config/herdr/herdr.sock`. `herdr_socket_path` and `home` are the
    /// two variables' values.
    pub fn resolve(herdr_socket_path: Option<String>, home: Option<String>) -> (r: Result<
        Client,
        SocketError,
    >)
        ensures
            match herdr_socket_path {
                Some(p) => r matches Ok(c) && c.socket_path() == p@,
                None => match home {
                    Some(h) => r matches Ok(c) && c.socket_path() == joined_path(
                        h@,
                        home_socket_suffix(),
                    ),
                    None => r == Err::<Client, SocketError>(SocketError::NoEnvironment),
                },
            },
    {
        match herdr_socket_path {
            Some(p) => Ok(Client::at(p)),
            None => match home {
                Some(h) => {
                    let suffix = ".config/herdr/herdr.sock";
                    let joined = join_path(h.as_str(), suffix);
                    Ok(Client::at(joined))
                },
                None => Err(SocketError::NoEnvironment),
            },
        }
    }
}

/// The `error` member of a reply envelope.
#[derive(Debug)]
pub struct ApiError {
    pub code: String,
    pub message: String,
}

/// How a call failed after the reply line was read.
#[derive(Debug)]
pub enum CallError {
    /// The server sent a blank line.
    EmptyReply,
    /// The server answered with an error object.
    Failed(ApiError),
    /// The envelope carried neither `result` nor `error`.
    NoResult,
}

/// Reject a blank reply line before it is decoded.
pub fn check_reply_line(line: &str) -> (r: Result<(), CallError>)
    ensures
        r is Ok <==> !crate::text::blank(line@),
        r is Err ==> r matches Err(CallError::EmptyReply),
{
    if crate::text::is_blank(line) {
        Err(CallError::EmptyReply)
    } else {
        Ok(())
    }
}

/// Settle a decoded envelope: an error object wins over a result, and an
/// envelope with neither is itself an error.
pub fn settle_reply<T>(error: Option<ApiError>, result: Option<T>) -> (r: Result<T, CallError>)
    ensures
        match error {
            Some(e) => r matches Err(CallError::Failed(f)) && f == e,
            None => match result {
                Some(v) => r == Ok::<T, CallError>(v),
                None => r matches Err(CallError::NoResult),
            },
        },
{
    match error {
        Some(e) => Err(CallError::Failed(e)),
        None => match result {
            Some(v) => Ok(v),
            None => Err(CallError::NoResult),
        },
    }
}

} // verus!

//! Messages between the mobile client and the daemon, and what the daemon
//! does on each message it receives.

use vstd::prelude::*;

verus! {

broadcast use vstd::string::group_string_axioms;

/// Metadata about a single PTY session.
pub struct SessionInfo {
    pub id: String,
    pub cli: String,
    pub status: String,
    pub inject_port: u16,
}

/// Messages sent from the client to the daemon (JSON text frames).
pub enum ClientMessage {
    /// Spawn a new session of the named command-line tool.
    Spawn { cli: String },
    /// Approve or deny a tool-call request; `id` is `<session_id>:<nonce>`.
    Approve { id: String, decision: bool },
    /// Send text input to a PTY session.
    Input { session_id: String, data: String },
    /// Resize a PTY session terminal.
    Resize { session_id: String, cols: u16, rows: u16 },
    /// Kill a PTY session.
    Kill { session_id: String },
    /// Request the current session list.
    ListSessions,
}

/// What the daemon does on a client message.
pub enum ClientAction {
    /// Spawn a PTY session for the CLI tool and forward its output.
    Spawn { cli: String },
    /// Type `data` into the PTY of the session.
    Inject { session_id: String, data: String },
    /// Answer the pending approval of the session.
    Approve { session_id: String, approved: bool },
    /// Kill the session and drop it from the table.
    Kill { session_id: String },
    /// Answer the client with the current session list (`SessionTable::list`).
    SendSessionList,
    /// Resize the terminal of the session to `cols` columns and `rows` rows.
    Resize { session_id: String, cols: u16, rows: u16 },
}

/// `s` up to, and without, the first `c`; all of `s` when it holds none.
pub open spec fn before_first(s: Seq<char>, c: char) -> Seq<char>
    decreases s.len(),
{
    if s.len() == 0 {
        s
    } else if s[0] == c {
        Seq::empty()
    } else {
        seq![s[0]] + before_first(s.drop_first(), c)
    }
}

proof fn lemma_before_first_at(s: Seq<char>, c: char, i: int)
    requires
        0 <= i <= s.len(),
        forall|k: int| 0 <= k < i ==> (#[trigger] s[k]) != c,
        i == s.len() || s[i] == c,
    ensures
        before_first(s, c) == s.subrange(0, i),
    decreases i,
{
    if i == 0 {
        if s.len() == 0 {
            assert(s.subrange(0, 0) =~= s);
        } else {
            assert(s.subrange(0, 0) =~= Seq::<char>::empty());
        }
    } else {
        let t = s.drop_first();
        assert forall|k: int| 0 <= k < i - 1 implies (#[trigger] t[k]) != c by {
            assert(t[k] == s[k + 1]);
        }
        lemma_before_first_at(t, c, i - 1);
        assert(seq![s[0]] + t.subrange(0, i - 1) =~= s.subrange(0, i));
    }
}

/// The session id of an approval id `<session_id>:<nonce>`: the text before
/// the first `:`.
pub fn approval_session_id(id: &str) -> (r: String)
    ensures
        r@ == before_first(id@, ':'),
{
    let v = crate::text::to_chars(id);
    let mut r = String::new();
    let mut i: usize = 0;
    while i < v.len() && v[i] != ':'
        invariant
            i <= v.len(),
            v@ == id@,
            r@ == id@.subrange(0, i as int),
            forall|k: int| 0 <= k < i ==> (#[trigger] id@[k]) != ':',
        decreases v.len() - i,
    {
        r.push(v[i]);
        i = i + 1;
        assert(r@ =~= id@.subrange(0, i as int));
    }
    proof {
        lemma_before_first_at(id@, ':', i as int);
    }
    r
}

/// `a` is what the daemon does on `m`.
pub open spec fn action_for(m: ClientMessage, a: ClientAction) -> bool {
    match m {
        ClientMessage::Spawn { cli } => a matches ClientAction::Spawn { cli: c } && c@ == cli@,
        ClientMessage::Input { session_id, data } => a matches ClientAction::Inject { session_id: s, data: d }
            && s@ == session_id@ && d@ == data@,
        ClientMessage::Approve { id, decision } => a matches ClientAction::Approve { session_id: s, approved }
            && s@ == before_first(id@, ':') && approved == decision,
        ClientMessage::Kill { session_id } => a matches ClientAction::Kill { session_id: s } && s@ == session_id@,
        ClientMessage::ListSessions => a is SendSessionList,
        ClientMessage::Resize { session_id, cols, rows } => a matches ClientAction::Resize { session_id: s, cols: c, rows: r }
            && s@ == session_id@ && c == cols && r == rows,
    }
}

/// What the daemon does on the client message `m`.
pub fn handle_client_message(m: ClientMessage) -> (a: ClientAction)
    ensures
        action_for(m, a),
        m matches ClientMessage::Approve { decision, .. } ==> (a matches ClientAction::Approve { approved, .. }
            && approved == decision),
{
    match m {
        ClientMessage::Spawn { cli } => ClientAction::Spawn { cli },
        ClientMessage::Input { session_id, data } => ClientAction::Inject { session_id, data },
        ClientMessage::Approve { id, decision } => ClientAction::Approve {
            session_id: approval_session_id(id.as_str()),
            approved: decision,
        },
        ClientMessage::Kill { session_id } => ClientAction::Kill { session_id },
        ClientMessage::ListSessions => ClientAction::SendSessionList,
        ClientMessage::Resize { session_id, cols, rows } => ClientAction::Resize { session_id, cols, rows },
    }
}


/// The session id of the approval id `<session_id>:<nonce>` is `session_id`,
/// whatever the nonce, when the session id holds no `:`.
pub proof fn lemma_approval_id_round_trip(session_id: Seq<char>, nonce: Seq<char>)
    requires
        forall|i: int| 0 <= i < session_id.len() ==> #[trigger] session_id[i] != ':',
    ensures
        before_first(session_id + seq![':'] + nonce, ':') == session_id,
{
    let s = session_id + seq![':'] + nonce;
    assert forall|k: int| 0 <= k < session_id.len() implies (#[trigger] s[k]) != ':' by {
        assert(s[k] == session_id[k]);
    }
    lemma_before_first_at(s, ':', session_id.len() as int);
    assert(s.subrange(0, session_id.len() as int) =~= session_id);
}

/// An approval is answered with the user's decision: a denial
/// (`decision == false`) is never turned into an approval, nor an
/// approval into a denial, and the answer goes to the session named by the
/// part of the id before its first `:`.
pub proof fn lemma_approval_decision_kept(m: ClientMessage, a: ClientAction)
    requires
        action_for(m, a),
    ensures
        m matches ClientMessage::Approve { id, decision } ==> (a matches ClientAction::Approve {
            session_id,
            approved,
        } && approved == decision && session_id@ == before_first(id@, ':')),
{
}

} // verus!

//! Server-side per-connection state machine.
//!
//! One `ConnectionSession` pairs one accepted connection with one read
//! cursor into the shared `MessageLog` and one mutable current-identity
//! slot.  `session_step` is the mathematical transition relation;
//! `handle_request` is the verified executable that follows it exactly.
//! The caller (which owns the socket) reads one request, takes the log's
//! mutual-exclusion lock, calls `handle_request`, releases the lock, and
//! writes exactly one response before reading the next request.

use crate::message_log::{snapshot_spec, MessageLog};
use crate::socketevent::{
    entries_to_pairs, EntryView, EventView, IdentityState, IdentityStateView, LogEntry,
    SocketEvent,
};
use vstd::prelude::*;

verus! {

/// Why a session must terminate, without affecting any other session or
/// the shared log.
#[derive(Debug, Clone, Copy, PartialEq, Eq)]
pub enum SessionError {
    /// The peer sent a response variant where a request was expected.
    UnsupportedRequest,
}

/// Mathematical model of a session: how many entries its connection has
/// already been sent, and the identity its future messages will carry.
#[verifier::ext_equal]
pub struct SessionView {
    pub cursor: int,
    pub identity: IdentityStateView,
}

impl SessionView {
    /// A session never claims to have delivered more entries than the log
    /// holds.
    pub open spec fn wf(self, log: Seq<EntryView>) -> bool {
        0 <= self.cursor <= log.len()
    }
}

/// The transition relation of a session: from a session state, a log and
/// one request to the next session state, the next log and the single
/// response (or the error that terminates the session).
pub open spec fn session_step(s: SessionView, log: Seq<EntryView>, req: EventView) -> (
    SessionView,
    Seq<EntryView>,
    Result<EventView, SessionError>,
) {
    match req {
        EventView::SendMessage(text) => (
            s,
            log.push(EntryView { sender: s.identity, text: text }),
            Ok(EventView::MessageReceived),
        ),
        EventView::RequestMessages => (
            SessionView { cursor: log.len() as int, identity: s.identity },
            log,
            Ok(EventView::Messages(snapshot_spec(log, s.cursor))),
        ),
        EventView::ProvideIdentity(name) => (
            SessionView { cursor: s.cursor, identity: IdentityStateView::Known(name) },
            log,
            Ok(EventView::IdentityReceived),
        ),
        _ => (s, log, Err(SessionError::UnsupportedRequest)),
    }
}

/// Server-side state for one accepted connection.
pub struct ConnectionSession {
    cursor: usize,
    identity: IdentityState,
}

impl View for ConnectionSession {
    type V = SessionView;

    closed spec fn view(&self) -> SessionView {
        SessionView { cursor: self.cursor as int, identity: self.identity@ }
    }
}

impl ConnectionSession {
    /// A fresh session: nothing delivered yet, no identity declared.
    pub fn new() -> (r: ConnectionSession)
        ensures
            r@ == (SessionView { cursor: 0, identity: IdentityStateView::Unknown }),
    {
        ConnectionSession { cursor: 0, identity: IdentityState::Unknown }
    }

    /// The number of entries already delivered to this connection.
    pub fn cursor(&self) -> (c: usize)
        ensures
            c == self@.cursor,
    {
        self.cursor
    }

    /// Handles one request against the shared log and produces the single
    /// response owed for it, following `session_step` exactly:
    /// `SendMessage` appends one entry tagged with the current identity and
    /// answers `MessageReceived`; `RequestMessages` answers `Messages` with
    /// everything this connection has not yet seen and advances the cursor
    /// to the observed length; `ProvideIdentity` replaces the current
    /// identity for later messages only and answers `IdentityReceived`;
    /// a response variant used as a request is an error that terminates
    /// the session and leaves the log and the session unchanged.
    pub fn handle_request(&mut self, log: &mut MessageLog, req: SocketEvent) -> (r: Result<
        SocketEvent,
        SessionError,
    >)
        requires
            old(self)@.wf(old(log)@),
        ensures
            ({
                let (s2, log2, resp) = session_step(old(self)@, old(log)@, req@);
                &&& final(self)@ == s2
                &&& final(log)@ == log2
                &&& match (r, resp) {
                    (Ok(a), Ok(b)) => a@ == b,
                    (Err(a), Err(b)) => a == b,
                    _ => false,
                }
                &&& final(self)@.wf(final(log)@)
            }),
    {
        match req {
            SocketEvent::SendMessage(text) => {
                let entry = LogEntry { sender: self.identity.duplicate(), text: text };
                log.append(entry);
                Ok(SocketEvent::MessageReceived)
            },
            SocketEvent::RequestMessages => {
                let (entries, new_cursor) = log.snapshot_from(self.cursor);
                let pairs = entries_to_pairs(&entries);
                self.cursor = new_cursor;
                Ok(SocketEvent::Messages(pairs))
            },
            SocketEvent::ProvideIdentity(id) => {
                self.identity = IdentityState::Known(id);
                Ok(SocketEvent::IdentityReceived)
            },
            SocketEvent::Messages(_) => Err(SessionError::UnsupportedRequest),
            SocketEvent::MessageReceived => Err(SessionError::UnsupportedRequest),
            SocketEvent::IdentityReceived => Err(SessionError::UnsupportedRequest),
        }
    }
}

/// Law: no step ever removes, reorders or retags a stored entry — the log
/// after any step extends the log before it.
pub proof fn lemma_entries_immutable(s: SessionView, log: Seq<EntryView>, req: EventView)
    ensures
        ({
            let (s2, log2, r) = session_step(s, log, req);
            &&& log2.len() >= log.len()
            &&& log == log2.take(log.len() as int)
        }),
{
    let (s2, log2, r) = session_step(s, log, req);
    assert(log =~= log2.take(log.len() as int));
}

/// Law: identity tagging is point-in-time.  A message appended while the
/// current identity is `Known(a)` keeps that tag even after the same
/// connection later declares another identity: the later declaration
/// touches no stored entry.
pub proof fn lemma_identity_tag_point_in_time(
    s: SessionView,
    log: Seq<EntryView>,
    text: Seq<char>,
    later_name: Seq<char>,
)
    ensures
        ({
            let (s1, log1, r1) = session_step(s, log, EventView::SendMessage(text));
            let (s2, log2, r2) = session_step(s1, log1, EventView::ProvideIdentity(later_name));
            &&& log2 == log1
            &&& log2[log.len() as int] == (EntryView { sender: s.identity, text: text })
            &&& s2.identity == IdentityStateView::Known(later_name)
        }),
{
}

/// Law: session isolation.  A step that fails (and so terminates its
/// session) leaves the shared log unchanged, so the snapshot owed to any
/// other session, at any cursor, is exactly what it was before.
pub proof fn lemma_session_isolation(
    s: SessionView,
    log: Seq<EntryView>,
    req: EventView,
    other_cursor: int,
)
    ensures
        ({
            let (s2, log2, r) = session_step(s, log, req);
            r is Err ==> {
                &&& log2 == log
                &&& s2 == s
                &&& snapshot_spec(log2, other_cursor) == snapshot_spec(log, other_cursor)
            }
        }),
{
}

} // verus!

use vstd::prelude::*;

verus! {

/// A participant's display name, declared by a client and replaced (never
/// mutated) by a later declaration on the same connection.
#[derive(Debug, Clone, PartialEq, Eq)]
pub struct Identity {
    pub username: String,
}

/// The sender attached to a stored message: either a declared identity or
/// `Unknown` for a connection that has not declared one yet.
#[derive(Debug, Clone, PartialEq, Eq)]
pub enum IdentityState {
    Known(Identity),
    Unknown,
}

/// One stored chat message with the sender attribution frozen onto it at
/// append time.
#[derive(Debug, Clone, PartialEq, Eq)]
pub struct LogEntry {
    pub sender: IdentityState,
    pub text: String,
}

/// A wire-level message: the request variants (`SendMessage`,
/// `RequestMessages`, `ProvideIdentity`) and the response variants
/// (`MessageReceived`, `Messages`, `IdentityReceived`).
#[derive(Debug, Clone, PartialEq, Eq)]
pub enum SocketEvent {
    SendMessage(String),
    Messages(Vec<(IdentityState, String)>),
    ProvideIdentity(Identity),
    RequestMessages,
    MessageReceived,
    IdentityReceived,
}

/// Mathematical model of an `IdentityState`: the sender as a character
/// sequence, or unknown.
#[verifier::ext_equal]
pub enum IdentityStateView {
    Known(Seq<char>),
    Unknown,
}

/// Mathematical model of one stored entry.
#[verifier::ext_equal]
pub struct EntryView {
    pub sender: IdentityStateView,
    pub text: Seq<char>,
}

/// Mathematical model of a wire-level message.
#[verifier::ext_equal]
pub enum EventView {
    SendMessage(Seq<char>),
    Messages(Seq<EntryView>),
    ProvideIdentity(Seq<char>),
    RequestMessages,
    MessageReceived,
    IdentityReceived,
}

impl View for Identity {
    type V = Seq<char>;

    open spec fn view(&self) -> Seq<char> {
        self.username@
    }
}

impl View for IdentityState {
    type V = IdentityStateView;

    open spec fn view(&self) -> IdentityStateView {
        match self {
            IdentityState::Known(id) => IdentityStateView::Known(id@),
            IdentityState::Unknown => IdentityStateView::Unknown,
        }
    }
}

impl View for LogEntry {
    type V = EntryView;

    open spec fn view(&self) -> EntryView {
        EntryView { sender: self.sender@, text: self.text@ }
    }
}

/// The model of one `(sender, text)` pair as carried by `Messages`.
pub open spec fn pair_view(p: (IdentityState, String)) -> EntryView {
    EntryView { sender: p.0@, text: p.1@ }
}

/// The model of the entry list carried by `Messages`.
pub open spec fn pairs_view(v: Seq<(IdentityState, String)>) -> Seq<EntryView> {
    v.map_values(|p: (IdentityState, String)| pair_view(p))
}

impl View for SocketEvent {
    type V = EventView;

    open spec fn view(&self) -> EventView {
        match self {
            SocketEvent::SendMessage(t) => EventView::SendMessage(t@),
            SocketEvent::Messages(v) => EventView::Messages(pairs_view(v@)),
            SocketEvent::ProvideIdentity(id) => EventView::ProvideIdentity(id@),
            SocketEvent::RequestMessages => EventView::RequestMessages,
            SocketEvent::MessageReceived => EventView::MessageReceived,
            SocketEvent::IdentityReceived => EventView::IdentityReceived,
        }
    }
}

impl Identity {
    /// A fresh value naming the same participant.
    pub fn duplicate(&self) -> (r: Identity)
        ensures
            r@ == self@,
    {
        Identity { username: self.username.clone() }
    }
}

impl IdentityState {
    /// A fresh value carrying the same attribution.
    pub fn duplicate(&self) -> (r: IdentityState)
        ensures
            r@ == self@,
    {
        match self {
            IdentityState::Known(id) => IdentityState::Known(id.duplicate()),
            IdentityState::Unknown => IdentityState::Unknown,
        }
    }
}

impl LogEntry {
    /// A fresh entry with the same sender tag and text.
    pub fn duplicate(&self) -> (r: LogEntry)
        ensures
            r@ == self@,
    {
        LogEntry { sender: self.sender.duplicate(), text: self.text.clone() }
    }
}

/// The model of a sequence of stored entries.
pub open spec fn entries_view(s: Seq<LogEntry>) -> Seq<EntryView> {
    s.map_values(|e: LogEntry| e@)
}

/// Turns log entries into the `(sender, text)` pairs that the `Messages`
/// response carries, keeping order and content.
pub fn entries_to_pairs(entries: &Vec<LogEntry>) -> (r: Vec<(IdentityState, String)>)
    ensures
        pairs_view(r@) == entries_view(entries@),
{
    let mut out: Vec<(IdentityState, String)> = Vec::new();
    let n: usize = entries.len();
    let mut i: usize = 0;
    while i < n
        invariant
            n == entries@.len(),
            i <= n,
            out@.len() == i,
            forall|j: int| 0 <= j < i ==> pair_view(out@[j]) == entries@[j]@,
        decreases n - i,
    {
        let e = &entries[i];
        out.push((e.sender.duplicate(), e.text.clone()));
        i = i + 1;
    }
    proof {
        assert(pairs_view(out@) =~= entries_view(entries@));
    }
    out
}

} // verus!

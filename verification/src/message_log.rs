//! The server's shared append-only message log.
//!
//! One `MessageLog` value exists per server process; every connection
//! session holds a shared reference to it behind a mutual-exclusion lock
//! owned by the caller.  Entries are never removed, reordered or mutated:
//! the sequence only grows, and `snapshot_spec` describes exactly what a
//! reader at a given cursor is owed.

use crate::socketevent::{entries_view, EntryView, LogEntry};
use vstd::prelude::*;

verus! {

/// The slice of the log that a reader whose cursor is `cursor` has not yet
/// seen: everything from `cursor` to the end, in log order.
pub open spec fn snapshot_spec(log: Seq<EntryView>, cursor: int) -> Seq<EntryView>
    recommends
        0 <= cursor <= log.len(),
{
    log.subrange(cursor, log.len() as int)
}

/// The log after appending `appended`, one entry at a time, in order.
pub open spec fn appends_spec(init: Seq<EntryView>, appended: Seq<EntryView>) -> Seq<EntryView>
    decreases appended.len(),
{
    if appended.len() == 0 {
        init
    } else {
        appends_spec(init.push(appended[0]), appended.drop_first())
    }
}

/// An ordered, append-only sequence of entries, indexed from 0.
pub struct MessageLog {
    entries: Vec<LogEntry>,
}

impl View for MessageLog {
    type V = Seq<EntryView>;

    closed spec fn view(&self) -> Seq<EntryView> {
        entries_view(self.entries@)
    }
}

impl MessageLog {
    /// An empty log.
    pub fn new() -> (r: MessageLog)
        ensures
            r@ == Seq::<EntryView>::empty(),
    {
        let r = MessageLog { entries: Vec::new() };
        proof {
            assert(r@ =~= Seq::<EntryView>::empty());
        }
        r
    }

    /// How many entries the log holds.
    pub fn len(&self) -> (n: usize)
        ensures
            n == self@.len(),
    {
        self.entries.len()
    }

    /// Appends one entry at the end of the log and returns its index.  The
    /// entry becomes visible, unchanged and in this position, to every
    /// later snapshot taken from a cursor at or below the new length.
    pub fn append(&mut self, entry: LogEntry) -> (idx: usize)
        ensures
            final(self)@ == old(self)@.push(entry@),
            idx == old(self)@.len(),
    {
        let idx = self.entries.len();
        self.entries.push(entry);
        proof {
            assert(final(self)@ =~= old(self)@.push(entry@));
        }
        idx
    }

    /// Copies out every entry the reader at `cursor` has not yet seen, in
    /// log order, together with the new cursor: the current length.
    pub fn snapshot_from(&self, cursor: usize) -> (r: (Vec<LogEntry>, usize))
        requires
            cursor <= self@.len(),
        ensures
            entries_view(r.0@) == snapshot_spec(self@, cursor as int),
            r.1 == self@.len(),
    {
        let mut out: Vec<LogEntry> = Vec::new();
        let n: usize = self.entries.len();
        let mut i: usize = cursor;
        while i < n
            invariant
                cursor <= i <= n,
                n == self.entries@.len(),
                out@.len() == i - cursor,
                forall|j: int| 0 <= j < out@.len() ==> out@[j]@ == self.entries@[cursor + j]@,
            decreases n - i,
        {
            let e = &self.entries[i];
            out.push(e.duplicate());
            i = i + 1;
        }
        proof {
            assert(entries_view(out@) =~= snapshot_spec(self@, cursor as int));
        }
        (out, n)
    }
}

/// Law: appends are serialized as pushes, so after a sequence of appends on
/// top of `init` the log is exactly `init` followed by the appended entries
/// in append order; a snapshot from 0 then returns every entry, each
/// exactly once, each at its append position.
pub proof fn lemma_append_visibility(init: Seq<EntryView>, appended: Seq<EntryView>)
    ensures
        appends_spec(init, appended) == init + appended,
        snapshot_spec(appends_spec(init, appended), 0) == init + appended,
        forall|i: int|
            0 <= i < appended.len() ==> appends_spec(init, appended)[init.len() + i]
                == appended[i],
    decreases appended.len(),
{
    if appended.len() == 0 {
        assert(appends_spec(init, appended) =~= init + appended);
    } else {
        lemma_append_visibility(init.push(appended[0]), appended.drop_first());
        assert(init.push(appended[0]) + appended.drop_first() =~= init + appended);
    }
    assert(snapshot_spec(init + appended, 0) =~= init + appended);
}

/// Law: what a reader has already seen, followed by a fresh snapshot,
/// is exactly the whole log — nothing replayed, nothing skipped.
pub proof fn lemma_snapshot_partition(log: Seq<EntryView>, cursor: int)
    requires
        0 <= cursor <= log.len(),
    ensures
        log.take(cursor) + snapshot_spec(log, cursor) == log,
{
    assert(log.take(cursor) + snapshot_spec(log, cursor) =~= log);
}

/// Law: for a session that snapshots at `cursor`, advances its cursor to
/// the observed length, and snapshots again after the log has grown, the
/// two batches concatenate to a single snapshot from the original cursor:
/// repeated polling delivers the log's suffix in order, with no entry
/// twice and none skipped.
pub proof fn lemma_cursor_no_replay(earlier: Seq<EntryView>, later: Seq<EntryView>, cursor: int)
    requires
        0 <= cursor <= earlier.len(),
        earlier.len() <= later.len(),
        earlier == later.take(earlier.len() as int),
    ensures
        snapshot_spec(earlier, cursor) + snapshot_spec(later, earlier.len() as int)
            == snapshot_spec(later, cursor),
{
    assert(snapshot_spec(earlier, cursor) + snapshot_spec(later, earlier.len() as int)
        =~= snapshot_spec(later, cursor));
}

} // verus!

//! Wire codec for `SocketEvent`.
//!
//! Each frame carries exactly one event in a self-describing binary form: a
//! one-byte variant tag, strings as a little-endian `u64` byte length
//! followed by their UTF-8 bytes, and entry lists as a little-endian `u64`
//! count followed by the entries.  The encoding is specified by the `enc_*`
//! spec functions, decoding by the `dec_*` spec functions, and
//! `lemma_event_round_trip` shows that decoding inverts encoding, so both
//! ends of a connection agree on every frame.

use crate::socketevent::{
    EntryView, EventView, Identity, IdentityState, IdentityStateView, SocketEvent,
};
use vstd::bytes::{
    lemma_auto_spec_u64_to_from_le_bytes, spec_u64_from_le_bytes, spec_u64_to_le_bytes,
    u64_from_le_bytes, u64_to_le_bytes,
};
use vstd::prelude::*;
use vstd::slice::{slice_subrange, slice_to_vec};
use vstd::utf8::{decode_utf8, encode_utf8, valid_utf8};

verus! {

broadcast use vstd::utf8::encode_utf8_valid_utf8, vstd::utf8::encode_utf8_decode_utf8;

/// Tag byte of a `Known` sender on the wire.
pub const TAG_KNOWN: u8 = 0;

/// Tag byte of an `Unknown` sender on the wire.
pub const TAG_UNKNOWN: u8 = 1;

/// Tag byte of `SendMessage`.
pub const TAG_SEND_MESSAGE: u8 = 2;

/// Tag byte of `Messages`.
pub const TAG_MESSAGES: u8 = 3;

/// Tag byte of `ProvideIdentity`.
pub const TAG_PROVIDE_IDENTITY: u8 = 4;

/// Tag byte of `RequestMessages`.
pub const TAG_REQUEST_MESSAGES: u8 = 5;

/// Tag byte of `MessageReceived`.
pub const TAG_MESSAGE_RECEIVED: u8 = 6;

/// Tag byte of `IdentityReceived`.
pub const TAG_IDENTITY_RECEIVED: u8 = 7;

/// The encoding of one string: its UTF-8 byte length as a little-endian
/// `u64`, then its UTF-8 bytes.
pub open spec fn enc_str(s: Seq<char>) -> Seq<u8> {
    spec_u64_to_le_bytes(encode_utf8(s).len() as u64) + encode_utf8(s)
}

/// The encoding of a sender attribution.
pub open spec fn enc_sender(st: IdentityStateView) -> Seq<u8> {
    match st {
        IdentityStateView::Known(name) => seq![TAG_KNOWN] + enc_str(name),
        IdentityStateView::Unknown => seq![TAG_UNKNOWN],
    }
}

/// The encoding of one stored entry: its sender, then its text.
pub open spec fn enc_entry(e: EntryView) -> Seq<u8> {
    enc_sender(e.sender) + enc_str(e.text)
}

/// The encoding of a list of entries, in order.
pub open spec fn enc_entries(es: Seq<EntryView>) -> Seq<u8>
    decreases es.len(),
{
    if es.len() == 0 {
        Seq::empty()
    } else {
        enc_entry(es[0]) + enc_entries(es.drop_first())
    }
}

/// The encoding of one wire-level event.
pub open spec fn enc_event(ev: EventView) -> Seq<u8> {
    match ev {
        EventView::SendMessage(t) => seq![TAG_SEND_MESSAGE] + enc_str(t),
        EventView::Messages(es) => seq![TAG_MESSAGES] + spec_u64_to_le_bytes(es.len() as u64)
            + enc_entries(es),
        EventView::ProvideIdentity(name) => seq![TAG_PROVIDE_IDENTITY] + enc_str(name),
        EventView::RequestMessages => seq![TAG_REQUEST_MESSAGES],
        EventView::MessageReceived => seq![TAG_MESSAGE_RECEIVED],
        EventView::IdentityReceived => seq![TAG_IDENTITY_RECEIVED],
    }
}

/// A string whose UTF-8 length fits the wire's length field.
pub open spec fn str_encodable(s: Seq<char>) -> bool {
    encode_utf8(s).len() <= u64::MAX
}

/// A sender whose name, if any, is encodable.
pub open spec fn sender_encodable(st: IdentityStateView) -> bool {
    match st {
        IdentityStateView::Known(name) => str_encodable(name),
        IdentityStateView::Unknown => true,
    }
}

/// An entry whose sender and text are both encodable.
pub open spec fn entry_encodable(e: EntryView) -> bool {
    sender_encodable(e.sender) && str_encodable(e.text)
}

/// An event whose payload fits the wire's length fields.  Every event built
/// from in-memory values satisfies this.
pub open spec fn event_encodable(ev: EventView) -> bool {
    match ev {
        EventView::SendMessage(t) => str_encodable(t),
        EventView::Messages(es) => es.len() <= u64::MAX && forall|i: int|
            0 <= i < es.len() ==> entry_encodable(#[trigger] es[i]),
        EventView::ProvideIdentity(name) => str_encodable(name),
        EventView::RequestMessages => true,
        EventView::MessageReceived => true,
        EventView::IdentityReceived => true,
    }
}

/// Decodes one string from the front of `b`; returns the string and what
/// follows it, or nothing if `b` does not start with a valid encoding.
pub open spec fn dec_str(b: Seq<u8>) -> Option<(Seq<char>, Seq<u8>)> {
    if b.len() < 8 {
        None
    } else {
        let n = spec_u64_from_le_bytes(b.take(8)) as int;
        if b.len() - 8 < n {
            None
        } else {
            let body = b.subrange(8, 8 + n);
            if valid_utf8(body) {
                Some((decode_utf8(body), b.skip(8 + n)))
            } else {
                None
            }
        }
    }
}

/// Decodes one sender attribution from the front of `b`.
pub open spec fn dec_sender(b: Seq<u8>) -> Option<(IdentityStateView, Seq<u8>)> {
    if b.len() < 1 {
        None
    } else if b[0] == TAG_KNOWN {
        match dec_str(b.drop_first()) {
            Some((name, rest)) => Some((IdentityStateView::Known(name), rest)),
            None => None,
        }
    } else if b[0] == TAG_UNKNOWN {
        Some((IdentityStateView::Unknown, b.drop_first()))
    } else {
        None
    }
}

/// Decodes one entry (sender, then text) from the front of `b`.
pub open spec fn dec_entry(b: Seq<u8>) -> Option<(EntryView, Seq<u8>)> {
    match dec_sender(b) {
        Some((sender, rest)) => match dec_str(rest) {
            Some((text, rest2)) => Some((EntryView { sender: sender, text: text }, rest2)),
            None => None,
        },
        None => None,
    }
}

/// Decodes `n` entries from the front of `b`.
pub open spec fn dec_entries(b: Seq<u8>, n: int) -> Option<(Seq<EntryView>, Seq<u8>)>
    decreases n,
{
    if n <= 0 {
        Some((Seq::empty(), b))
    } else {
        match dec_entry(b) {
            Some((e, rest)) => match dec_entries(rest, n - 1) {
                Some((es, rest2)) => Some((seq![e] + es, rest2)),
                None => None,
            },
            None => None,
        }
    }
}

/// Decodes one event from the front of `b`.
pub open spec fn dec_event(b: Seq<u8>) -> Option<(EventView, Seq<u8>)> {
    if b.len() < 1 {
        None
    } else {
        let tag = b[0];
        let r = b.drop_first();
        if tag == TAG_SEND_MESSAGE {
            match dec_str(r) {
                Some((t, rest)) => Some((EventView::SendMessage(t), rest)),
                None => None,
            }
        } else if tag == TAG_MESSAGES {
            if r.len() < 8 {
                None
            } else {
                match dec_entries(r.skip(8), spec_u64_from_le_bytes(r.take(8)) as int) {
                    Some((es, rest)) => Some((EventView::Messages(es), rest)),
                    None => None,
                }
            }
        } else if tag == TAG_PROVIDE_IDENTITY {
            match dec_str(r) {
                Some((name, rest)) => Some((EventView::ProvideIdentity(name), rest)),
                None => None,
            }
        } else if tag == TAG_REQUEST_MESSAGES {
            Some((EventView::RequestMessages, r))
        } else if tag == TAG_MESSAGE_RECEIVED {
            Some((EventView::MessageReceived, r))
        } else if tag == TAG_IDENTITY_RECEIVED {
            Some((EventView::IdentityReceived, r))
        } else {
            None
        }
    }
}

/// The event carried by a whole frame: one event, with nothing after it.
pub open spec fn whole_event(b: Seq<u8>) -> Option<EventView> {
    match dec_event(b) {
        Some((ev, rest)) => if rest.len() == 0 {
            Some(ev)
        } else {
            None
        },
        None => None,
    }
}

/// Law: decoding inverts encoding for strings, whatever follows the string.
pub proof fn lemma_str_round_trip(s: Seq<char>, rest: Seq<u8>)
    requires
        str_encodable(s),
    ensures
        dec_str(enc_str(s) + rest) == Some((s, rest)),
{
    lemma_auto_spec_u64_to_from_le_bytes();
    let u = encode_utf8(s);
    let b = enc_str(s) + rest;
    assert(b.take(8) =~= spec_u64_to_le_bytes(u.len() as u64));
    assert(spec_u64_from_le_bytes(b.take(8)) as int == u.len() as int);
    assert(b.subrange(8, 8 + u.len() as int) =~= u);
    assert(b.skip(8 + u.len() as int) =~= rest);
}

/// Law: decoding inverts encoding for sender attributions.
pub proof fn lemma_sender_round_trip(st: IdentityStateView, rest: Seq<u8>)
    requires
        sender_encodable(st),
    ensures
        dec_sender(enc_sender(st) + rest) == Some((st, rest)),
{
    match st {
        IdentityStateView::Known(name) => {
            let b = enc_sender(st) + rest;
            assert(b[0] == TAG_KNOWN);
            assert(b.drop_first() =~= enc_str(name) + rest);
            lemma_str_round_trip(name, rest);
        },
        IdentityStateView::Unknown => {
            let b = enc_sender(st) + rest;
            assert(b[0] == TAG_UNKNOWN);
            assert(b.drop_first() =~= rest);
        },
    }
}

/// Law: decoding inverts encoding for entries.
pub proof fn lemma_entry_round_trip(e: EntryView, rest: Seq<u8>)
    requires
        entry_encodable(e),
    ensures
        dec_entry(enc_entry(e) + rest) == Some((e, rest)),
{
    let b = enc_entry(e) + rest;
    assert(b =~= enc_sender(e.sender) + (enc_str(e.text) + rest));
    lemma_sender_round_trip(e.sender, enc_str(e.text) + rest);
    lemma_str_round_trip(e.text, rest);
}

/// Law: decoding inverts encoding for entry lists.
pub proof fn lemma_entries_round_trip(es: Seq<EntryView>, rest: Seq<u8>)
    requires
        forall|i: int| 0 <= i < es.len() ==> entry_encodable(#[trigger] es[i]),
    ensures
        dec_entries(enc_entries(es) + rest, es.len() as int) == Some((es, rest)),
    decreases es.len(),
{
    if es.len() == 0 {
        assert(enc_entries(es) + rest =~= rest);
        assert(es =~= Seq::<EntryView>::empty());
    } else {
        let tail = es.drop_first();
        assert(enc_entries(es) + rest =~= enc_entry(es[0]) + (enc_entries(tail) + rest));
        lemma_entry_round_trip(es[0], enc_entries(tail) + rest);
        lemma_entries_round_trip(tail, rest);
        assert(seq![es[0]] + tail =~= es);
    }
}

/// Law: a frame that carries the encoding of an event, and nothing else,
/// decodes to exactly that event.
pub proof fn lemma_event_round_trip(ev: EventView)
    requires
        event_encodable(ev),
    ensures
        whole_event(enc_event(ev)) == Some(ev),
{
    lemma_auto_spec_u64_to_from_le_bytes();
    let b = enc_event(ev);
    match ev {
        EventView::SendMessage(t) => {
            assert(b.drop_first() =~= enc_str(t) + Seq::<u8>::empty());
            lemma_str_round_trip(t, Seq::<u8>::empty());
        },
        EventView::Messages(es) => {
            let r = b.drop_first();
            assert(r =~= spec_u64_to_le_bytes(es.len() as u64) + enc_entries(es));
            assert(r.take(8) =~= spec_u64_to_le_bytes(es.len() as u64));
            assert(r.skip(8) =~= enc_entries(es) + Seq::<u8>::empty());
            lemma_entries_round_trip(es, Seq::<u8>::empty());
        },
        EventView::ProvideIdentity(name) => {
            assert(b.drop_first() =~= enc_str(name) + Seq::<u8>::empty());
            lemma_str_round_trip(name, Seq::<u8>::empty());
        },
        EventView::RequestMessages => {
            assert(b.drop_first() =~= Seq::<u8>::empty());
        },
        EventView::MessageReceived => {
            assert(b.drop_first() =~= Seq::<u8>::empty());
        },
        EventView::IdentityReceived => {
            assert(b.drop_first() =~= Seq::<u8>::empty());
        },
    }
}

/// Relies on `String::from_utf8`: it returns `Ok` exactly when the bytes are
/// valid UTF-8, and the returned string is backed by exactly those bytes.
#[verifier::external_body]
fn bytes_to_string(bytes: Vec<u8>) -> (r: Option<String>)
    ensures
        r is Some <==> valid_utf8(bytes@),
        r matches Some(s) ==> encode_utf8(s@) == bytes@,
{
    String::from_utf8(bytes).ok()
}

/// Appends the wire encoding of one string to `out`.
fn encode_str_into(out: &mut Vec<u8>, s: &str)
    ensures
        final(out)@ == old(out)@ + enc_str(s@),
{
    let bytes: &[u8] = s.as_bytes();
    let len64: u64 = bytes.len() as u64;
    let mut lenb: Vec<u8> = u64_to_le_bytes(len64);
    out.append(&mut lenb);
    let mut body: Vec<u8> = slice_to_vec(bytes);
    out.append(&mut body);
}

/// Appends the wire encoding of one sender attribution to `out`.
fn encode_sender_into(out: &mut Vec<u8>, st: &IdentityState)
    ensures
        final(out)@ == old(out)@ + enc_sender(st@),
{
    match st {
        IdentityState::Known(id) => {
            out.push(TAG_KNOWN);
            encode_str_into(out, id.username.as_str());
        },
        IdentityState::Unknown => {
            out.push(TAG_UNKNOWN);
        },
    }
    proof {
        assert(final(out)@ =~= old(out)@ + enc_sender(st@));
    }
}

/// Encodes one event as a wire frame.
pub fn encode_event(ev: &SocketEvent) -> (r: Vec<u8>)
    ensures
        r@ == enc_event(ev@),
{
    let mut out: Vec<u8> = Vec::new();
    match ev {
        SocketEvent::SendMessage(t) => {
            out.push(TAG_SEND_MESSAGE);
            encode_str_into(&mut out, t.as_str());
        },
        SocketEvent::Messages(list) => {
            out.push(TAG_MESSAGES);
            let count64: u64 = list.len() as u64;
            let mut lenb: Vec<u8> = u64_to_le_bytes(count64);
            out.append(&mut lenb);
            let n: usize = list.len();
            let mut i: usize = 0;
            while i < n
                invariant
                    n == list@.len(),
                    i <= n,
                    out@ == seq![TAG_MESSAGES] + spec_u64_to_le_bytes(list@.len() as u64)
                        + enc_entries(crate::socketevent::pairs_view(list@).take(i as int)),
                decreases n - i,
            {
                let ghost views = crate::socketevent::pairs_view(list@);
                let pair = &list[i];
                encode_sender_into(&mut out, &pair.0);
                encode_str_into(&mut out, pair.1.as_str());
                proof {
                    lemma_enc_entries_snoc(views.take(i + 1));
                    assert(views.take(i + 1).drop_last() =~= views.take(i as int));
                    assert(views.take(i + 1).last() == views[i as int]);
                }
                i = i + 1;
            }
            proof {
                assert(crate::socketevent::pairs_view(list@).take(n as int) =~= crate::socketevent::pairs_view(list@));
            }
        },
        SocketEvent::ProvideIdentity(id) => {
            out.push(TAG_PROVIDE_IDENTITY);
            encode_str_into(&mut out, id.username.as_str());
        },
        SocketEvent::RequestMessages => {
            out.push(TAG_REQUEST_MESSAGES);
        },
        SocketEvent::MessageReceived => {
            out.push(TAG_MESSAGE_RECEIVED);
        },
        SocketEvent::IdentityReceived => {
            out.push(TAG_IDENTITY_RECEIVED);
        },
    }
    proof {
        assert(out@ =~= enc_event(ev@));
    }
    out
}

/// Law: encoding a list is encoding all but the last entry, then the last.
proof fn lemma_enc_entries_snoc(es: Seq<EntryView>)
    requires
        es.len() > 0,
    ensures
        enc_entries(es) == enc_entries(es.drop_last()) + enc_entry(es.last()),
    decreases es.len(),
{
    if es.len() == 1 {
        assert(es.drop_first() =~= Seq::<EntryView>::empty());
        assert(es.drop_last() =~= Seq::<EntryView>::empty());
        assert(enc_entries(es) =~= enc_entries(es.drop_last()) + enc_entry(es.last()));
    } else {
        let tail = es.drop_first();
        lemma_enc_entries_snoc(tail);
        assert(tail.drop_last() =~= es.drop_last().drop_first());
        assert(tail.last() == es.last());
        assert(es.drop_last()[0] == es[0]);
        assert(enc_entries(es) =~= enc_entries(es.drop_last()) + enc_entry(es.last()));
    }
}

/// Decodes one string starting at `pos`; returns it with the position of
/// what follows.
fn decode_str(bytes: &[u8], pos: usize) -> (r: Option<(String, usize)>)
    requires
        pos <= bytes@.len(),
    ensures
        match r {
            Some(p) => dec_str(bytes@.skip(pos as int)) == Some(
                (p.0@, bytes@.skip(p.1 as int)),
            ) && pos <= p.1 <= bytes@.len(),
            None => dec_str(bytes@.skip(pos as int)) is None,
        },
{
    let ghost b = bytes@.skip(pos as int);
    if bytes.len() - pos < 8 {
        return None;
    }
    let len_slice: &[u8] = slice_subrange(bytes, pos, pos + 8);
    proof {
        assert(len_slice@ =~= b.take(8));
    }
    let n64: u64 = u64_from_le_bytes(len_slice);
    let remaining: usize = bytes.len() - pos - 8;
    if n64 > remaining as u64 {
        proof {
            assert(b.len() - 8 < n64 as int);
        }
        return None;
    }
    let n: usize = n64 as usize;
    let body: &[u8] = slice_subrange(bytes, pos + 8, pos + 8 + n);
    proof {
        assert(body@ =~= b.subrange(8, 8 + n64 as int));
    }
    let owned: Vec<u8> = slice_to_vec(body);
    match bytes_to_string(owned) {
        Some(s) => {
            proof {
                assert(bytes@.skip((pos + 8 + n) as int) =~= b.skip(8 + n64 as int));
            }
            Some((s, pos + 8 + n))
        },
        None => None,
    }
}

/// Decodes one sender attribution starting at `pos`.
fn decode_sender(bytes: &[u8], pos: usize) -> (r: Option<(IdentityState, usize)>)
    requires
        pos <= bytes@.len(),
    ensures
        match r {
            Some(p) => dec_sender(bytes@.skip(pos as int)) == Some(
                (p.0@, bytes@.skip(p.1 as int)),
            ) && pos <= p.1 <= bytes@.len(),
            None => dec_sender(bytes@.skip(pos as int)) is None,
        },
{
    let ghost b = bytes@.skip(pos as int);
    if pos >= bytes.len() {
        return None;
    }
    let tag: u8 = bytes[pos];
    proof {
        assert(b[0] == tag);
        assert(b.drop_first() =~= bytes@.skip((pos + 1) as int));
    }
    if tag == TAG_KNOWN {
        match decode_str(bytes, pos + 1) {
            Some((name, newpos)) => Some(
                (IdentityState::Known(Identity { username: name }), newpos),
            ),
            None => None,
        }
    } else if tag == TAG_UNKNOWN {
        Some((IdentityState::Unknown, pos + 1))
    } else {
        None
    }
}

/// Decodes one entry starting at `pos`.
fn decode_entry(bytes: &[u8], pos: usize) -> (r: Option<((IdentityState, String), usize)>)
    requires
        pos <= bytes@.len(),
    ensures
        match r {
            Some(p) => dec_entry(bytes@.skip(pos as int)) == Some(
                (crate::socketevent::pair_view(p.0), bytes@.skip(p.1 as int)),
            ) && pos <= p.1 <= bytes@.len(),
            None => dec_entry(bytes@.skip(pos as int)) is None,
        },
{
    match decode_sender(bytes, pos) {
        Some((sender, mid)) => match decode_str(bytes, mid) {
            Some((text, newpos)) => Some(((sender, text), newpos)),
            None => None,
        },
        None => None,
    }
}

/// Decodes one whole frame: returns the event it carries, or nothing if the
/// bytes are not the encoding of exactly one event.
pub fn decode_event(bytes: &[u8]) -> (r: Option<SocketEvent>)
    ensures
        match r {
            Some(e) => whole_event(bytes@) == Some(e@),
            None => whole_event(bytes@) is None,
        },
{
    if bytes.len() < 1 {
        return None;
    }
    let tag: u8 = bytes[0];
    proof {
        assert(bytes@[0] == tag);
        assert(bytes@.drop_first() =~= bytes@.skip(1));
    }
    if tag == TAG_SEND_MESSAGE {
        match decode_str(bytes, 1) {
            Some((t, newpos)) => {
                if newpos == bytes.len() {
                    proof {
                        assert(bytes@.skip(newpos as int).len() == 0);
                    }
                    Some(SocketEvent::SendMessage(t))
                } else {
                    proof {
                        assert(bytes@.skip(newpos as int).len() > 0);
                    }
                    None
                }
            },
            None => None,
        }
    } else if tag == TAG_MESSAGES {
        decode_messages_body(bytes)
    } else if tag == TAG_PROVIDE_IDENTITY {
        match decode_str(bytes, 1) {
            Some((name, newpos)) => {
                if newpos == bytes.len() {
                    proof {
                        assert(bytes@.skip(newpos as int).len() == 0);
                    }
                    Some(SocketEvent::ProvideIdentity(Identity { username: name }))
                } else {
                    proof {
                        assert(bytes@.skip(newpos as int).len() > 0);
                    }
                    None
                }
            },
            None => None,
        }
    } else if tag == TAG_REQUEST_MESSAGES {
        if bytes.len() == 1 {
            Some(SocketEvent::RequestMessages)
        } else {
            None
        }
    } else if tag == TAG_MESSAGE_RECEIVED {
        if bytes.len() == 1 {
            Some(SocketEvent::MessageReceived)
        } else {
            None
        }
    } else if tag == TAG_IDENTITY_RECEIVED {
        if bytes.len() == 1 {
            Some(SocketEvent::IdentityReceived)
        } else {
            None
        }
    } else {
        None
    }
}

/// Decodes the body of a `Messages` frame: the entry count, then that many
/// entries, which must end the frame.
fn decode_messages_body(bytes: &[u8]) -> (r: Option<SocketEvent>)
    requires
        bytes@.len() >= 1,
        bytes@[0] == TAG_MESSAGES,
    ensures
        match r {
            Some(e) => whole_event(bytes@) == Some(e@),
            None => whole_event(bytes@) is None,
        },
{
    let ghost body = bytes@.drop_first();
    if bytes.len() - 1 < 8 {
        return None;
    }
    let len_slice: &[u8] = slice_subrange(bytes, 1, 9);
    proof {
        assert(len_slice@ =~= body.take(8));
    }
    let count: u64 = u64_from_le_bytes(len_slice);
    let ghost entries_bytes = body.skip(8);
    let mut acc: Vec<(IdentityState, String)> = Vec::new();
    let mut pos: usize = 9;
    let mut i: u64 = 0;
    proof {
        assert(entries_bytes =~= bytes@.skip(9));
        assert(crate::socketevent::pairs_view(acc@) + Seq::<EntryView>::empty()
            =~= crate::socketevent::pairs_view(acc@));
    }
    while i < count
        invariant
            i <= count,
            9 <= pos <= bytes@.len(),
            entries_bytes == bytes@.skip(9),
            bytes@.len() >= 9,
            bytes@[0] == TAG_MESSAGES,
            count == spec_u64_from_le_bytes(bytes@.drop_first().take(8)),
            forall|es: Seq<EntryView>, rest: Seq<u8>|
                dec_entries(bytes@.skip(pos as int), count - i) == Some((es, rest))
                    ==> #[trigger] dec_entries(entries_bytes, count as int) == Some(
                    (crate::socketevent::pairs_view(acc@) + es, rest),
                ),
            (dec_entries(bytes@.skip(pos as int), count - i) is None) ==> (dec_entries(
                entries_bytes,
                count as int,
            ) is None),
        decreases count - i,
    {
        match decode_entry(bytes, pos) {
            Some((pair, newpos)) => {
                proof {
                    let cur = bytes@.skip(pos as int);
                    let nxt = bytes@.skip(newpos as int);
                    assert(dec_entries(cur, count - i) == match dec_entries(nxt, count - i - 1) {
                        Some((es2, r2)) => Some(
                            (seq![crate::socketevent::pair_view(pair)] + es2, r2),
                        ),
                        None => None,
                    });
                }
                let ghost old_acc = acc@;
                acc.push(pair);
                proof {
                    assert(crate::socketevent::pairs_view(acc@) =~= crate::socketevent::pairs_view(
                        old_acc,
                    ).push(crate::socketevent::pair_view(pair)));
                    assert forall|es: Seq<EntryView>, rest: Seq<u8>|
                        dec_entries(bytes@.skip(newpos as int), count - (i + 1)) == Some(
                            (es, rest),
                        ) implies #[trigger] dec_entries(entries_bytes, count as int) == Some(
                        (crate::socketevent::pairs_view(acc@) + es, rest),
                    ) by {
                        assert(crate::socketevent::pairs_view(old_acc) + (seq![
                            crate::socketevent::pair_view(pair),
                        ] + es) =~= crate::socketevent::pairs_view(acc@) + es);
                    }
                }
                pos = newpos;
                i = i + 1;
            },
            None => {
                proof {
                    assert(dec_entries(bytes@.skip(pos as int), count - i) is None);
                    assert(dec_entries(entries_bytes, count as int) is None);
                    let r = bytes@.drop_first();
                    assert(r.skip(8) =~= entries_bytes);
                    assert(dec_event(bytes@) is None);
                }
                return None;
            },
        }
    }
    proof {
        assert(i == count);
        assert(dec_entries(bytes@.skip(pos as int), 0) == Some(
            (Seq::<EntryView>::empty(), bytes@.skip(pos as int)),
        ));
        assert(dec_entries(entries_bytes, count as int) == Some(
            (
                crate::socketevent::pairs_view(acc@) + Seq::<EntryView>::empty(),
                bytes@.skip(pos as int),
            ),
        ));
        assert(crate::socketevent::pairs_view(acc@) + Seq::<EntryView>::empty()
            =~= crate::socketevent::pairs_view(acc@));
        let r = bytes@.drop_first();
        assert(r.skip(8) =~= entries_bytes);
        assert(dec_event(bytes@) == Some(
            (
                EventView::Messages(crate::socketevent::pairs_view(acc@)),
                bytes@.skip(pos as int),
            ),
        ));
    }
    if pos == bytes.len() {
        proof {
            assert(bytes@.skip(pos as int).len() == 0);
        }
        Some(SocketEvent::Messages(acc))
    } else {
        proof {
            assert(bytes@.skip(pos as int).len() > 0);
        }
        None
    }
}

} // verus!

//! Client-side protocol state machine.
//!
//! A `ClientTransport` tracks the one fact that keeps a single ordered
//! connection usable: whether a request is in flight and, if so, which
//! response variant it is owed.  Every operation is a strict one-request /
//! one-response round trip: a `begin_*` call produces the request frame and
//! records the expectation, the matching `complete_*` call checks the
//! response frame against it.  The task that owns the socket must be the
//! only user of one `ClientTransport` — interleaving two callers would
//! desynchronize the pairing, and a second `begin_*` before the first
//! response deterministically fails rather than silently succeeding.

use crate::codec::{enc_event, encode_event, whole_event};
use crate::socketevent::{EventView, Identity, IdentityState, SocketEvent};
use vstd::prelude::*;

verus! {

/// A transport-level failure, fatal to the one connection it occurs on.
#[derive(Debug, Clone, Copy, PartialEq, Eq)]
pub enum TransportError {
    /// The connection is closed, refused or reset.  The library never
    /// raises this itself; the socket's owner maps I/O failures to it.
    ConnectionError,
    /// A response variant does not match the request just sent, a second
    /// request was started before the first response was read, or a
    /// response was awaited with no request in flight.
    ProtocolMismatchError,
    /// A frame could not be decoded into a known variant.
    EncodingError,
}

/// The response variant the request in flight is owed.
#[derive(Debug, Clone, Copy, PartialEq, Eq)]
pub enum PendingRequest {
    /// `SendMessage` was sent; `MessageReceived` is owed.
    Send,
    /// `RequestMessages` was sent; `Messages` is owed.
    Poll,
    /// `ProvideIdentity` was sent; `IdentityReceived` is owed.
    Identify,
}

/// Client-side state of one connection to a relay server.
pub struct ClientTransport {
    /// The request in flight, if any.
    pub pending: Option<PendingRequest>,
    /// Whether an identity declaration has succeeded on this connection.
    pub identified: bool,
}

impl ClientTransport {
    /// A fresh connection: nothing in flight, no identity declared yet.
    pub fn new() -> (r: ClientTransport)
        ensures
            r.pending is None,
            !r.identified,
    {
        ClientTransport { pending: None, identified: false }
    }

    /// Starts the declare-identity round trip: returns the request frame
    /// and records that `IdentityReceived` is owed.  Starting it while a
    /// request is in flight fails deterministically and changes nothing.
    pub fn begin_identify(&mut self, identity: &Identity) -> (r: Result<Vec<u8>, TransportError>)
        ensures
            old(self).pending is None ==> (r matches Ok(frame) && frame@ == enc_event(
                EventView::ProvideIdentity(identity@),
            ) && final(self).pending == Some(PendingRequest::Identify) && final(self).identified
                == old(self).identified),
            old(self).pending is Some ==> r == Err::<Vec<u8>, TransportError>(
                TransportError::ProtocolMismatchError,
            ) && *final(self) == *old(self),
    {
        if self.pending.is_some() {
            return Err(TransportError::ProtocolMismatchError);
        }
        self.pending = Some(PendingRequest::Identify);
        Ok(encode_event(&SocketEvent::ProvideIdentity(identity.duplicate())))
    }

    /// Starts the send-message round trip: returns the request frame and
    /// records that `MessageReceived` is owed.  Identity must have been
    /// declared first.  Starting it while a request is in flight fails
    /// deterministically and changes nothing.
    pub fn begin_send(&mut self, text: &str) -> (r: Result<Vec<u8>, TransportError>)
        requires
            old(self).identified,
        ensures
            old(self).pending is None ==> (r matches Ok(frame) && frame@ == enc_event(
                EventView::SendMessage(text@),
            ) && final(self).pending == Some(PendingRequest::Send) && final(self).identified
                == old(self).identified),
            old(self).pending is Some ==> r == Err::<Vec<u8>, TransportError>(
                TransportError::ProtocolMismatchError,
            ) && *final(self) == *old(self),
    {
        if self.pending.is_some() {
            return Err(TransportError::ProtocolMismatchError);
        }
        self.pending = Some(PendingRequest::Send);
        Ok(encode_event(&SocketEvent::SendMessage(text.to_owned())))
    }

    /// Starts the poll round trip: returns the request frame and records
    /// that `Messages` is owed.  Identity must have been declared first.
    /// Starting it while a request is in flight fails deterministically
    /// and changes nothing.
    pub fn begin_poll(&mut self) -> (r: Result<Vec<u8>, TransportError>)
        requires
            old(self).identified,
        ensures
            old(self).pending is None ==> (r matches Ok(frame) && frame@ == enc_event(
                EventView::RequestMessages,
            ) && final(self).pending == Some(PendingRequest::Poll) && final(self).identified
                == old(self).identified),
            old(self).pending is Some ==> r == Err::<Vec<u8>, TransportError>(
                TransportError::ProtocolMismatchError,
            ) && *final(self) == *old(self),
    {
        if self.pending.is_some() {
            return Err(TransportError::ProtocolMismatchError);
        }
        self.pending = Some(PendingRequest::Poll);
        Ok(encode_event(&SocketEvent::RequestMessages))
    }

    /// Completes the declare-identity round trip against the response
    /// frame.  Exactly when the frame is one `IdentityReceived` event the
    /// connection becomes identified and the round trip ends; an
    /// undecodable frame or any other variant is unrecoverable for this
    /// connection and changes nothing.
    pub fn complete_identify(&mut self, frame: &[u8]) -> (r: Result<(), TransportError>)
        ensures
            old(self).pending != Some(PendingRequest::Identify) ==> r == Err::<(), TransportError>(
                TransportError::ProtocolMismatchError,
            ) && *final(self) == *old(self),
            old(self).pending == Some(PendingRequest::Identify) ==> match whole_event(frame@) {
                Some(ev) => if ev == EventView::IdentityReceived {
                    r == Ok::<(), TransportError>(()) && *final(self) == (ClientTransport {
                        pending: None,
                        identified: true,
                    })
                } else {
                    r == Err::<(), TransportError>(TransportError::ProtocolMismatchError) && *final(self) == *old(self)
                },
                None => r == Err::<(), TransportError>(TransportError::EncodingError) && *final(self) == *old(self),
            },
    {
        match self.pending {
            Some(PendingRequest::Identify) => {},
            _ => {
                return Err(TransportError::ProtocolMismatchError);
            },
        }
        match crate::codec::decode_event(frame) {
            Some(SocketEvent::IdentityReceived) => {
                self.pending = None;
                self.identified = true;
                Ok(())
            },
            Some(_) => Err(TransportError::ProtocolMismatchError),
            None => Err(TransportError::EncodingError),
        }
    }

    /// Completes the send-message round trip against the response frame.
    /// Exactly when the frame is one `MessageReceived` event the round
    /// trip ends; an undecodable frame or any other variant is
    /// unrecoverable for this connection and changes nothing.
    pub fn complete_send(&mut self, frame: &[u8]) -> (r: Result<(), TransportError>)
        ensures
            old(self).pending != Some(PendingRequest::Send) ==> r == Err::<(), TransportError>(
                TransportError::ProtocolMismatchError,
            ) && *final(self) == *old(self),
            old(self).pending == Some(PendingRequest::Send) ==> match whole_event(frame@) {
                Some(ev) => if ev == EventView::MessageReceived {
                    r == Ok::<(), TransportError>(()) && *final(self) == (ClientTransport {
                        pending: None,
                        identified: old(self).identified,
                    })
                } else {
                    r == Err::<(), TransportError>(TransportError::ProtocolMismatchError) && *final(self) == *old(self)
                },
                None => r == Err::<(), TransportError>(TransportError::EncodingError) && *final(self) == *old(self),
            },
    {
        match self.pending {
            Some(PendingRequest::Send) => {},
            _ => {
                return Err(TransportError::ProtocolMismatchError);
            },
        }
        match crate::codec::decode_event(frame) {
            Some(SocketEvent::MessageReceived) => {
                self.pending = None;
                Ok(())
            },
            Some(_) => Err(TransportError::ProtocolMismatchError),
            None => Err(TransportError::EncodingError),
        }
    }

    /// Completes the poll round trip against the response frame.  Exactly
    /// when the frame is one `Messages` event its batch is returned, in
    /// server order, possibly empty; an undecodable frame or any other
    /// variant is unrecoverable for this connection and changes nothing.
    pub fn complete_poll(&mut self, frame: &[u8]) -> (r: Result<
        Vec<(IdentityState, String)>,
        TransportError,
    >)
        ensures
            old(self).pending != Some(PendingRequest::Poll) ==> r is Err && r->Err_0
                == TransportError::ProtocolMismatchError && *final(self) == *old(self),
            old(self).pending == Some(PendingRequest::Poll) ==> match whole_event(frame@) {
                Some(ev) => match ev {
                    EventView::Messages(es) => (r matches Ok(batch)
                        && crate::socketevent::pairs_view(batch@) == es && (*final(self))
                        == (ClientTransport { pending: None, identified: old(self).identified })),
                    _ => r is Err && r->Err_0 == TransportError::ProtocolMismatchError && *final(self) == *old(self),
                },
                None => r is Err && r->Err_0 == TransportError::EncodingError && *final(self)
                    == *old(self),
            },
    {
        match self.pending {
            Some(PendingRequest::Poll) => {},
            _ => {
                return Err(TransportError::ProtocolMismatchError);
            },
        }
        match crate::codec::decode_event(frame) {
            Some(SocketEvent::Messages(batch)) => {
                self.pending = None;
                Ok(batch)
            },
            Some(_) => Err(TransportError::ProtocolMismatchError),
            None => Err(TransportError::EncodingError),
        }
    }
}

/// One decision of the background sync loop: a freshly polled batch is
/// published to the foreground exactly when it is non-empty.
pub fn sync_publish(batch: Vec<(IdentityState, String)>) -> (r: Option<
    Vec<(IdentityState, String)>,
>)
    ensures
        batch@.len() == 0 ==> r is None,
        batch@.len() > 0 ==> r == Some(batch),
{
    if batch.len() > 0 {
        Some(batch)
    } else {
        None
    }
}

} // verus!

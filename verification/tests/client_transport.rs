use openchat::client::{sync_publish, ClientTransport, TransportError};
use openchat::codec::{decode_event, encode_event};
use openchat::message_log::MessageLog;
use openchat::session::ConnectionSession;
use openchat::socketevent::{Identity, IdentityState, SocketEvent};

fn ident(name: &str) -> Identity {
    Identity { username: name.to_string() }
}

/// Plays the server's part for one frame: decode, step the session, encode.
fn serve(
    session: &mut ConnectionSession,
    log: &mut MessageLog,
    frame: &[u8],
) -> Vec<u8> {
    let req = decode_event(frame).expect("client frames must decode");
    let resp = session.handle_request(log, req).expect("request variants must be served");
    encode_event(&resp)
}

#[test]
fn full_round_trips_against_a_live_session() {
    let mut log = MessageLog::new();
    let mut session = ConnectionSession::new();
    let mut t = ClientTransport::new();

    let frame = t.begin_identify(&ident("alice")).unwrap();
    let resp = serve(&mut session, &mut log, &frame);
    assert_eq!(t.complete_identify(&resp), Ok(()));

    let frame = t.begin_send("hi there").unwrap();
    let resp = serve(&mut session, &mut log, &frame);
    assert_eq!(t.complete_send(&resp), Ok(()));

    let frame = t.begin_poll().unwrap();
    let resp = serve(&mut session, &mut log, &frame);
    let batch = t.complete_poll(&resp).unwrap();
    assert_eq!(
        batch,
        vec![(IdentityState::Known(ident("alice")), "hi there".to_string())]
    );
}

#[test]
fn second_request_before_first_response_fails_deterministically() {
    let mut log = MessageLog::new();
    let mut session = ConnectionSession::new();
    let mut t = ClientTransport::new();

    let frame = t.begin_identify(&ident("alice")).unwrap();
    let resp = serve(&mut session, &mut log, &frame);
    t.complete_identify(&resp).unwrap();

    let first = t.begin_send("one").unwrap();
    // The first response has not been read: every further begin must fail.
    assert_eq!(t.begin_poll(), Err(TransportError::ProtocolMismatchError));
    assert_eq!(t.begin_send("two"), Err(TransportError::ProtocolMismatchError));

    // The in-flight round trip is still intact and completes normally.
    let resp = serve(&mut session, &mut log, &first);
    assert_eq!(t.complete_send(&resp), Ok(()));
}

#[test]
fn double_identify_without_reading_response_fails() {
    let mut t = ClientTransport::new();
    t.begin_identify(&ident("alice")).unwrap();
    assert_eq!(
        t.begin_identify(&ident("alice")),
        Err(TransportError::ProtocolMismatchError)
    );
}

#[test]
fn undecodable_response_is_an_encoding_error() {
    let mut t = ClientTransport::new();
    t.begin_identify(&ident("alice")).unwrap();
    assert_eq!(
        t.complete_identify(&[1, 2, 3]),
        Err(TransportError::EncodingError)
    );
}

#[test]
fn mismatched_response_variant_is_a_protocol_error() {
    let mut log = MessageLog::new();
    let mut session = ConnectionSession::new();
    let mut t = ClientTransport::new();

    let frame = t.begin_identify(&ident("alice")).unwrap();
    let resp = serve(&mut session, &mut log, &frame);
    t.complete_identify(&resp).unwrap();

    t.begin_send("hello").unwrap();
    // A Messages response cannot answer a SendMessage request.
    let wrong = encode_event(&SocketEvent::Messages(vec![]));
    assert_eq!(t.complete_send(&wrong), Err(TransportError::ProtocolMismatchError));
}

#[test]
fn completion_without_a_request_in_flight_is_a_protocol_error() {
    let mut t = ClientTransport::new();
    let resp = encode_event(&SocketEvent::IdentityReceived);
    assert_eq!(
        t.complete_identify(&resp),
        Err(TransportError::ProtocolMismatchError)
    );
}

#[test]
fn only_non_empty_batches_are_published() {
    assert_eq!(sync_publish(vec![]), None);
    let batch = vec![(IdentityState::Unknown, "m".to_string())];
    assert_eq!(sync_publish(batch.clone()), Some(batch));
}

use openchat::codec::{decode_event, encode_event, TAG_SEND_MESSAGE};
use openchat::socketevent::{Identity, IdentityState, SocketEvent};

fn ident(name: &str) -> Identity {
    Identity { username: name.to_string() }
}

fn round_trip(ev: SocketEvent) {
    let bytes = encode_event(&ev);
    let back = decode_event(&bytes).expect("a well-formed frame must decode");
    assert_eq!(back, ev);
}

#[test]
fn send_message_round_trips() {
    round_trip(SocketEvent::SendMessage("hi".to_string()));
}

#[test]
fn send_message_empty_text_round_trips() {
    round_trip(SocketEvent::SendMessage(String::new()));
}

#[test]
fn send_message_non_ascii_round_trips() {
    round_trip(SocketEvent::SendMessage("héllo ☃ — ßig テスト".to_string()));
}

#[test]
fn provide_identity_round_trips() {
    round_trip(SocketEvent::ProvideIdentity(ident("alice")));
}

#[test]
fn plain_variants_round_trip() {
    round_trip(SocketEvent::RequestMessages);
    round_trip(SocketEvent::MessageReceived);
    round_trip(SocketEvent::IdentityReceived);
}

#[test]
fn empty_messages_round_trips() {
    round_trip(SocketEvent::Messages(vec![]));
}

#[test]
fn messages_with_known_and_unknown_senders_round_trips() {
    round_trip(SocketEvent::Messages(vec![
        (IdentityState::Known(ident("alice")), "first".to_string()),
        (IdentityState::Unknown, "second".to_string()),
        (IdentityState::Known(ident("bób")), "thírd ☃".to_string()),
    ]));
}

#[test]
fn empty_frame_is_rejected() {
    assert!(decode_event(&[]).is_none());
}

#[test]
fn unknown_tag_is_rejected() {
    assert!(decode_event(&[99]).is_none());
}

#[test]
fn truncated_frame_is_rejected() {
    let mut bytes = encode_event(&SocketEvent::SendMessage("hello".to_string()));
    bytes.pop();
    assert!(decode_event(&bytes).is_none());
}

#[test]
fn trailing_bytes_are_rejected() {
    let mut bytes = encode_event(&SocketEvent::RequestMessages);
    bytes.push(0);
    assert!(decode_event(&bytes).is_none());
}

#[test]
fn invalid_utf8_text_is_rejected() {
    // A SendMessage frame whose one text byte is not valid UTF-8.
    let bytes = vec![TAG_SEND_MESSAGE, 1, 0, 0, 0, 0, 0, 0, 0, 0xff];
    assert!(decode_event(&bytes).is_none());
}

#[test]
fn truncated_messages_list_is_rejected() {
    let mut bytes = encode_event(&SocketEvent::Messages(vec![
        (IdentityState::Unknown, "a".to_string()),
        (IdentityState::Unknown, "b".to_string()),
    ]));
    bytes.truncate(bytes.len() - 3);
    assert!(decode_event(&bytes).is_none());
}

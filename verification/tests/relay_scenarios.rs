use openchat::message_log::MessageLog;
use openchat::session::{ConnectionSession, SessionError};
use openchat::socketevent::{Identity, IdentityState, LogEntry, SocketEvent};

fn ident(name: &str) -> Identity {
    Identity { username: name.to_string() }
}

fn known(name: &str) -> IdentityState {
    IdentityState::Known(ident(name))
}

#[test]
fn declared_identity_is_seen_by_other_connection() {
    let mut log = MessageLog::new();
    let mut c1 = ConnectionSession::new();
    let mut c2 = ConnectionSession::new();

    let r = c1.handle_request(&mut log, SocketEvent::ProvideIdentity(ident("alice")));
    assert_eq!(r, Ok(SocketEvent::IdentityReceived));
    let r = c1.handle_request(&mut log, SocketEvent::SendMessage("hi".to_string()));
    assert_eq!(r, Ok(SocketEvent::MessageReceived));

    let r = c2.handle_request(&mut log, SocketEvent::ProvideIdentity(ident("bob")));
    assert_eq!(r, Ok(SocketEvent::IdentityReceived));
    let r = c2.handle_request(&mut log, SocketEvent::RequestMessages);
    assert_eq!(
        r,
        Ok(SocketEvent::Messages(vec![(known("alice"), "hi".to_string())]))
    );
    assert_eq!(c2.cursor(), 1);
}

#[test]
fn first_poll_returns_backlog_in_order_second_poll_is_empty() {
    let mut log = MessageLog::new();
    let mut c1 = ConnectionSession::new();
    let mut c2 = ConnectionSession::new();

    c1.handle_request(&mut log, SocketEvent::ProvideIdentity(ident("alice")))
        .unwrap();
    c1.handle_request(&mut log, SocketEvent::SendMessage("a".to_string()))
        .unwrap();
    c1.handle_request(&mut log, SocketEvent::SendMessage("b".to_string()))
        .unwrap();

    let r = c2.handle_request(&mut log, SocketEvent::RequestMessages);
    assert_eq!(
        r,
        Ok(SocketEvent::Messages(vec![
            (known("alice"), "a".to_string()),
            (known("alice"), "b".to_string()),
        ]))
    );
    let r = c2.handle_request(&mut log, SocketEvent::RequestMessages);
    assert_eq!(r, Ok(SocketEvent::Messages(vec![])));
}

#[test]
fn message_sent_before_identity_is_tagged_unknown() {
    let mut log = MessageLog::new();
    let mut c1 = ConnectionSession::new();
    let mut c2 = ConnectionSession::new();

    c1.handle_request(&mut log, SocketEvent::SendMessage("x".to_string()))
        .unwrap();

    let r = c2.handle_request(&mut log, SocketEvent::RequestMessages);
    assert_eq!(
        r,
        Ok(SocketEvent::Messages(vec![(IdentityState::Unknown, "x".to_string())]))
    );
}

#[test]
fn all_pollers_agree_on_one_order() {
    let mut log = MessageLog::new();
    let mut c1 = ConnectionSession::new();
    let mut c2 = ConnectionSession::new();
    let mut c3 = ConnectionSession::new();
    let mut c4 = ConnectionSession::new();

    c1.handle_request(&mut log, SocketEvent::SendMessage("from-first".to_string()))
        .unwrap();
    c2.handle_request(&mut log, SocketEvent::SendMessage("from-second".to_string()))
        .unwrap();

    let r3 = c3.handle_request(&mut log, SocketEvent::RequestMessages).unwrap();
    let r4 = c4.handle_request(&mut log, SocketEvent::RequestMessages).unwrap();
    match (&r3, &r4) {
        (SocketEvent::Messages(a), SocketEvent::Messages(b)) => {
            assert_eq!(a.len(), 2);
            assert_eq!(a, b);
            assert!(a.iter().any(|p| p.1 == "from-first"));
            assert!(a.iter().any(|p| p.1 == "from-second"));
        }
        _ => panic!("both polls must answer with Messages"),
    }
}

#[test]
fn identity_tag_is_frozen_at_append_time() {
    let mut log = MessageLog::new();
    let mut c1 = ConnectionSession::new();
    let mut c2 = ConnectionSession::new();

    c1.handle_request(&mut log, SocketEvent::ProvideIdentity(ident("alice")))
        .unwrap();
    c1.handle_request(&mut log, SocketEvent::SendMessage("early".to_string()))
        .unwrap();
    c1.handle_request(&mut log, SocketEvent::ProvideIdentity(ident("beth")))
        .unwrap();
    c1.handle_request(&mut log, SocketEvent::SendMessage("late".to_string()))
        .unwrap();

    let r = c2.handle_request(&mut log, SocketEvent::RequestMessages);
    assert_eq!(
        r,
        Ok(SocketEvent::Messages(vec![
            (known("alice"), "early".to_string()),
            (known("beth"), "late".to_string()),
        ]))
    );
}

#[test]
fn response_variant_as_request_is_fatal_to_session_only() {
    let mut log = MessageLog::new();
    let mut c1 = ConnectionSession::new();
    let mut c2 = ConnectionSession::new();

    c2.handle_request(&mut log, SocketEvent::SendMessage("kept".to_string()))
        .unwrap();

    for bad in [
        SocketEvent::MessageReceived,
        SocketEvent::IdentityReceived,
        SocketEvent::Messages(vec![]),
    ] {
        let r = c1.handle_request(&mut log, bad);
        assert_eq!(r, Err(SessionError::UnsupportedRequest));
    }

    // The failed session changed neither the log nor another session's view.
    assert_eq!(log.len(), 1);
    let r = c2.handle_request(&mut log, SocketEvent::RequestMessages);
    assert_eq!(
        r,
        Ok(SocketEvent::Messages(vec![(IdentityState::Unknown, "kept".to_string())]))
    );
}

#[test]
fn snapshot_from_zero_returns_every_appended_entry() {
    let mut log = MessageLog::new();
    for (who, what) in [("alice", "one"), ("bob", "two"), ("alice", "three")] {
        log.append(LogEntry { sender: known(who), text: what.to_string() });
    }
    let (entries, new_cursor) = log.snapshot_from(0);
    assert_eq!(new_cursor, 3);
    assert_eq!(
        entries,
        vec![
            LogEntry { sender: known("alice"), text: "one".to_string() },
            LogEntry { sender: known("bob"), text: "two".to_string() },
            LogEntry { sender: known("alice"), text: "three".to_string() },
        ]
    );
}

#[test]
fn advancing_cursor_never_replays_and_never_skips() {
    let mut log = MessageLog::new();
    log.append(LogEntry { sender: IdentityState::Unknown, text: "a".to_string() });
    log.append(LogEntry { sender: IdentityState::Unknown, text: "b".to_string() });

    let (batch1, cursor) = log.snapshot_from(0);
    log.append(LogEntry { sender: IdentityState::Unknown, text: "c".to_string() });
    let (batch2, cursor2) = log.snapshot_from(cursor);
    assert_eq!(cursor2, 3);

    let texts: Vec<String> = batch1.iter().chain(batch2.iter()).map(|e| e.text.clone()).collect();
    assert_eq!(texts, vec!["a".to_string(), "b".to_string(), "c".to_string()]);
}

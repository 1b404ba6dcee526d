//! The per-connection session state machine.

use chat_relay::bridge::SubscriptionSet;
use chat_relay::membership::ChannelManager;
use chat_relay::session::{SessionCommand, SessionEvent, SessionState, UserId};

fn step(s: SessionState, e: SessionEvent) -> (SessionState, SessionCommand) {
    chat_relay::session::session_step(s, e)
}

fn joined(user: i32, channels: Vec<i32>) -> SessionState {
    SessionState::Joined { user: UserId(user), channels }
}

#[test]
fn join_frame_asks_for_authentication() {
    let raw = br#"{"type":"JoinMessage","data":{"token":"tok","user_id":7}}"#.to_vec();
    let (s, c) = step(SessionState::Unauthenticated, SessionEvent::TextFrame(raw));
    assert!(matches!(s, SessionState::Unauthenticated));
    match c {
        SessionCommand::RequestAuth { token, user_id } => {
            assert_eq!(token, b"tok".to_vec());
            assert_eq!(user_id, 7);
        }
        _ => panic!("a join frame must ask for authentication"),
    }
}

#[test]
fn rejected_credential_closes_with_a_close_frame() {
    let (s, c) = step(
        SessionState::Unauthenticated,
        SessionEvent::AuthDecision { user_id: 7, valid: false },
    );
    assert!(matches!(s, SessionState::Closed));
    // a close frame goes out, and nothing was registered, so nothing to drop
    assert!(matches!(c, SessionCommand::CloseRejected { deregister: None }));
}

#[test]
fn accepted_credential_asks_the_directory() {
    let (s, c) = step(
        SessionState::Unauthenticated,
        SessionEvent::AuthDecision { user_id: 7, valid: true },
    );
    assert!(matches!(s, SessionState::Unauthenticated));
    assert!(matches!(c, SessionCommand::RequestChannels { user_id: 7 }));
}

#[test]
fn directory_reply_registers_and_joins() {
    let (s, c) = step(
        SessionState::Unauthenticated,
        SessionEvent::DirectoryReply { user_id: 7, channels: Some(vec![10, 20]) },
    );
    match s {
        SessionState::Joined { user, channels } => {
            assert_eq!(user, UserId(7));
            assert_eq!(channels, vec![10, 20]);
        }
        _ => panic!("a directory reply must join the session"),
    }
    match c {
        SessionCommand::Register { user_id, channels, previous } => {
            assert_eq!(user_id, 7);
            assert_eq!(channels, vec![10, 20]);
            assert_eq!(previous, None);
        }
        _ => panic!("a directory reply must register the user"),
    }
}

#[test]
fn directory_failure_fails_closed() {
    let (s, c) = step(
        SessionState::Unauthenticated,
        SessionEvent::DirectoryReply { user_id: 7, channels: None },
    );
    assert!(matches!(s, SessionState::Closed));
    assert!(matches!(c, SessionCommand::CloseRejected { deregister: None }));
}

#[test]
fn malformed_frame_keeps_the_connection() {
    let (s, c) = step(
        SessionState::Unauthenticated,
        SessionEvent::TextFrame(b"not json".to_vec()),
    );
    assert!(matches!(s, SessionState::Unauthenticated));
    assert!(matches!(c, SessionCommand::NotifyMalformed));

    let (s, c) = step(joined(7, vec![10]), SessionEvent::TextFrame(b"{".to_vec()));
    assert!(matches!(s, SessionState::Joined { .. }));
    assert!(matches!(c, SessionCommand::NotifyMalformed));
}

#[test]
fn leave_deregisters_and_closes() {
    let raw = br#"{"type":"LeaveMessage"}"#.to_vec();
    let (s, c) = step(joined(7, vec![10]), SessionEvent::TextFrame(raw));
    assert!(matches!(s, SessionState::Closed));
    assert!(matches!(c, SessionCommand::CloseLeft { deregister: Some(7) }));

    // a leave before any join still closes, with nothing to deregister
    let raw = br#"{"type":"LeaveMessage"}"#.to_vec();
    let (s, c) = step(SessionState::Unauthenticated, SessionEvent::TextFrame(raw));
    assert!(matches!(s, SessionState::Closed));
    assert!(matches!(c, SessionCommand::CloseLeft { deregister: None }));
}

#[test]
fn transport_close_cleans_up() {
    let (s, c) = step(joined(7, vec![10]), SessionEvent::TransportClosed);
    assert!(matches!(s, SessionState::Closed));
    assert!(matches!(c, SessionCommand::Cleanup { deregister: Some(7) }));

    let (s, c) = step(SessionState::Unauthenticated, SessionEvent::TransportClosed);
    assert!(matches!(s, SessionState::Closed));
    assert!(matches!(c, SessionCommand::Cleanup { deregister: None }));
}

#[test]
fn join_while_joined_is_idempotent() {
    // the same user joining again ends with no deregistration order
    let (s, c) = step(
        joined(7, vec![10]),
        SessionEvent::DirectoryReply { user_id: 7, channels: Some(vec![10, 20]) },
    );
    assert!(matches!(s, SessionState::Joined { .. }));
    assert!(matches!(
        c,
        SessionCommand::Register { user_id: 7, previous: None, .. }
    ));

    // a different user on the same connection replaces the registration
    let (_, c) = step(
        joined(7, vec![10]),
        SessionEvent::DirectoryReply { user_id: 8, channels: Some(vec![30]) },
    );
    assert!(matches!(
        c,
        SessionCommand::Register { user_id: 8, previous: Some(7), .. }
    ));
}

#[test]
fn closed_session_ignores_everything() {
    let events = [
        SessionEvent::TextFrame(br#"{"type":"LeaveMessage"}"#.to_vec()),
        SessionEvent::OtherFrame,
        SessionEvent::AuthDecision { user_id: 1, valid: true },
        SessionEvent::DirectoryReply { user_id: 1, channels: Some(vec![1]) },
        SessionEvent::TransportClosed,
    ];
    for e in events {
        let (s, c) = step(SessionState::Closed, e);
        assert!(matches!(s, SessionState::Closed));
        assert!(matches!(c, SessionCommand::Idle));
    }
}

#[test]
fn full_join_flow_against_the_index() {
    let mut mgr: ChannelManager<u8> = ChannelManager::new();
    let mut ss = SubscriptionSet::new();
    let mut subscribe_calls: i32 = 0;

    // the join frame arrives
    let raw = br#"{"type":"JoinMessage","data":{"token":"t","user_id":1}}"#.to_vec();
    let (state, c) = step(SessionState::Unauthenticated, SessionEvent::TextFrame(raw));
    let (token, user_id) = match c {
        SessionCommand::RequestAuth { token, user_id } => (token, user_id),
        _ => panic!("expected an authentication request"),
    };
    assert_eq!(token, b"t".to_vec());

    // the identity service accepts
    let (state, c) = step(state, SessionEvent::AuthDecision { user_id, valid: true });
    let user_id = match c {
        SessionCommand::RequestChannels { user_id } => user_id,
        _ => panic!("expected a directory request"),
    };

    // the directory answers, with a repeated channel
    let (state, c) = step(
        state,
        SessionEvent::DirectoryReply { user_id, channels: Some(vec![10, 10, 20]) },
    );
    match c {
        SessionCommand::Register { user_id, channels, previous } => {
            assert_eq!(previous, None);
            mgr.add_user(user_id, &channels, 0u8);
            for ch in ss.subscribe_plan(&channels) {
                subscribe_calls += 1;
                ss.mark_subscribed(ch);
            }
        }
        _ => panic!("expected a registration order"),
    }
    assert_eq!(subscribe_calls, 2);
    assert!(mgr.user_connected(1));
    assert_eq!(mgr.send_message(10, None), vec![1]);

    // the transport drops
    let (state, c) = step(state, SessionEvent::TransportClosed);
    assert!(matches!(state, SessionState::Closed));
    match c {
        SessionCommand::Cleanup { deregister: Some(u) } => {
            let released = mgr.remove_user(u);
            ss.release(&released);
        }
        _ => panic!("expected a cleanup order"),
    }
    assert!(!mgr.user_connected(1));
    assert!(!ss.currently_subscribed(10));
    assert!(!ss.currently_subscribed(20));
}

#[test]
fn other_frames_are_ignored() {
    let (s, c) = step(joined(7, vec![10]), SessionEvent::OtherFrame);
    assert!(matches!(s, SessionState::Joined { .. }));
    assert!(matches!(c, SessionCommand::Idle));
}

use rschat_client::connection::{
    handshake_result, login_message, outgoing_verdict, stamp_outgoing, ClientError, ConnState,
    Connection, InboundAction,
};
use rschat_client::message::{Message, MsgType};

#[test]
fn handshake_accept_establishes() {
    let c = handshake_result("ACC\n\n\n").unwrap();
    assert!(matches!(c.state, ConnState::Established));
    assert_eq!(c.tick_counter, 0);
    assert_eq!(c.missed_heartbeats, 0);
}

#[test]
fn handshake_other_reply_is_denied() {
    assert!(matches!(
        handshake_result("ERR\nserver\nbad password\n"),
        Err(ClientError::PermissionDenied)
    ));
    assert!(matches!(
        handshake_result("MSG\nserver\nhello\n"),
        Err(ClientError::PermissionDenied)
    ));
}

#[test]
fn handshake_undecodable_reply_is_denied() {
    assert!(matches!(handshake_result(""), Err(ClientError::PermissionDenied)));
    assert!(matches!(handshake_result("garbage"), Err(ClientError::PermissionDenied)));
    assert!(matches!(
        handshake_result("ZZZ\nx\ny\n"),
        Err(ClientError::PermissionDenied)
    ));
}

#[test]
fn login_frame_bytes() {
    assert_eq!(login_message("alice", "secret").to_string(), "LIN\nalice\nsecret\n");
}

#[test]
fn heartbeat_cadence_exactly_one_probe_in_500_ticks() {
    let mut c = Connection::established();
    let mut probes = 0;
    for _ in 0..500 {
        if let Some(p) = c.tick_probe("alice") {
            assert!(matches!(p.msg, MsgType::CHK));
            assert_eq!(p.from, "alice");
            assert_eq!(p.content, "");
            probes += 1;
        }
    }
    assert_eq!(probes, 1);
    assert_eq!(c.missed_heartbeats, 1);
    assert_eq!(c.tick_counter, 0);
}

#[test]
fn liveness_threshold_aborts_next_silent_tick() {
    let mut over = Connection::established();
    over.missed_heartbeats = 6;
    assert!(matches!(over.handle_inbound(None, "alice"), Err(ClientError::ConnectionAborted)));

    let mut at_limit = Connection::established();
    at_limit.missed_heartbeats = 5;
    assert!(matches!(at_limit.handle_inbound(None, "alice"), Ok(InboundAction::Idle)));
}

#[test]
fn accept_resets_missed_heartbeats() {
    let mut c = Connection::established();
    c.missed_heartbeats = 42;
    let acc = Message::new(MsgType::ACC, "server", "");
    assert!(matches!(c.handle_inbound(Some(acc), "alice"), Ok(InboundAction::Idle)));
    assert_eq!(c.missed_heartbeats, 0);
}

#[test]
fn peer_probe_is_answered_with_accept() {
    let mut c = Connection::established();
    let chk = Message::new(MsgType::CHK, "server", "");
    match c.handle_inbound(Some(chk), "alice") {
        Ok(InboundAction::Reply(a)) => {
            assert!(matches!(a.msg, MsgType::ACC));
            assert_eq!(a.from, "alice");
            assert_eq!(a.content, "");
        }
        _ => panic!("expected a reply to the probe"),
    }
}

#[test]
fn chat_message_is_delivered_unchanged() {
    let mut c = Connection::established();
    c.missed_heartbeats = 3;
    let data = Message::new(MsgType::MSG, "bob", "hello\nworld");
    match c.handle_inbound(Some(data), "alice") {
        Ok(InboundAction::Deliver(m)) => {
            assert!(matches!(m.msg, MsgType::MSG));
            assert_eq!(m.from, "bob");
            assert_eq!(m.content, "hello\nworld");
        }
        _ => panic!("expected delivery"),
    }
    // Delivery does not touch the missed count.
    assert_eq!(c.missed_heartbeats, 3);
}

#[test]
fn peer_error_or_logout_aborts() {
    let mut c = Connection::established();
    let err = Message::new(MsgType::ERR, "server", "down");
    assert!(matches!(c.handle_inbound(Some(err), "alice"), Err(ClientError::ConnectionAborted)));
    let lou = Message::new(MsgType::LOU, "server", "");
    assert!(matches!(c.handle_inbound(Some(lou), "alice"), Err(ClientError::ConnectionAborted)));
}

#[test]
fn inbound_login_is_a_no_op() {
    let mut c = Connection::established();
    let lin = Message::new(MsgType::LIN, "server", "x");
    assert!(matches!(c.handle_inbound(Some(lin), "alice"), Ok(InboundAction::Idle)));
    assert_eq!(c.missed_heartbeats, 0);
}

#[test]
fn local_error_or_logout_ends_session_after_write() {
    assert!(matches!(outgoing_verdict(MsgType::ERR), Err(ClientError::ConnectionAborted)));
    assert!(matches!(outgoing_verdict(MsgType::LOU), Err(ClientError::ConnectionAborted)));
    assert!(outgoing_verdict(MsgType::MSG).is_ok());
    assert!(outgoing_verdict(MsgType::CHK).is_ok());
}

#[test]
fn stamp_sets_only_the_sender() {
    let m = Message::new(MsgType::MSG, "", "hi\nthere");
    let stamped = stamp_outgoing(m, "alice");
    assert!(matches!(stamped.msg, MsgType::MSG));
    assert_eq!(stamped.from, "alice");
    assert_eq!(stamped.content, "hi\nthere");
}

#[test]
fn scenario_handshake_then_chat() {
    // The client logs in as alice with password secret.
    assert_eq!(login_message("alice", "secret").to_string(), "LIN\nalice\nsecret\n");
    // The server accepts: the session is established.
    let mut conn = handshake_result("ACC\n\n\n").unwrap();
    assert!(matches!(conn.state, ConnState::Established));
    // The local side enqueues a chat message; stamped and encoded, these are
    // the bytes that go on the wire.
    let outgoing = stamp_outgoing(Message::new(MsgType::MSG, "", "hi\nthere"), "alice");
    assert_eq!(outgoing.to_string(), "MSG\nalice\nhi\\nthere\n");
    assert!(outgoing_verdict(outgoing.msg).is_ok());
    // The server replies with a chat message: it is delivered verbatim.
    let inbound = Message::from("MSG\nbob\nhello\n");
    match conn.handle_inbound(inbound, "alice") {
        Ok(InboundAction::Deliver(m)) => {
            assert!(matches!(m.msg, MsgType::MSG));
            assert_eq!(m.from, "bob");
            assert_eq!(m.content, "hello");
        }
        _ => panic!("expected the chat message to be delivered"),
    }
}

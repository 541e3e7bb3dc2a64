use rschat_client::message::{Message, MsgType};

#[test]
fn round_trip_embedded_newlines() {
    let m = Message::new(MsgType::MSG, "alice", "hi\nthere\nfriend");
    let wire = m.to_string();
    let back = Message::from(&wire).unwrap();
    assert!(matches!(back.msg, MsgType::MSG));
    assert_eq!(back.from, "alice");
    assert_eq!(back.content, "hi\nthere\nfriend");
}

#[test]
fn round_trip_every_kind() {
    let kinds = [
        MsgType::MSG,
        MsgType::ERR,
        MsgType::LIN,
        MsgType::LOU,
        MsgType::ACC,
        MsgType::CHK,
    ];
    for k in kinds {
        let m = Message::new(k, "who", "body\nwith newline");
        let back = Message::from(&m.to_string()).unwrap();
        assert_eq!(back.from, "who");
        assert_eq!(back.content, "body\nwith newline");
    }
}

#[test]
fn round_trip_empty_fields() {
    let m = Message::new(MsgType::ACC, "", "");
    let wire = m.to_string();
    assert_eq!(wire, "ACC\n\n\n");
    let back = Message::from(&wire).unwrap();
    assert!(matches!(back.msg, MsgType::ACC));
    assert_eq!(back.from, "");
    assert_eq!(back.content, "");
}

#[test]
fn encode_exact_frame() {
    let m = Message::new(MsgType::MSG, "alice", "hi\nthere");
    assert_eq!(m.to_string(), "MSG\nalice\nhi\\nthere\n");
}

#[test]
fn decode_exact_frame() {
    let m = Message::from("MSG\nbob\nhello\n").unwrap();
    assert!(matches!(m.msg, MsgType::MSG));
    assert_eq!(m.from, "bob");
    assert_eq!(m.content, "hello");
}

#[test]
fn decode_unescapes_content() {
    let m = Message::from("MSG\nbob\nhi\\nthere\n").unwrap();
    assert_eq!(m.content, "hi\nthere");
}

#[test]
fn decode_fewer_than_three_lines_fails() {
    assert!(Message::from("").is_none());
    assert!(Message::from("MSG").is_none());
    assert!(Message::from("MSG\n").is_none());
    assert!(Message::from("MSG\nbob").is_none());
    assert!(Message::from("MSG\nbob\n").is_none());
}

#[test]
fn decode_unknown_tag_fails() {
    assert!(Message::from("XYZ\nbob\nhello\n").is_none());
    assert!(Message::from("msg\nbob\nhello\n").is_none());
    assert!(Message::from("MSGX\nbob\nhello\n").is_none());
    assert!(Message::from("MS\nbob\nhello\n").is_none());
    assert!(Message::from("\nbob\nhello\n").is_none());
}

#[test]
fn decode_tolerates_trailing_padding() {
    let mut buf = String::from("ACC\nserver\nok\n");
    buf.push_str("\0\0\0\0\0\0");
    let m = Message::from(&buf).unwrap();
    assert!(matches!(m.msg, MsgType::ACC));
    assert_eq!(m.from, "server");
    assert_eq!(m.content, "ok");
}

#[test]
fn decode_ignores_lines_past_the_third() {
    let m = Message::from("MSG\nbob\nfirst\nsecond\nthird\n").unwrap();
    assert_eq!(m.content, "first");
}

#[test]
fn literal_escape_pair_is_lossy() {
    // A payload that already holds a backslash-n pair was never produced by
    // this codec; decoding replaces the pair, by design.
    let m = Message::new(MsgType::MSG, "a", "x\\ny");
    let back = Message::from(&m.to_string()).unwrap();
    assert_eq!(back.content, "x\ny");
}

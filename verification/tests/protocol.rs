//! Decoding the wire messages.

use chat_relay::protocol::{
    parse_broadcast, parse_channel_id, parse_channels, parse_frame, IncomingMessageFromUser,
};

fn join_of(raw: &[u8]) -> Option<(Vec<u8>, i32)> {
    match parse_frame(&raw.to_vec()) {
        Some(IncomingMessageFromUser::JoinMessage(j)) => Some((j.token, j.user_id)),
        _ => None,
    }
}

fn is_leave(raw: &[u8]) -> bool {
    matches!(
        parse_frame(&raw.to_vec()),
        Some(IncomingMessageFromUser::LeaveMessage)
    )
}

#[test]
fn join_frame_decodes() {
    let (token, user_id) =
        join_of(br#"{"type":"JoinMessage","data":{"token":"abc.def","user_id":7}}"#)
            .expect("join frame must decode");
    assert_eq!(token, b"abc.def".to_vec());
    assert_eq!(user_id, 7);
}

#[test]
fn join_frame_fields_may_come_in_any_order() {
    let (token, user_id) =
        join_of(br#"{"data":{"user_id":-3,"token":"t"},"type":"JoinMessage"}"#)
            .expect("join frame must decode");
    assert_eq!(token, b"t".to_vec());
    assert_eq!(user_id, -3);
}

#[test]
fn join_frame_takes_whitespace() {
    let raw = b" { \"type\" : \"JoinMessage\" ,\n\t\"data\" : { \"token\" : \"t\" , \"user_id\" : 1 } } ";
    assert!(join_of(raw).is_some());
}

#[test]
fn leave_frame_decodes() {
    assert!(is_leave(br#"{"type":"LeaveMessage"}"#));
    assert!(is_leave(b" {  \"type\"  :  \"LeaveMessage\"  } "));
}

#[test]
fn string_escapes_decode() {
    let (token, _) = join_of(
        br#"{"type":"JoinMessage","data":{"token":"a\"b\\c\ndAe","user_id":1}}"#,
    )
    .expect("escaped token must decode");
    assert_eq!(token, b"a\"b\\c\ndAe".to_vec());
}

#[test]
fn unicode_escape_encodes_utf8() {
    let (token, _) = join_of(
        br#"{"type":"JoinMessage","data":{"token":"\u00e9\u20ac","user_id":1}}"#,
    )
    .expect("unicode escapes must decode");
    assert_eq!(String::from_utf8(token).unwrap(), "\u{e9}\u{20ac}");
}

#[test]
fn malformed_frames_are_rejected() {
    // not JSON at all
    assert!(parse_frame(&b"hello".to_vec()).is_none());
    // unknown tag
    assert!(parse_frame(&br#"{"type":"Ping"}"#.to_vec()).is_none());
    // missing data
    assert!(parse_frame(&br#"{"type":"JoinMessage"}"#.to_vec()).is_none());
    // extra field
    assert!(parse_frame(
        &br#"{"type":"LeaveMessage","more":1}"#.to_vec()
    )
    .is_none());
    // user id out of the 32-bit range
    assert!(parse_frame(
        &br#"{"type":"JoinMessage","data":{"token":"t","user_id":3000000000}}"#.to_vec()
    )
    .is_none());
    // trailing garbage
    assert!(parse_frame(&br#"{"type":"LeaveMessage"} x"#.to_vec()).is_none());
    // an unescaped control byte inside a string
    assert!(parse_frame(&b"{\"type\":\"LeaveMessage\x01\"}".to_vec()).is_none());
    // a surrogate code point
    assert!(parse_frame(
        &br#"{"type":"JoinMessage","data":{"token":"\ud800","user_id":1}}"#.to_vec()
    )
    .is_none());
}

#[test]
fn broadcast_payload_decodes() {
    let p = parse_broadcast(&br#"{"message":"hi","sender":1}"#.to_vec())
        .expect("payload must decode");
    assert_eq!(p.message, b"hi".to_vec());
    assert_eq!(p.sender, 1);
    let p = parse_broadcast(&br#"{"sender":-2,"message":""}"#.to_vec())
        .expect("payload must decode");
    assert_eq!(p.message, Vec::<u8>::new());
    assert_eq!(p.sender, -2);
}

#[test]
fn broadcast_payload_rejects_other_shapes() {
    assert!(parse_broadcast(&br#"{"message":"hi"}"#.to_vec()).is_none());
    assert!(parse_broadcast(&br#"{"message":"hi","sender":"1"}"#.to_vec()).is_none());
    assert!(parse_broadcast(&br#"[1,2]"#.to_vec()).is_none());
}

#[test]
fn channels_reply_decodes() {
    let ch = parse_channels(&br#"{"id":[10,20,30]}"#.to_vec()).expect("reply must decode");
    assert_eq!(ch.id, vec![10, 20, 30]);
    let ch = parse_channels(&br#"{ "id" : [ ] }"#.to_vec()).expect("empty reply must decode");
    assert_eq!(ch.id, Vec::<i32>::new());
}

#[test]
fn channels_reply_rejects_other_shapes() {
    assert!(parse_channels(&br#"{"id":[10,"x"]}"#.to_vec()).is_none());
    assert!(parse_channels(&br#"{"id":[3000000000]}"#.to_vec()).is_none());
    assert!(parse_channels(&br#"{"id":[10],"more":1}"#.to_vec()).is_none());
}

#[test]
fn channel_names_parse_as_decimal_ids() {
    assert_eq!(parse_channel_id(&b"10".to_vec()), Some(10));
    assert_eq!(parse_channel_id(&b"0".to_vec()), Some(0));
    assert_eq!(parse_channel_id(&b"-7".to_vec()), Some(-7));
    assert_eq!(parse_channel_id(&b"2147483647".to_vec()), Some(i32::MAX));
    assert_eq!(parse_channel_id(&b"007".to_vec()), None);
    assert_eq!(parse_channel_id(&b"12a".to_vec()), None);
    assert_eq!(parse_channel_id(&b"".to_vec()), None);
    assert_eq!(parse_channel_id(&b"2147483648".to_vec()), None);
}

#[test]
fn deeper_nesting_does_not_fit_the_grammar() {
    // the protocol never nests below one object of scalars
    assert!(parse_frame(
        &br#"{"type":"JoinMessage","data":{"token":{"inner":1},"user_id":1}}"#.to_vec()
    )
    .is_none());
    assert!(parse_channels(&br#"{"id":[[1]]}"#.to_vec()).is_none());
    assert!(parse_channels(&br#"{"id":["a"]}"#.to_vec()).is_none());
}

#[test]
fn numbers_follow_json_rules() {
    // a redundant leading zero is not a JSON integer
    assert!(parse_broadcast(&br#"{"message":"m","sender":01}"#.to_vec()).is_none());
    // floats do not fit the grammar
    assert!(parse_broadcast(&br#"{"message":"m","sender":1.5}"#.to_vec()).is_none());
}

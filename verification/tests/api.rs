//! The request-body validation rules of the HTTP side.

use chat_relay::api::{
    AddUserToChannel, Channel, MessageSendType, WebSocketUser, WebSocketUserChannels,
};

fn s(text: &str) -> String {
    text.to_string()
}

#[test]
fn add_user_to_channel_rules() {
    let ok = AddUserToChannel { channel_name: s("general"), username: s("longname") };
    assert!(ok.validate());
    let short_user = AddUserToChannel { channel_name: s("general"), username: s("abc") };
    assert!(!short_user.validate());
    let empty_channel = AddUserToChannel { channel_name: s(""), username: s("longname") };
    assert!(!empty_channel.validate());
    let long_channel = AddUserToChannel {
        channel_name: s("abcdefghijklmnopqrstu"),
        username: s("longname"),
    };
    assert!(!long_channel.validate());
}

#[test]
fn channel_name_rules() {
    assert!(Channel { channel_name: s("a") }.validate());
    assert!(Channel { channel_name: s("abcdefghijklmnopqrst") }.validate());
    assert!(!Channel { channel_name: s("") }.validate());
    assert!(!Channel { channel_name: s("abcdefghijklmnopqrstu") }.validate());
}

#[test]
fn channel_name_counts_characters_not_bytes() {
    // twenty two-byte characters are twenty characters
    assert!(Channel { channel_name: "é".repeat(20) }.validate());
    assert!(!Channel { channel_name: "é".repeat(21) }.validate());
}

#[test]
fn socket_request_rules() {
    assert!(WebSocketUserChannels { endpoint_secret: s("0123456789"), user_id: 1 }.validate());
    assert!(!WebSocketUserChannels { endpoint_secret: s("012345678"), user_id: 1 }.validate());
    assert!(WebSocketUser {
        token: s("t"),
        endpoint_secret: s("0123456789"),
        user_id: 1
    }
    .validate());
    assert!(!WebSocketUser {
        token: s(""),
        endpoint_secret: s("0123456789"),
        user_id: 1
    }
    .validate());
    assert!(!WebSocketUser { token: s("t"), endpoint_secret: s("x"), user_id: 1 }.validate());
}

#[test]
fn message_rules() {
    assert!(MessageSendType { message: s("hi"), channel_id: 1 }.validate());
    assert!(!MessageSendType { message: s(""), channel_id: 1 }.validate());
}

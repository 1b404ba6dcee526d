//! The data shapes of the chat service's HTTP side: the records its storage
//! returns and the request bodies its endpoints take, with the validation
//! rules those bodies must pass.
//!
//! The HTTP handlers themselves are transport code and live outside the
//! library; they hand these values in and read the `validate` verdicts back.
//! Lengths count characters, not bytes.

use vstd::prelude::*;
use vstd::string::StrSliceExecFns;

verus! {

/// The authenticated caller a request handler works for.
pub struct UserData {
    pub username: String,
    pub user_id: i32,
}

/// A channel record.
pub struct ChannelDB {
    pub id: i32,
    pub name: String,
}

/// A membership record: one user in one channel.
pub struct MembershipDb {
    pub user_id: i32,
    pub channel_id: i32,
}

/// A stored message record.
pub struct MessagesDb {
    pub id: i32,
    pub sender_id: i32,
    pub channel_id: i32,
}

/// A user record.
pub struct UserFromDB {
    pub id: i32,
    pub username: String,
}

/// A user record with its password hash.
pub struct UserFromDBWithPassword {
    pub id: i32,
    pub username: String,
    pub password: String,
}

/// Request body: add a user to a channel.
pub struct AddUserToChannel {
    pub channel_name: String,
    pub username: String,
}

/// Request body: create a channel.
pub struct Channel {
    pub channel_name: String,
}

/// Request body: the channel list of a user, asked by the socket layer.
pub struct WebSocketUserChannels {
    pub endpoint_secret: String,
    pub user_id: i32,
}

/// Request body: validate a user's credential, asked by the socket layer.
pub struct WebSocketUser {
    pub token: String,
    pub endpoint_secret: String,
    pub user_id: i32,
}

/// Request body: send a message to a channel.
pub struct MessageSendType {
    pub message: String,
    pub channel_id: i32,
}

impl AddUserToChannel {
    /// The body is well-formed: the channel name has 1 to 20 characters and
    /// the username 6 to 20.
    pub fn validate(&self) -> (ok: bool)
        ensures
            ok <==> (1 <= self.channel_name@.len() <= 20 && 6 <= self.username@.len() <= 20),
    {
        let cn = self.channel_name.as_str().unicode_len();
        let un = self.username.as_str().unicode_len();
        1 <= cn && cn <= 20 && 6 <= un && un <= 20
    }
}

impl Channel {
    /// The body is well-formed: the channel name has 1 to 20 characters.
    pub fn validate(&self) -> (ok: bool)
        ensures
            ok <==> 1 <= self.channel_name@.len() <= 20,
    {
        let cn = self.channel_name.as_str().unicode_len();
        1 <= cn && cn <= 20
    }
}

impl WebSocketUserChannels {
    /// The body is well-formed: the shared secret has exactly 10 characters.
    pub fn validate(&self) -> (ok: bool)
        ensures
            ok <==> self.endpoint_secret@.len() == 10,
    {
        self.endpoint_secret.as_str().unicode_len() == 10
    }
}

impl WebSocketUser {
    /// The body is well-formed: a credential is given and the shared secret
    /// has exactly 10 characters.
    pub fn validate(&self) -> (ok: bool)
        ensures
            ok <==> (self.token@.len() >= 1 && self.endpoint_secret@.len() == 10),
    {
        let tn = self.token.as_str().unicode_len();
        let sn = self.endpoint_secret.as_str().unicode_len();
        tn >= 1 && sn == 10
    }
}

impl MessageSendType {
    /// The body is well-formed: the message is not empty.
    pub fn validate(&self) -> (ok: bool)
        ensures
            ok <==> self.message@.len() >= 1,
    {
        self.message.as_str().unicode_len() >= 1
    }
}

} // verus!

//! The per-connection session state machine.
//!
//! A session is `Unauthenticated` until a join completes, `Joined` while the
//! user is registered, and `Closed` at the end; there are no other states.
//! The machine itself performs no I/O: the caller runs the connection, hands
//! each happening in as a `SessionEvent`, performs the returned
//! `SessionCommand` (send a notice, call the identity or directory service,
//! register or deregister with the membership index, close), and feeds the
//! next event back in.
//!
//! Failure policy: a malformed frame costs an error notice, never the
//! connection; a rejected credential — or a directory service that cannot
//! answer — closes the session (fail closed); any close of a `Joined`
//! session carries the order to deregister its user, so no registration
//! outlives its connection.

use crate::protocol::{parse_frame, spec_parse_frame, GFrame, IncomingMessageFromUser};
use vstd::prelude::*;

verus! {

/// Identity of an authenticated user.
#[derive(PartialEq, Eq, Structural, Clone, Copy, Debug)]
pub struct UserId(pub i32);

/// The state of one client connection.
pub enum SessionState {
    Unauthenticated,
    Joined { user: UserId, channels: Vec<i32> },
    Closed,
}

/// One thing that happened on the connection.
pub enum SessionEvent {
    /// A text frame arrived, as raw bytes.
    TextFrame(Vec<u8>),
    /// A non-text transport frame arrived (binary, ping, pong): ignored.
    OtherFrame,
    /// The identity service decided on a credential for `user_id`.
    AuthDecision { user_id: i32, valid: bool },
    /// The channel directory answered for `user_id`, or could not (`None`).
    DirectoryReply { user_id: i32, channels: Option<Vec<i32>> },
    /// The transport closed or failed.
    TransportClosed,
}

/// What the caller must do after a step.
pub enum SessionCommand {
    /// Nothing.
    Idle,
    /// Send a textual error notice; the connection stays open.
    NotifyMalformed,
    /// Ask the identity service whether `token` authenticates `user_id`.
    RequestAuth { token: Vec<u8>, user_id: i32 },
    /// Ask the channel directory for `user_id`'s channels.
    RequestChannels { user_id: i32 },
    /// Register the user with the membership index and ensure the bus
    /// subscriptions for its channels; deregister `previous` first when a
    /// different user was registered on this connection.
    Register { user_id: i32, channels: Vec<i32>, previous: Option<i32> },
    /// Send a close frame and stop; deregister first when `deregister` names
    /// a user.
    CloseRejected { deregister: Option<i32> },
    /// Flush and close the connection after a leave; deregister first when
    /// `deregister` names a user.
    CloseLeft { deregister: Option<i32> },
    /// The transport is gone: deregister when `deregister` names a user;
    /// there is nothing left to send.
    Cleanup { deregister: Option<i32> },
}

/// Mathematical image of a session state.
pub enum GState {
    Unauth,
    Joined(int, Seq<i32>),
    Closed,
}

/// Mathematical image of an event.
pub enum GEvent {
    Text(Seq<u8>),
    Other,
    Auth(int, bool),
    Dir(int, Option<Seq<i32>>),
    Hangup,
}

/// Mathematical image of a command.
pub enum GCommand {
    Idle,
    Notify,
    ReqAuth(Seq<u8>, int),
    ReqChans(int),
    Register(int, Seq<i32>, Option<int>),
    CloseRejected(Option<int>),
    CloseLeft(Option<int>),
    Cleanup(Option<int>),
}

/// Mathematical image of an optional id.
pub open spec fn opt_rep(o: Option<i32>) -> Option<int> {
    match o {
        Some(x) => Some(x as int),
        None => None,
    }
}

impl SessionState {
    /// The mathematical state this value denotes.
    pub open spec fn rep(self) -> GState {
        match self {
            SessionState::Unauthenticated => GState::Unauth,
            SessionState::Joined { user, channels } => GState::Joined(user.0 as int, channels@),
            SessionState::Closed => GState::Closed,
        }
    }
}

impl SessionEvent {
    /// The mathematical event this value denotes.
    pub open spec fn rep(self) -> GEvent {
        match self {
            SessionEvent::TextFrame(b) => GEvent::Text(b@),
            SessionEvent::OtherFrame => GEvent::Other,
            SessionEvent::AuthDecision { user_id, valid } => GEvent::Auth(user_id as int, valid),
            SessionEvent::DirectoryReply { user_id, channels } => GEvent::Dir(
                user_id as int,
                match channels {
                    Some(v) => Some(v@),
                    None => None,
                },
            ),
            SessionEvent::TransportClosed => GEvent::Hangup,
        }
    }
}

impl SessionCommand {
    /// The mathematical command this value denotes.
    pub open spec fn rep(self) -> GCommand {
        match self {
            SessionCommand::Idle => GCommand::Idle,
            SessionCommand::NotifyMalformed => GCommand::Notify,
            SessionCommand::RequestAuth { token, user_id } => GCommand::ReqAuth(
                token@,
                user_id as int,
            ),
            SessionCommand::RequestChannels { user_id } => GCommand::ReqChans(user_id as int),
            SessionCommand::Register { user_id, channels, previous } => GCommand::Register(
                user_id as int,
                channels@,
                opt_rep(previous),
            ),
            SessionCommand::CloseRejected { deregister } => GCommand::CloseRejected(
                opt_rep(deregister),
            ),
            SessionCommand::CloseLeft { deregister } => GCommand::CloseLeft(opt_rep(deregister)),
            SessionCommand::Cleanup { deregister } => GCommand::Cleanup(opt_rep(deregister)),
        }
    }
}

/// The registered user of a state, if one is.
pub open spec fn joined_user(s: GState) -> Option<int> {
    match s {
        GState::Joined(u, _) => Some(u),
        _ => None,
    }
}

/// The transition function of the session machine, exactly as the exec step
/// computes it.  A closed session ignores everything; a text frame is
/// decoded and answered; authentication and directory replies carry a join
/// forward or close the session; a transport close cleans up.
pub open spec fn spec_step(s: GState, e: GEvent) -> (GState, GCommand) {
    if s is Closed {
        (GState::Closed, GCommand::Idle)
    } else {
        match e {
            GEvent::Text(bytes) => match spec_parse_frame(bytes) {
                None => (s, GCommand::Notify),
                Some(GFrame::Join { token, user_id }) => (s, GCommand::ReqAuth(token, user_id)),
                Some(GFrame::Leave) => (GState::Closed, GCommand::CloseLeft(joined_user(s))),
            },
            GEvent::Other => (s, GCommand::Idle),
            GEvent::Auth(u, valid) => if valid {
                (s, GCommand::ReqChans(u))
            } else {
                (GState::Closed, GCommand::CloseRejected(joined_user(s)))
            },
            GEvent::Dir(u, reply) => match reply {
                None => (GState::Closed, GCommand::CloseRejected(joined_user(s))),
                Some(cs) => (
                    GState::Joined(u, cs),
                    GCommand::Register(
                        u,
                        cs,
                        match joined_user(s) {
                            Some(u0) => if u0 != u {
                                Some(u0)
                            } else {
                                None
                            },
                            None => None,
                        },
                    ),
                ),
            },
            GEvent::Hangup => (GState::Closed, GCommand::Cleanup(joined_user(s))),
        }
    }
}

/// Step the session machine: from the current state and one event to the
/// next state and the command the caller must carry out.
pub fn session_step(state: SessionState, event: SessionEvent) -> (r: (
    SessionState,
    SessionCommand,
))
    ensures
        (r.0.rep(), r.1.rep()) == spec_step(state.rep(), event.rep()),
{
    let joined: Option<i32> = match &state {
        SessionState::Joined { user, .. } => Some(user.0),
        _ => None,
    };
    if let SessionState::Closed = &state {
        return (SessionState::Closed, SessionCommand::Idle);
    }
    match event {
        SessionEvent::TextFrame(bytes) => {
            match parse_frame(&bytes) {
                None => (state, SessionCommand::NotifyMalformed),
                Some(IncomingMessageFromUser::JoinMessage(jm)) => (
                    state,
                    SessionCommand::RequestAuth { token: jm.token, user_id: jm.user_id },
                ),
                Some(IncomingMessageFromUser::LeaveMessage) => (
                    SessionState::Closed,
                    SessionCommand::CloseLeft { deregister: joined },
                ),
            }
        },
        SessionEvent::OtherFrame => (state, SessionCommand::Idle),
        SessionEvent::AuthDecision { user_id, valid } => {
            if valid {
                (state, SessionCommand::RequestChannels { user_id })
            } else {
                (SessionState::Closed, SessionCommand::CloseRejected { deregister: joined })
            }
        },
        SessionEvent::DirectoryReply { user_id, channels } => {
            match channels {
                None => (
                    SessionState::Closed,
                    SessionCommand::CloseRejected { deregister: joined },
                ),
                Some(cs) => {
                    let previous: Option<i32> = match joined {
                        Some(u0) => if u0 != user_id {
                            Some(u0)
                        } else {
                            None
                        },
                        None => None,
                    };
                    let channels2 = clone_ids(&cs);
                    (
                        SessionState::Joined { user: UserId(user_id), channels: cs },
                        SessionCommand::Register { user_id, channels: channels2, previous },
                    )
                },
            }
        },
        SessionEvent::TransportClosed => (
            SessionState::Closed,
            SessionCommand::Cleanup { deregister: joined },
        ),
    }
}

/// A fresh vector holding the same channel ids.
fn clone_ids(v: &Vec<i32>) -> (r: Vec<i32>)
    ensures
        r@ == v@,
{
    let mut r: Vec<i32> = Vec::new();
    let mut i: usize = 0;
    while i < v.len()
        invariant
            i <= v@.len(),
            r@ =~= v@.take(i as int),
        decreases v@.len() - i,
    {
        r.push(v[i]);
        proof {
            assert(r@ =~= v@.take(i as int + 1));
        }
        i += 1;
    }
    proof {
        assert(v@.take(i as int) =~= v@);
    }
    r
}

/// Law: a rejected credential closes the session with a close frame, and the
/// machine never asks for a registration in answer to it — so no
/// membership-index entry can come out of a rejected join.
pub proof fn lemma_rejected_join_closes(s: GState, u: int)
    ensures
        spec_step(s, GEvent::Auth(u, false)).0 is Closed,
        !(spec_step(s, GEvent::Auth(u, false)).1 is Register),
        !(s is Closed) ==> spec_step(s, GEvent::Auth(u, false)).1 is CloseRejected,
{
}

/// Law: a closed session is terminal — every further event leaves it closed
/// and asks the caller for nothing.
pub proof fn lemma_closed_is_terminal(e: GEvent)
    ensures
        spec_step(GState::Closed, e).0 is Closed,
        spec_step(GState::Closed, e).1 is Idle,
{
}

/// Law: a malformed frame costs exactly an error notice — the state is kept
/// and the connection stays open.
pub proof fn lemma_malformed_keeps_state(s: GState, bytes: Seq<u8>)
    requires
        !(s is Closed),
        spec_parse_frame(bytes) is None,
    ensures
        spec_step(s, GEvent::Text(bytes)) == (s, GCommand::Notify),
{
}

} // verus!

//! The messages of the distribution layer, read off the JSON shape of
//! `json`:
//!
//! - inbound control frames from a client connection:
//!   `{"type":"JoinMessage","data":{"token":"…","user_id":…}}` and
//!   `{"type":"LeaveMessage"}`;
//! - payloads arriving from the shared bus: `{"message":"…","sender":…}`;
//! - channel-directory replies: `{"id":[…]}`;
//! - the decimal channel id that names a bus channel.
//!
//! Each `parse_*` function returns exactly what its `spec_parse_*` companion
//! denotes: fields may come in any order, unknown or repeated fields do not
//! fit, and every id must fit `i32`.

use crate::json::{
    doc_rep, inner_rep, int_lit, parse_doc, spec_doc, spec_int, GScalar, GVal, JsonScalar,
    JsonVal,
};
use vstd::prelude::*;

verus! {

/// A control frame sent by the client over its connection.
pub enum IncomingMessageFromUser {
    JoinMessage(JoinMessage),
    LeaveMessage,
}

/// The payload of a join frame: a credential and the claimed user id.  The
/// credential is carried as the decoded bytes of the JSON string.
pub struct JoinMessage {
    pub token: Vec<u8>,
    pub user_id: i32,
}

/// A payload read from the shared bus: the opaque message text to forward
/// and the id of its sender.
pub struct BroadcastPayload {
    pub message: Vec<u8>,
    pub sender: i32,
}

/// The channel list of a channel-directory reply.
pub struct Channels {
    pub id: Vec<i32>,
}

/// Mathematical image of a control frame.
pub enum GFrame {
    Join { token: Seq<u8>, user_id: int },
    Leave,
}

impl IncomingMessageFromUser {
    /// The mathematical value this frame denotes.
    pub open spec fn rep(self) -> GFrame {
        match self {
            IncomingMessageFromUser::JoinMessage(j) => GFrame::Join {
                token: j.token@,
                user_id: j.user_id as int,
            },
            IncomingMessageFromUser::LeaveMessage => GFrame::Leave,
        }
    }
}

/// `n` fits a 32-bit id.
pub open spec fn in_i32(n: int) -> bool {
    -0x8000_0000 <= n < 0x8000_0000
}

/// The bytes of "type".
pub open spec fn key_type() -> Seq<u8> {
    seq![116u8, 121u8, 112u8, 101u8]
}

/// The bytes of "data".
pub open spec fn key_data() -> Seq<u8> {
    seq![100u8, 97u8, 116u8, 97u8]
}

/// The bytes of "JoinMessage".
pub open spec fn tag_join() -> Seq<u8> {
    seq![74u8, 111u8, 105u8, 110u8, 77u8, 101u8, 115u8, 115u8, 97u8, 103u8, 101u8]
}

/// The bytes of "LeaveMessage".
pub open spec fn tag_leave() -> Seq<u8> {
    seq![76u8, 101u8, 97u8, 118u8, 101u8, 77u8, 101u8, 115u8, 115u8, 97u8, 103u8, 101u8]
}

/// The bytes of "token".
pub open spec fn key_token() -> Seq<u8> {
    seq![116u8, 111u8, 107u8, 101u8, 110u8]
}

/// The bytes of "user_id".
pub open spec fn key_user_id() -> Seq<u8> {
    seq![117u8, 115u8, 101u8, 114u8, 95u8, 105u8, 100u8]
}

/// The bytes of "message".
pub open spec fn key_message() -> Seq<u8> {
    seq![109u8, 101u8, 115u8, 115u8, 97u8, 103u8, 101u8]
}

/// The bytes of "sender".
pub open spec fn key_sender() -> Seq<u8> {
    seq![115u8, 101u8, 110u8, 100u8, 101u8, 114u8]
}

/// The bytes of "id".
pub open spec fn key_id() -> Seq<u8> {
    seq![105u8, 100u8]
}

/// The value of the first member of `d` named `k`, if any.
pub open spec fn field_of(d: Seq<(Seq<u8>, GVal)>, k: Seq<u8>) -> Option<GVal>
    decreases d.len(),
{
    if d.len() == 0 {
        None
    } else if d[0].0 == k {
        Some(d[0].1)
    } else {
        field_of(d.drop_first(), k)
    }
}

/// The value of the first member of the nested object `o` named `k`, if any.
pub open spec fn sfield_of(o: Seq<(Seq<u8>, GScalar)>, k: Seq<u8>) -> Option<GScalar>
    decreases o.len(),
{
    if o.len() == 0 {
        None
    } else if o[0].0 == k {
        Some(o[0].1)
    } else {
        sfield_of(o.drop_first(), k)
    }
}

/// The join data carried by a nested object: exactly a "token" string and a
/// "user_id" integer that fits `i32`.
pub open spec fn spec_join_of(o: Seq<(Seq<u8>, GScalar)>) -> Option<(Seq<u8>, int)> {
    if o.len() == 2 {
        match (sfield_of(o, key_token()), sfield_of(o, key_user_id())) {
            (Some(GScalar::Str(t)), Some(GScalar::Int(n))) => if in_i32(n) {
                Some((t, n))
            } else {
                None
            },
            _ => None,
        }
    } else {
        None
    }
}

/// The control frame a document denotes: a leave frame is exactly the
/// "LeaveMessage" tag; a join frame is exactly the "JoinMessage" tag next to
/// a "data" object with the join data.
pub open spec fn spec_frame_of(d: Seq<(Seq<u8>, GVal)>) -> Option<GFrame> {
    if d.len() == 1 && d[0].0 == key_type() && d[0].1 == GVal::Str(tag_leave()) {
        Some(GFrame::Leave)
    } else if d.len() == 2 && field_of(d, key_type()) == Some(GVal::Str(tag_join())) {
        match field_of(d, key_data()) {
            Some(GVal::Obj(o)) => match spec_join_of(o) {
                Some((t, n)) => Some(GFrame::Join { token: t, user_id: n }),
                None => None,
            },
            _ => None,
        }
    } else {
        None
    }
}

/// What a raw inbound text frame denotes, if anything.
pub open spec fn spec_parse_frame(s: Seq<u8>) -> Option<GFrame> {
    match spec_doc(s) {
        Some(d) => spec_frame_of(d),
        None => None,
    }
}

/// The bus payload a document denotes: exactly a "message" string and a
/// "sender" integer that fits `i32`.
pub open spec fn spec_broadcast_of(d: Seq<(Seq<u8>, GVal)>) -> Option<(Seq<u8>, int)> {
    if d.len() == 2 {
        match (field_of(d, key_message()), field_of(d, key_sender())) {
            (Some(GVal::Str(m)), Some(GVal::Int(n))) => if in_i32(n) {
                Some((m, n))
            } else {
                None
            },
            _ => None,
        }
    } else {
        None
    }
}

/// What a raw bus payload denotes, if anything.
pub open spec fn spec_parse_broadcast(s: Seq<u8>) -> Option<(Seq<u8>, int)> {
    match spec_doc(s) {
        Some(d) => spec_broadcast_of(d),
        None => None,
    }
}

/// The channel list a document denotes: exactly an "id" array whose every
/// element fits `i32`.
pub open spec fn spec_channels_of(d: Seq<(Seq<u8>, GVal)>) -> Option<Seq<int>> {
    if d.len() == 1 {
        match field_of(d, key_id()) {
            Some(GVal::Ints(vs)) => if forall|i: int| 0 <= i < vs.len() ==> in_i32(#[trigger] vs[i]) {
                Some(vs)
            } else {
                None
            },
            _ => None,
        }
    } else {
        None
    }
}

/// What a raw directory reply denotes, if anything.
pub open spec fn spec_parse_channels(s: Seq<u8>) -> Option<Seq<int>> {
    match spec_doc(s) {
        Some(d) => spec_channels_of(d),
        None => None,
    }
}

/// The channel id a bus channel name denotes: a decimal integer filling the
/// whole name and fitting `i32`.
pub open spec fn spec_parse_channel_id(s: Seq<u8>) -> Option<int> {
    match spec_int(s, 0) {
        Some((v, j)) => if j == s.len() && in_i32(v) {
            Some(v)
        } else {
            None
        },
        None => None,
    }
}

/// Whether two byte vectors hold the same bytes.
fn eq_bytes(a: &Vec<u8>, b: &Vec<u8>) -> (r: bool)
    ensures
        r == (a@ == b@),
{
    if a.len() != b.len() {
        return false;
    }
    let mut i: usize = 0;
    while i < a.len()
        invariant
            i <= a@.len(),
            a@.len() == b@.len(),
            forall|k: int| 0 <= k < i ==> a@[k] == b@[k],
        decreases a@.len() - i,
    {
        if a[i] != b[i] {
            return false;
        }
        i += 1;
    }
    proof {
        assert(a@ =~= b@);
    }
    true
}

/// A fresh vector holding the same bytes.
fn clone_bytes(v: &Vec<u8>) -> (r: Vec<u8>)
    ensures
        r@ == v@,
{
    let mut r: Vec<u8> = Vec::new();
    let mut i: usize = 0;
    while i < v.len()
        invariant
            i <= v@.len(),
            r@ =~= v@.take(i as int),
        decreases v@.len() - i,
    {
        r.push(v[i]);
        proof {
            assert(r@ =~= v@.take(i as int + 1));
        }
        i += 1;
    }
    proof {
        assert(v@.take(i as int) =~= v@);
    }
    r
}

/// The bytes of "type", as a vector.
fn key_type_vec() -> (r: Vec<u8>)
    ensures
        r@ == key_type(),
{
    let v: Vec<u8> = vec![116, 121, 112, 101];
    proof {
        assert(v@ =~= key_type());
    }
    v
}

/// The bytes of "data", as a vector.
fn key_data_vec() -> (r: Vec<u8>)
    ensures
        r@ == key_data(),
{
    let v: Vec<u8> = vec![100, 97, 116, 97];
    proof {
        assert(v@ =~= key_data());
    }
    v
}

/// The bytes of "JoinMessage", as a vector.
fn tag_join_vec() -> (r: Vec<u8>)
    ensures
        r@ == tag_join(),
{
    let v: Vec<u8> = vec![74, 111, 105, 110, 77, 101, 115, 115, 97, 103, 101];
    proof {
        assert(v@ =~= tag_join());
    }
    v
}

/// The bytes of "LeaveMessage", as a vector.
fn tag_leave_vec() -> (r: Vec<u8>)
    ensures
        r@ == tag_leave(),
{
    let v: Vec<u8> = vec![76, 101, 97, 118, 101, 77, 101, 115, 115, 97, 103, 101];
    proof {
        assert(v@ =~= tag_leave());
    }
    v
}

/// The bytes of "token", as a vector.
fn key_token_vec() -> (r: Vec<u8>)
    ensures
        r@ == key_token(),
{
    let v: Vec<u8> = vec![116, 111, 107, 101, 110];
    proof {
        assert(v@ =~= key_token());
    }
    v
}

/// The bytes of "user_id", as a vector.
fn key_user_id_vec() -> (r: Vec<u8>)
    ensures
        r@ == key_user_id(),
{
    let v: Vec<u8> = vec![117, 115, 101, 114, 95, 105, 100];
    proof {
        assert(v@ =~= key_user_id());
    }
    v
}

/// The bytes of "message", as a vector.
fn key_message_vec() -> (r: Vec<u8>)
    ensures
        r@ == key_message(),
{
    let v: Vec<u8> = vec![109, 101, 115, 115, 97, 103, 101];
    proof {
        assert(v@ =~= key_message());
    }
    v
}

/// The bytes of "sender", as a vector.
fn key_sender_vec() -> (r: Vec<u8>)
    ensures
        r@ == key_sender(),
{
    let v: Vec<u8> = vec![115, 101, 110, 100, 101, 114];
    proof {
        assert(v@ =~= key_sender());
    }
    v
}

/// The bytes of "id", as a vector.
fn key_id_vec() -> (r: Vec<u8>)
    ensures
        r@ == key_id(),
{
    let v: Vec<u8> = vec![105, 100];
    proof {
        assert(v@ =~= key_id());
    }
    v
}

/// The position of the first member of `d` named `k`, if any.
fn find_field_idx(d: &Vec<(Vec<u8>, JsonVal)>, k: &Vec<u8>) -> (r: Option<usize>)
    ensures
        (match r {
            Some(i) => i < d@.len() && field_of(doc_rep(d@), k@) == Some(d@[i as int].1.rep()),
            None => field_of(doc_rep(d@), k@) == None::<GVal>,
        }),
{
    let ghost gd = doc_rep(d@);
    proof {
        assert(gd.skip(0) =~= gd);
    }
    let mut i: usize = 0;
    while i < d.len()
        invariant
            i <= d@.len(),
            gd == doc_rep(d@),
            gd.len() == d@.len(),
            field_of(gd, k@) == field_of(gd.skip(i as int), k@),
        decreases d@.len() - i,
    {
        proof {
            assert(gd[i as int] == (d@[i as int].0@, d@[i as int].1.rep()));
            assert(gd.skip(i as int)[0] == gd[i as int]);
        }
        if eq_bytes(&d[i].0, k) {
            return Some(i);
        }
        proof {
            assert(gd.skip(i as int).drop_first() =~= gd.skip(i as int + 1));
        }
        i += 1;
    }
    proof {
        assert(gd.skip(i as int) =~= Seq::<(Seq<u8>, GVal)>::empty());
    }
    None
}

/// The position of the first member of the nested object `o` named `k`.
fn sfind_field_idx(o: &Vec<(Vec<u8>, JsonScalar)>, k: &Vec<u8>) -> (r: Option<usize>)
    ensures
        (match r {
            Some(i) => i < o@.len() && sfield_of(inner_rep(o@), k@) == Some(
                o@[i as int].1.rep(),
            ),
            None => sfield_of(inner_rep(o@), k@) == None::<GScalar>,
        }),
{
    let ghost go = inner_rep(o@);
    proof {
        assert(go.skip(0) =~= go);
    }
    let mut i: usize = 0;
    while i < o.len()
        invariant
            i <= o@.len(),
            go == inner_rep(o@),
            go.len() == o@.len(),
            sfield_of(go, k@) == sfield_of(go.skip(i as int), k@),
        decreases o@.len() - i,
    {
        proof {
            assert(go[i as int] == (o@[i as int].0@, o@[i as int].1.rep()));
            assert(go.skip(i as int)[0] == go[i as int]);
        }
        if eq_bytes(&o[i].0, k) {
            return Some(i);
        }
        proof {
            assert(go.skip(i as int).drop_first() =~= go.skip(i as int + 1));
        }
        i += 1;
    }
    proof {
        assert(go.skip(i as int) =~= Seq::<(Seq<u8>, GScalar)>::empty());
    }
    None
}

/// Read the join data out of a nested object.
fn join_of(o: &Vec<(Vec<u8>, JsonScalar)>) -> (r: Option<JoinMessage>)
    ensures
        (match r {
            Some(j) => spec_join_of(inner_rep(o@)) == Some((j.token@, j.user_id as int)),
            None => spec_join_of(inner_rep(o@)) == None::<(Seq<u8>, int)>,
        }),
{
    if o.len() != 2 {
        return None;
    }
    let kt = key_token_vec();
    let ku = key_user_id_vec();
    let ti = sfind_field_idx(o, &kt);
    let ui = sfind_field_idx(o, &ku);
    match (ti, ui) {
        (Some(a), Some(b)) => {
            match (&o[a].1, &o[b].1) {
                (JsonScalar::Str(t), JsonScalar::Int(n)) => {
                    if -2147483648 <= *n && *n <= 2147483647 {
                        Some(JoinMessage { token: clone_bytes(t), user_id: *n as i32 })
                    } else {
                        None
                    }
                },
                _ => None,
            }
        },
        _ => None,
    }
}

/// Decode an inbound text frame.  Anything that is not exactly a join or a
/// leave frame yields nothing: the session layer answers it with an error
/// notice.
pub fn parse_frame(s: &Vec<u8>) -> (r: Option<IncomingMessageFromUser>)
    ensures
        (match r {
            Some(f) => spec_parse_frame(s@) == Some(f.rep()),
            None => spec_parse_frame(s@) == None::<GFrame>,
        }),
{
    let d = match parse_doc(s) {
        Some(d) => d,
        None => {
            return None;
        },
    };
    let ghost gd = doc_rep(d@);
    let kt = key_type_vec();
    if d.len() == 1 {
        if eq_bytes(&d[0].0, &kt) {
            match &d[0].1 {
                JsonVal::Str(tag) => {
                    let lv = tag_leave_vec();
                    if eq_bytes(tag, &lv) {
                        proof {
                            assert(gd[0] == (d@[0].0@, d@[0].1.rep()));
                        }
                        return Some(IncomingMessageFromUser::LeaveMessage);
                    }
                },
                _ => {},
            }
        }
        proof {
            assert(gd[0] == (d@[0].0@, d@[0].1.rep()));
        }
        return None;
    }
    if d.len() != 2 {
        return None;
    }
    match find_field_idx(&d, &kt) {
        None => None,
        Some(ti) => {
            match &d[ti].1 {
                JsonVal::Str(tag) => {
                    let jv = tag_join_vec();
                    if !eq_bytes(tag, &jv) {
                        return None;
                    }
                    let kd = key_data_vec();
                    match find_field_idx(&d, &kd) {
                        None => None,
                        Some(di) => {
                            match &d[di].1 {
                                JsonVal::Obj(o) => {
                                    match join_of(o) {
                                        Some(j) => Some(
                                            IncomingMessageFromUser::JoinMessage(j),
                                        ),
                                        None => None,
                                    }
                                },
                                _ => None,
                            }
                        },
                    }
                },
                _ => None,
            }
        },
    }
}

/// Decode a payload read from the shared bus.  A malformed payload yields
/// nothing and is skipped: it never stops the ingestion loop.
pub fn parse_broadcast(s: &Vec<u8>) -> (r: Option<BroadcastPayload>)
    ensures
        (match r {
            Some(p) => spec_parse_broadcast(s@) == Some((p.message@, p.sender as int)),
            None => spec_parse_broadcast(s@) == None::<(Seq<u8>, int)>,
        }),
{
    let d = match parse_doc(s) {
        Some(d) => d,
        None => {
            return None;
        },
    };
    if d.len() != 2 {
        return None;
    }
    let km = key_message_vec();
    let ks = key_sender_vec();
    let mi = find_field_idx(&d, &km);
    let si = find_field_idx(&d, &ks);
    match (mi, si) {
        (Some(a), Some(b)) => {
            match (&d[a].1, &d[b].1) {
                (JsonVal::Str(m), JsonVal::Int(n)) => {
                    if -2147483648 <= *n && *n <= 2147483647 {
                        Some(BroadcastPayload { message: clone_bytes(m), sender: *n as i32 })
                    } else {
                        None
                    }
                },
                _ => None,
            }
        },
        _ => None,
    }
}

/// Convert the elements of a directory reply to 32-bit channel ids.
fn ints_to_i32(v: &Vec<i64>) -> (r: Option<Vec<i32>>)
    ensures
        (match r {
            Some(w) => w@.map_values(|x: i32| x as int) == v@.map_values(|x: i64| x as int) && (
            forall|i: int| 0 <= i < v@.len() ==> in_i32(#[trigger] v@[i] as int)),
            None => exists|i: int| 0 <= i < v@.len() && !in_i32(#[trigger] v@[i] as int),
        }),
{
    let mut w: Vec<i32> = Vec::new();
    let mut i: usize = 0;
    while i < v.len()
        invariant
            i <= v@.len(),
            w@.len() == i,
            forall|k: int| 0 <= k < i ==> w@[k] as int == v@[k] as int,
        decreases v@.len() - i,
    {
        let n = v[i];
        if !(-2147483648 <= n && n <= 2147483647) {
            return None;
        }
        w.push(n as i32);
        i += 1;
    }
    proof {
        assert(w@.map_values(|x: i32| x as int) =~= v@.map_values(|x: i64| x as int));
        assert forall|k: int| 0 <= k < v@.len() implies in_i32(#[trigger] v@[k] as int) by {
            assert(w@[k] as int == v@[k] as int);
        }
    }
    Some(w)
}

/// Decode a channel-directory reply into the channel list it carries.
pub fn parse_channels(s: &Vec<u8>) -> (r: Option<Channels>)
    ensures
        (match r {
            Some(ch) => spec_parse_channels(s@) == Some(ch.id@.map_values(|x: i32| x as int)),
            None => spec_parse_channels(s@) == None::<Seq<int>>,
        }),
{
    let d = match parse_doc(s) {
        Some(d) => d,
        None => {
            return None;
        },
    };
    if d.len() != 1 {
        return None;
    }
    let ki = key_id_vec();
    match find_field_idx(&d, &ki) {
        None => None,
        Some(ii) => {
            match &d[ii].1 {
                JsonVal::Ints(vs) => {
                    proof {
                        let gvs = vs@.map_values(|x: i64| x as int);
                        assert forall|k: int| 0 <= k < gvs.len() implies #[trigger] gvs[k]
                            == vs@[k] as int by {}
                    }
                    match ints_to_i32(vs) {
                        Some(w) => Some(Channels { id: w }),
                        None => {
                            proof {
                                let k = choose|k: int|
                                    0 <= k < vs@.len() && !in_i32(#[trigger] vs@[k] as int);
                                assert(vs@.map_values(|x: i64| x as int)[k] == vs@[k] as int);
                            }
                            None
                        },
                    }
                },
                _ => None,
            }
        },
    }
}

/// Decode the decimal channel id that names a bus channel.
pub fn parse_channel_id(s: &Vec<u8>) -> (r: Option<i32>)
    ensures
        (match r {
            Some(c) => spec_parse_channel_id(s@) == Some(c as int),
            None => spec_parse_channel_id(s@) == None::<int>,
        }),
{
    match int_lit(s, 0) {
        Some((v, j)) => {
            if j == s.len() && -2147483648 <= v && v <= 2147483647 {
                Some(v as i32)
            } else {
                None
            }
        },
        None => None,
    }
}

} // verus!

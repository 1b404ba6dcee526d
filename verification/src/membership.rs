//! The membership index: the bidirectional map from broadcast channels to
//! their locally connected members, and from each connected user to the
//! outbound delivery handle of its connection.
//!
//! The index is the only shared mutable state of the distribution layer.  Its
//! well-formedness captures the structural invariants: a user holds at most
//! one registration, a channel entry never outlives its last member, and
//! every listed member is a registered user.

use vstd::prelude::*;

verus! {

/// True when some element of `s` equals the id `x`.
pub open spec fn seq_has_id(s: Seq<i32>, x: int) -> bool {
    exists|k: int| 0 <= k < s.len() && s[k] as int == x
}

/// True when the ids in `s` are pairwise distinct.
pub open spec fn ids_distinct(s: Seq<i32>) -> bool {
    forall|k: int, l: int| 0 <= k < l < s.len() ==> s[k] != s[l]
}

/// One registered connection: a user and the exclusively owned handle that
/// writes to that user's outbound stream.  The handle type is a parameter:
/// the index never looks inside it.
pub struct Connection<H> {
    pub user_id: i32,
    pub sender: H,
}

/// One broadcast channel and the users of this process that are members.
pub struct ChannelEntry {
    pub channel_id: i32,
    pub members: Vec<i32>,
}

/// The bidirectional membership index.
pub struct ChannelManager<H> {
    pub channels: Vec<ChannelEntry>,
    pub connections: Vec<Connection<H>>,
}

/// Law: joining is idempotent.  When a registered user joins again — with the
/// same channel set or another — nothing changes: the user keeps the one
/// registration and the delivery handle of the first join, and no membership
/// moves.
pub proof fn lemma_join_idempotent<H>(
    m0: ChannelManager<H>,
    m1: ChannelManager<H>,
    m2: ChannelManager<H>,
    u: int,
    cs1: Seq<i32>,
    cs2: Seq<i32>,
    h1: H,
    h2: H,
    a1: bool,
    a2: bool,
)
    requires
        !m0.is_registered(u),
        add_user_transition(m0, m1, u, cs1, h1, a1),
        add_user_transition(m1, m2, u, cs2, h2, a2),
    ensures
        a1,
        !a2,
        forall|v: int| m2.is_registered(v) <==> m1.is_registered(v),
        m2.handle_of(u) == h1,
        forall|c: int, v: int| m2.member_in(c, v) <==> m1.member_in(c, v),
        forall|c: int| m2.has_channel(c) <==> m1.has_channel(c),
{
    assert(m1.is_registered(u));
    assert(!a2);
    assert(m2.handle_of(u) == m1.handle_of(u));
    assert forall|c: int| m2.has_channel(c) <==> m1.has_channel(c) by {
        assert(m2.has_channel(c) <==> m1.has_channel(c) || (a2 && seq_has_id(cs2, c)));
    }
    assert forall|c: int, v: int| m2.member_in(c, v) <==> m1.member_in(c, v) by {
        assert(m2.member_in(c, v) <==> m1.member_in(c, v) || (a2 && v == u && seq_has_id(
            cs2,
            c,
        )));
    }
}

/// Law: cleanup after `remove_user` is complete.  The removed user is gone
/// from the connection map and from every channel's member set, a channel
/// whose member set the removal emptied is gone from the index, and no
/// channel entry is left without a member.
pub proof fn lemma_cleanup_complete<H>(
    pre: ChannelManager<H>,
    post: ChannelManager<H>,
    u: int,
    released: Seq<i32>,
)
    requires
        remove_user_transition(pre, post, u, released),
    ensures
        !post.is_registered(u),
        forall|c: int| !post.member_in(c, u),
        forall|c: int|
            pre.has_channel(c) && !(exists|v: int| #[trigger] pre.member_in(c, v) && v != u)
                ==> !post.has_channel(c),
        forall|c: int| #[trigger] post.has_channel(c) ==> exists|v: int| post.member_in(c, v),
{
    assert forall|c: int| #[trigger] post.has_channel(c) implies exists|v: int|
        post.member_in(c, v) by {
        let v = choose|v: int| #[trigger] pre.member_in(c, v) && v != u;
        assert(post.member_in(c, v));
    }
}

/// Extending a scanned prefix of `s` by one element extends the ids it holds
/// by exactly that element.
pub(crate) proof fn lemma_take_one_more(s: Seq<i32>, n: int)
    requires
        0 <= n < s.len(),
    ensures
        forall|x: int| seq_has_id(s.take(n + 1), x) <==> seq_has_id(s.take(n), x) || s[n] as int
            == x,
{
    assert(s.take(n + 1) =~= s.take(n).push(s[n]));
    assert forall|x: int| seq_has_id(s.take(n + 1), x) implies seq_has_id(s.take(n), x) || s[n]
        as int == x by {
        let k = choose|k: int| 0 <= k < s.take(n + 1).len() && #[trigger] s.take(n + 1)[k] as int
            == x;
        if k < n {
            assert(s.take(n)[k] as int == x);
        }
    }
    assert forall|x: int| seq_has_id(s.take(n), x) || s[n] as int == x implies seq_has_id(
        s.take(n + 1),
        x,
    ) by {
        if seq_has_id(s.take(n), x) {
            let k = choose|k: int| 0 <= k < s.take(n).len() && s.take(n)[k] as int == x;
            assert(s.take(n + 1)[k] as int == x);
        } else {
            assert(s.take(n + 1)[n] as int == x);
        }
    }
}

/// How `add_user` changes the index: a fresh user is registered with handle
/// `h` and inserted into the member set of every channel in `cs` (entries are
/// created as needed); a user that is already registered changes nothing.
pub open spec fn add_user_transition<H>(
    pre: ChannelManager<H>,
    post: ChannelManager<H>,
    u: int,
    cs: Seq<i32>,
    h: H,
    added: bool,
) -> bool {
    &&& added == !pre.is_registered(u)
    &&& forall|v: int| #[trigger] post.is_registered(v) <==> pre.is_registered(v) || v == u
    &&& (added ==> post.handle_of(u) == h)
    &&& forall|v: int|
        pre.is_registered(v) && (v != u || !added) ==> #[trigger] post.handle_of(v)
            == pre.handle_of(v)
    &&& forall|c: int, v: int|
        #[trigger] post.member_in(c, v) <==> pre.member_in(c, v) || (added && v == u && seq_has_id(
            cs,
            c,
        ))
    &&& forall|c: int| #[trigger] post.has_channel(c) <==> pre.has_channel(c) || (added
        && seq_has_id(cs, c))
}

/// True when user `u` is listed among the members of entry `e`.
pub open spec fn entry_has(e: ChannelEntry, u: int) -> bool {
    exists|k: int| 0 <= k < e.members@.len() && e.members@[k] as int == u
}

/// User `v` is a member of channel `c` among the first `hi` entries of `chs`.
spec fn range_member(chs: Seq<ChannelEntry>, hi: int, c: int, v: int) -> bool {
    exists|j: int|
        0 <= j < hi && #[trigger] chs[j].channel_id as int == c && entry_has(chs[j], v)
}

/// Channel `c` has an entry among the first `hi` entries of `chs`.
spec fn range_channel(chs: Seq<ChannelEntry>, hi: int, c: int) -> bool {
    exists|j: int| 0 <= j < hi && #[trigger] chs[j].channel_id as int == c
}

/// Channel `c` keeps a member other than `u` among the first `hi` entries.
spec fn range_surviving(chs: Seq<ChannelEntry>, hi: int, u: int, c: int) -> bool {
    exists|v: int| #[trigger] range_member(chs, hi, c, v) && v != u
}

/// How `remove_user` changes the index: the user's registration and every
/// membership of it disappear; channels left with no member disappear and are
/// reported back, each once, for bus unsubscription.  Removing an
/// unregistered user changes nothing.
pub open spec fn remove_user_transition<H>(
    pre: ChannelManager<H>,
    post: ChannelManager<H>,
    u: int,
    released: Seq<i32>,
) -> bool {
    &&& forall|v: int| #[trigger] post.is_registered(v) <==> pre.is_registered(v) && v != u
    &&& forall|v: int|
        pre.is_registered(v) && v != u ==> #[trigger] post.handle_of(v) == pre.handle_of(v)
    &&& forall|c: int, v: int| #[trigger] post.member_in(c, v) <==> pre.member_in(c, v) && v != u
    &&& forall|c: int|
        #[trigger] post.has_channel(c) <==> exists|v: int| #[trigger] pre.member_in(c, v) && v != u
    &&& forall|c: int|
        #[trigger] seq_has_id(released, c) <==> pre.has_channel(c) && !post.has_channel(c)
    &&& ids_distinct(released)
}

impl<H> ChannelManager<H> {
    /// User `u` currently holds a registration (an entry in `connections`).
    pub open spec fn is_registered(self, u: int) -> bool {
        exists|j: int| 0 <= j < self.connections@.len() && self.connections@[j].user_id as int == u
    }

    /// Index of `u`'s connection entry (meaningful only when registered).
    pub open spec fn conn_index(self, u: int) -> int {
        choose|j: int| 0 <= j < self.connections@.len() && self.connections@[j].user_id as int == u
    }

    /// The delivery handle registered for user `u`.
    pub open spec fn handle_of(self, u: int) -> H {
        self.connections@[self.conn_index(u)].sender
    }

    /// Channel `c` has an entry in the index.
    pub open spec fn has_channel(self, c: int) -> bool {
        exists|j: int| 0 <= j < self.channels@.len() && self.channels@[j].channel_id as int == c
    }

    /// User `u` is listed as a member of channel `c`.
    pub open spec fn member_in(self, c: int, u: int) -> bool {
        exists|j: int|
            0 <= j < self.channels@.len() && self.channels@[j].channel_id as int == c && entry_has(
                self.channels@[j],
                u,
            )
    }

    /// The structural invariants of the index:
    /// one registration per user; one entry per channel; no empty channel
    /// entry; no duplicate member; every member is a registered user.
    pub open spec fn wf(self) -> bool {
        &&& forall|i: int, j: int|
            0 <= i < j < self.connections@.len() ==> self.connections@[i].user_id
                != self.connections@[j].user_id
        &&& forall|i: int, j: int|
            0 <= i < j < self.channels@.len() ==> self.channels@[i].channel_id
                != self.channels@[j].channel_id
        &&& forall|i: int| 0 <= i < self.channels@.len() ==> self.channels@[i].members@.len() > 0
        &&& forall|i: int|
            0 <= i < self.channels@.len() ==> ids_distinct(self.channels@[i].members@)
        &&& forall|i: int, k: int|
            0 <= i < self.channels@.len() && 0 <= k < self.channels@[i].members@.len()
                ==> self.is_registered(#[trigger] self.channels@[i].members@[k] as int)
    }

    /// A fresh index with no channels and no registered users.
    pub fn new() -> (r: ChannelManager<H>)
        ensures
            r.wf(),
            forall|u: int| !r.is_registered(u),
            forall|c: int| !r.has_channel(c),
            forall|c: int, u: int| !r.member_in(c, u),
    {
        ChannelManager { channels: Vec::new(), connections: Vec::new() }
    }

    /// Whether `user_id` currently holds a registration.
    pub fn user_connected(&self, user_id: i32) -> (r: bool)
        ensures
            r == self.is_registered(user_id as int),
    {
        let mut j: usize = 0;
        while j < self.connections.len()
            invariant
                j <= self.connections@.len(),
                forall|k: int| 0 <= k < j ==> self.connections@[k].user_id != user_id,
            decreases self.connections@.len() - j,
        {
            if self.connections[j].user_id == user_id {
                return true;
            }
            j += 1;
        }
        false
    }

    /// Register `user_id` with delivery handle `sender` and insert it into
    /// the member set of every channel in `channel_ids`, creating entries for
    /// channels this process did not hold yet.  A second registration of the
    /// same user is a no-op; the result says whether the user was added.
    /// The caller then ensures the bus subscriptions for `channel_ids`
    /// through the broadcast bridge's subscription set.
    #[verifier::loop_isolation(false)]
    pub fn add_user(&mut self, user_id: i32, channel_ids: &Vec<i32>, sender: H) -> (added: bool)
        requires
            old(self).wf(),
        ensures
            final(self).wf(),
            add_user_transition(
                *old(self),
                *final(self),
                user_id as int,
                channel_ids@,
                sender,
                added,
            ),
    {
        if self.user_connected(user_id) {
            return false;
        }
        let ghost pre = *old(self);
        let ghost snd = sender;
        self.connections.push(Connection { user_id, sender });
        let ghost conns1 = self.connections@;
        assert forall|v: int| self.is_registered(v) implies pre.is_registered(v) || v == user_id
            as int by {
            let j = choose|j: int|
                0 <= j < self.connections@.len() && #[trigger] self.connections@[j].user_id as int
                    == v;
            if j < pre.connections@.len() {
                assert(pre.connections@[j].user_id as int == v);
            }
        }
        assert forall|v: int| pre.is_registered(v) || v == user_id as int implies self.is_registered(
            v,
        ) by {
            if pre.is_registered(v) {
                let j = choose|j: int|
                    0 <= j < pre.connections@.len() && #[trigger] pre.connections@[j].user_id
                        as int == v;
                assert(self.connections@[j].user_id as int == v);
            } else {
                assert(self.connections@[pre.connections@.len() as int].user_id as int == v);
            }
        }
        let ghost n0 = pre.channels@.len() as int;
        // an unregistered user is listed in no channel of a well-formed index
        assert forall|i: int| 0 <= i < n0 implies !entry_has(
            pre.channels@[i],
            user_id as int,
        ) by {
            if entry_has(pre.channels@[i], user_id as int) {
                let k = choose|k: int|
                    0 <= k < pre.channels@[i].members@.len() && #[trigger] pre.channels@[
                        i
                    ].members@[k] as int == user_id as int;
                assert(pre.is_registered(pre.channels@[i].members@[k] as int));
            }
        }
        let mut idx: usize = 0;
        while idx < channel_ids.len()
            invariant
                idx <= channel_ids@.len(),
                self.connections@ == conns1,
                self.channels@.len() >= n0,
                forall|i: int|
                    0 <= i < n0 ==> self.channels@[i].channel_id == pre.channels@[i].channel_id,
                forall|i: int, v: int|
                    0 <= i < n0 ==> (#[trigger] entry_has(self.channels@[i], v) <==> entry_has(
                        pre.channels@[i],
                        v,
                    ) || (v == user_id as int && seq_has_id(
                        channel_ids@.take(idx as int),
                        self.channels@[i].channel_id as int,
                    ))),
                forall|i: int|
                    n0 <= i < self.channels@.len() ==> (#[trigger] self.channels@[i]).members@.len()
                        == 1 && self.channels@[i].members@[0] == user_id && seq_has_id(
                        channel_ids@.take(idx as int),
                        self.channels@[i].channel_id as int,
                    ) && !pre.has_channel(self.channels@[i].channel_id as int),
                forall|i: int, j: int|
                    0 <= i < j < self.channels@.len() ==> self.channels@[i].channel_id
                        != self.channels@[j].channel_id,
                forall|i: int|
                    0 <= i < self.channels@.len() ==> self.channels@[i].members@.len() > 0
                        && ids_distinct(self.channels@[i].members@),
                forall|c: int|
                    self.has_channel(c) <==> pre.has_channel(c) || seq_has_id(
                        channel_ids@.take(idx as int),
                        c,
                    ),
            decreases channel_ids@.len() - idx,
        {
            let c = channel_ids[idx];
            let ghost chans_before = self.channels@;
            // look for an existing entry for channel `c`
            let mut j: usize = 0;
            let mut found = false;
            while j < self.channels.len() && !found
                invariant
                    j <= self.channels@.len(),
                    self.channels@ == chans_before,
                    found ==> j < self.channels@.len() && self.channels@[j as int].channel_id == c,
                    !found ==> forall|k: int|
                        0 <= k < j ==> self.channels@[k].channel_id != c,
                decreases self.channels@.len() - j, (if found { 0int } else { 1int }),
            {
                if self.channels[j].channel_id == c {
                    found = true;
                } else {
                    j += 1;
                }
            }
            if found {
                // insert the user unless a duplicate id in `channel_ids`
                // already put it there
                let mut m: usize = 0;
                let mut present = false;
                while m < self.channels[j].members.len() && !present
                    invariant
                        j < self.channels@.len(),
                        self.channels@ == chans_before,
                        m <= self.channels@[j as int].members@.len(),
                        present ==> entry_has(self.channels@[j as int], user_id as int),
                        !present ==> forall|k: int|
                            0 <= k < m ==> self.channels@[j as int].members@[k] != user_id,
                    decreases self.channels@[j as int].members@.len() - m, (if present {
                        0int
                    } else {
                        1int
                    }),
                {
                    if self.channels[j].members[m] == user_id {
                        present = true;
                    } else {
                        m += 1;
                    }
                }
                if !present {
                    let mut entry = self.channels.remove(j);
                    entry.members.push(user_id);
                    self.channels.insert(j, entry);
                    assert(self.channels@.len() == chans_before.len());
                    assert(forall|i: int|
                        0 <= i < self.channels@.len() && i != j ==> self.channels@[i]
                            == chans_before[i]);
                    assert(self.channels@[j as int].channel_id == chans_before[
                        j as int
                    ].channel_id);
                    assert(self.channels@[j as int].members@ =~= chans_before[
                        j as int
                    ].members@.push(user_id));
                }
            } else {
                let entry = ChannelEntry { channel_id: c, members: vec![user_id] };
                self.channels.push(entry);
            }
            proof {
                lemma_take_one_more(channel_ids@, idx as int);
                let t0 = channel_ids@.take(idx as int);
                let t1 = channel_ids@.take(idx as int + 1);
                assert(t1[idx as int] as int == c as int);
                assert(seq_has_id(t1, c as int));
                let cs = self.channels@;
                // only the entry for channel `c` can have been touched, and
                // every entry's id is unchanged
                assert(forall|i: int|
                    0 <= i < chans_before.len() ==> cs[i].channel_id == chans_before[
                        i
                    ].channel_id);
                // the member lists of old entries now account for `t1`
                assert forall|i: int, v: int| 0 <= i < n0 implies (#[trigger] entry_has(cs[i], v)
                    <==> entry_has(pre.channels@[i], v) || (v == user_id as int && seq_has_id(
                    t1,
                    cs[i].channel_id as int,
                ))) by {
                    let cid = cs[i].channel_id as int;
                    if cs[i] == chans_before[i] {
                        if entry_has(cs[i], v) {
                            assert(entry_has(chans_before[i], v));
                        }
                        if cid as i32 == c && entry_has(cs[i], user_id as int) {
                        } else {
                            assert(seq_has_id(t1, cid) ==> seq_has_id(t0, cid) || cid == c as int);
                        }
                        if v == user_id as int && seq_has_id(t1, cid) && !seq_has_id(t0, cid) {
                            // then cid == c, the entry existed and got the user
                            assert(cid == c as int);
                            assert(entry_has(cs[i], v));
                        }
                    } else {
                        // this is the updated entry: the user was pushed
                        assert(cid == c as int);
                        assert(cs[i].members@ == chans_before[i].members@.push(user_id));
                        if entry_has(cs[i], v) && v != user_id as int {
                            let k = choose|k: int|
                                0 <= k < cs[i].members@.len() && #[trigger] cs[i].members@[k]
                                    as int == v;
                            assert(chans_before[i].members@[k] as int == v);
                        }
                        if entry_has(chans_before[i], v) {
                            let k = choose|k: int|
                                0 <= k < chans_before[i].members@.len()
                                    && #[trigger] chans_before[i].members@[k] as int == v;
                            assert(cs[i].members@[k] as int == v);
                        }
                        assert(cs[i].members@[cs[i].members@.len() - 1] as int == user_id as int);
                        assert(entry_has(cs[i], user_id as int));
                        assert(seq_has_id(t1, cid));
                    }
                }
                // appended entries: singleton member lists for fresh channels
                assert forall|i: int| n0 <= i < cs.len() implies (#[trigger] cs[i]).members@.len()
                    == 1 && cs[i].members@[0] == user_id && seq_has_id(
                    t1,
                    cs[i].channel_id as int,
                ) && !pre.has_channel(cs[i].channel_id as int) by {
                    if i < chans_before.len() {
                        if cs[i] != chans_before[i] {
                            // the updated entry already held the user, yet the
                            // member scan found none: impossible
                            assert(entry_has(chans_before[i], user_id as int)) by {
                                assert(chans_before[i].members@[0] as int == user_id as int);
                            }
                            assert(false);
                        }
                    } else {
                        assert(cs[i].members@ == seq![user_id]);
                        assert(seq_has_id(t1, c as int));
                    }
                }
                // the channel set now accounts for `t1`
                assert forall|c2: int| self.has_channel(c2) implies pre.has_channel(c2)
                    || seq_has_id(t1, c2) by {
                    let j2 = choose|j2: int|
                        0 <= j2 < cs.len() && #[trigger] cs[j2].channel_id as int == c2;
                    if j2 < chans_before.len() {
                        assert(chans_before[j2].channel_id as int == c2);
                    }
                }
                assert forall|c2: int| pre.has_channel(c2) || seq_has_id(t1, c2) implies
                    self.has_channel(c2) by {
                    if pre.has_channel(c2) {
                        let j2 = choose|j2: int|
                            0 <= j2 < pre.channels@.len() && #[trigger] pre.channels@[
                                j2
                            ].channel_id as int == c2;
                        assert(cs[j2].channel_id as int == c2);
                    } else if seq_has_id(t0, c2) {
                        let j2 = choose|j2: int|
                            0 <= j2 < chans_before.len() && #[trigger] chans_before[j2].channel_id
                                as int == c2;
                        assert(cs[j2].channel_id as int == c2);
                    } else if seq_has_id(t1, c2) {
                        assert(c2 == c as int);
                        if found {
                            assert(cs[j as int].channel_id as int == c2);
                        } else {
                            assert(cs[cs.len() - 1].channel_id as int == c2);
                        }
                    }
                }
            }
            idx += 1;
        }
        proof {
            assert(channel_ids@.take(idx as int) =~= channel_ids@);
            let post = *self;
            // restate the channel-set invariant over the snapshot
            assert(forall|c2: int|
                post.has_channel(c2) <==> pre.has_channel(c2) || seq_has_id(
                    channel_ids@.take(idx as int),
                    c2,
                ));
            let cs = post.channels@;
            // distinct registrations: the one new entry carries a fresh id
            assert forall|i: int, j: int| 0 <= i < j < post.connections@.len() implies
                post.connections@[i].user_id != post.connections@[j].user_id by {
                if j == pre.connections@.len() as int && post.connections@[i].user_id == user_id {
                    assert(pre.connections@[i].user_id as int == user_id as int);
                    assert(pre.is_registered(user_id as int));
                }
            }
            // every member of the updated index is registered
            assert forall|i: int, k: int|
                0 <= i < cs.len() && 0 <= k < cs[i].members@.len() implies post.is_registered(
                #[trigger] cs[i].members@[k] as int,
            ) by {
                let v = cs[i].members@[k] as int;
                assert(entry_has(cs[i], v));
                if i < n0 && entry_has(pre.channels@[i], v) {
                    let k2 = choose|k2: int|
                        0 <= k2 < pre.channels@[i].members@.len() && #[trigger] pre.channels@[
                            i
                        ].members@[k2] as int == v;
                    assert(pre.is_registered(pre.channels@[i].members@[k2] as int));
                    let j2 = choose|j2: int|
                        0 <= j2 < pre.connections@.len() && #[trigger] pre.connections@[
                            j2
                        ].user_id as int == v;
                    assert(post.connections@[j2].user_id as int == v);
                } else {
                    assert(v == user_id as int);
                    assert(post.connections@[pre.connections@.len() as int].user_id as int == v);
                }
            }
            // the new user's handle, and every other handle, as promised
            assert(post.is_registered(user_id as int)) by {
                assert(post.connections@[pre.connections@.len() as int].user_id == user_id);
            }
            assert(post.handle_of(user_id as int) == snd) by {
                let j2 = post.conn_index(user_id as int);
                assert(0 <= j2 < post.connections@.len() && post.connections@[j2].user_id as int
                    == user_id as int);
                if j2 < pre.connections@.len() {
                    assert(pre.connections@[j2].user_id as int == user_id as int);
                    assert(pre.is_registered(user_id as int));
                }
            }
            assert forall|v: int| pre.is_registered(v) && v != user_id as int implies
                post.handle_of(v) == pre.handle_of(v) by {
                let j1 = pre.conn_index(v);
                assert(0 <= j1 < pre.connections@.len() && pre.connections@[j1].user_id as int
                    == v);
                assert(post.connections@[j1].user_id as int == v);
                assert(post.is_registered(v));
                let j2 = post.conn_index(v);
                assert(0 <= j2 < post.connections@.len() && post.connections@[j2].user_id as int
                    == v);
                assert(j2 != pre.connections@.len() as int);
                assert(pre.connections@[j2].user_id as int == v);
                assert(j1 == j2);
            }
            // the member and channel sets, over the whole of `channel_ids`
            assert forall|c: int, v: int| post.member_in(c, v) implies pre.member_in(c, v) || (v
                == user_id as int && seq_has_id(channel_ids@, c)) by {
                let j = choose|j: int|
                    0 <= j < cs.len() && #[trigger] cs[j].channel_id as int == c && entry_has(
                        cs[j],
                        v,
                    );
                if j < n0 {
                    if entry_has(pre.channels@[j], v) {
                        assert(pre.channels@[j].channel_id as int == c);
                        assert(pre.member_in(c, v));
                    }
                } else {
                    let k = choose|k: int|
                        0 <= k < cs[j].members@.len() && #[trigger] cs[j].members@[k] as int == v;
                    assert(cs[j].members@[0] == user_id);
                }
            }
            assert forall|c: int, v: int|
                pre.member_in(c, v) || (v == user_id as int && seq_has_id(channel_ids@, c))
                implies post.member_in(c, v) by {
                if pre.member_in(c, v) {
                    let j = choose|j: int|
                        0 <= j < pre.channels@.len() && #[trigger] pre.channels@[j].channel_id
                            as int == c && entry_has(pre.channels@[j], v);
                    assert(entry_has(cs[j], v));
                    assert(cs[j].channel_id as int == c);
                } else {
                    assert(seq_has_id(channel_ids@.take(idx as int), c));
                    assert(post.has_channel(c));
                    let j = choose|j: int|
                        0 <= j < cs.len() && #[trigger] cs[j].channel_id as int == c;
                    if j < n0 {
                        assert(entry_has(cs[j], v));
                    } else {
                        assert(cs[j].members@[0] as int == v);
                        assert(entry_has(cs[j], v));
                    }
                }
            }
        }
        true
    }

    /// Deregister `user_id`: drop its delivery handle, remove it from every
    /// channel's member set, and delete every channel entry this empties.
    /// The ids of the deleted channels come back so the caller can release
    /// the matching bus subscriptions.  Removing an unregistered user is a
    /// no-op that reports no channels.
    #[verifier::loop_isolation(false)]
    pub fn remove_user(&mut self, user_id: i32) -> (released: Vec<i32>)
        requires
            old(self).wf(),
        ensures
            final(self).wf(),
            remove_user_transition(*old(self), *final(self), user_id as int, released@),
    {
        let ghost pre = *old(self);
        let ghost u = user_id as int;
        // drop the registration, if there is one
        let mut j: usize = 0;
        let mut found = false;
        while j < self.connections.len() && !found
            invariant
                j <= self.connections@.len(),
                self.connections@ == pre.connections@,
                found ==> j < self.connections@.len() && self.connections@[j as int].user_id
                    == user_id,
                !found ==> forall|i: int| 0 <= i < j ==> self.connections@[i].user_id != user_id,
            decreases self.connections@.len() - j, (if found {
                0int
            } else {
                1int
            }),
        {
            if self.connections[j].user_id == user_id {
                found = true;
            } else {
                j += 1;
            }
        }
        if found {
            self.connections.remove(j);
        }
        let ghost conns2 = self.connections@;
        proof {
            assert forall|v: int|
                (exists|j2: int| 0 <= j2 < conns2.len() && #[trigger] conns2[j2].user_id as int
                    == v) implies pre.is_registered(v) && v != u by {
                let j2 = choose|j2: int|
                    0 <= j2 < conns2.len() && #[trigger] conns2[j2].user_id as int == v;
                if found {
                    let j3: int = if j2 < j as int {
                        j2
                    } else {
                        j2 + 1
                    };
                    assert(pre.connections@[j3].user_id as int == v);
                    if v == u {
                        assert(pre.connections@[j as int].user_id as int == u);
                        assert(false);
                    }
                } else {
                    assert(pre.connections@[j2].user_id as int == v);
                    if v == u {
                        assert(false);
                    }
                }
            }
            assert forall|v: int| pre.is_registered(v) && v != u implies (exists|j2: int|
                0 <= j2 < conns2.len() && #[trigger] conns2[j2].user_id as int == v) by {
                let j1 = choose|j1: int|
                    0 <= j1 < pre.connections@.len() && #[trigger] pre.connections@[j1].user_id
                        as int == v;
                if found {
                    if j1 < j as int {
                        assert(conns2[j1].user_id as int == v);
                    } else {
                        assert(j1 != j as int);
                        assert(conns2[j1 - 1].user_id as int == v);
                    }
                } else {
                    assert(conns2[j1].user_id as int == v);
                }
            }
            assert forall|i1: int, i2: int| 0 <= i1 < i2 < conns2.len() implies conns2[i1].user_id
                != conns2[i2].user_id by {
                if found {
                    let m1: int = if i1 < j as int {
                        i1
                    } else {
                        i1 + 1
                    };
                    let m2: int = if i2 < j as int {
                        i2
                    } else {
                        i2 + 1
                    };
                    assert(conns2[i1] == pre.connections@[m1]);
                    assert(conns2[i2] == pre.connections@[m2]);
                }
            }
        }
        // scrub the channel entries
        let ghost chs0 = pre.channels@;
        let mut released: Vec<i32> = Vec::new();
        let mut k: usize = 0;
        while k < self.channels.len()
            invariant
                self.connections@ == conns2,
                k <= self.channels@.len(),
                self.channels@.len() as int + released@.len() as int == chs0.len() as int,
                k as int + released@.len() as int <= chs0.len() as int,
                forall|i: int|
                    k <= i < self.channels@.len() ==> self.channels@[i] == chs0[i + released@.len()],
                forall|i: int|
                    0 <= i < k ==> (#[trigger] self.channels@[i]).members@.len() > 0
                        && ids_distinct(self.channels@[i].members@) && !entry_has(
                        self.channels@[i],
                        u,
                    ),
                forall|c: int, v: int| #[trigger]
                    range_member(self.channels@, k as int, c, v) <==> range_member(
                        chs0,
                        k as int + released@.len() as int,
                        c,
                        v,
                    ) && v != u,
                forall|c: int| #[trigger]
                    range_channel(self.channels@, k as int, c) <==> range_surviving(
                        chs0,
                        k as int + released@.len() as int,
                        u,
                        c,
                    ),
                forall|c: int| #[trigger]
                    seq_has_id(released@, c) <==> range_channel(
                        chs0,
                        k as int + released@.len() as int,
                        c,
                    ) && !range_surviving(chs0, k as int + released@.len() as int, u, c),
                ids_distinct(released@),
                forall|i1: int, i2: int|
                    0 <= i1 < i2 < self.channels@.len() ==> self.channels@[i1].channel_id
                        != self.channels@[i2].channel_id,
            decreases self.channels@.len() - k,
        {
            let ghost cb = self.channels@;
            let ghost rb = released@;
            let ghost ko = k as int + rb.len() as int;
            proof {
                assert(cb[k as int] == chs0[ko]);
            }
            // find the user in this entry's member list
            let mut m: usize = 0;
            let mut hit = false;
            while m < self.channels[k].members.len() && !hit
                invariant
                    k < self.channels@.len(),
                    self.channels@ == cb,
                    m <= cb[k as int].members@.len(),
                    hit ==> m < cb[k as int].members@.len() && cb[k as int].members@[m as int]
                        == user_id,
                    !hit ==> forall|i: int| 0 <= i < m ==> cb[k as int].members@[i] != user_id,
                decreases cb[k as int].members@.len() - m, (if hit {
                    0int
                } else {
                    1int
                }),
            {
                if self.channels[k].members[m] == user_id {
                    hit = true;
                } else {
                    m += 1;
                }
            }
            if hit {
                if self.channels[k].members.len() == 1 {
                    // the user was the last member: the channel entry dies
                    let dead = self.channels.remove(k);
                    released.push(dead.channel_id);
                    proof {
                        let ca = self.channels@;
                        let ra = released@;
                        let cid = chs0[ko].channel_id as int;
                        assert(forall|i: int| 0 <= i < k ==> ca[i] == cb[i]);
                        assert(forall|i: int|
                            k <= i < ca.len() ==> ca[i] == cb[i + 1] && ca[i] == chs0[i
                                + ra.len()]);
                        assert(chs0[ko].members@.len() == 1 && chs0[ko].members@[0] == user_id);
                        assert forall|v: int| entry_has(chs0[ko], v) implies v == u by {
                            let k2 = choose|k2: int|
                                0 <= k2 < chs0[ko].members@.len() && #[trigger] chs0[ko].members@[
                                    k2
                                ] as int == v;
                        }
                        assert forall|c: int, v: int| #[trigger]
                            range_member(ca, k as int, c, v) <==> range_member(
                            chs0,
                            ko + 1,
                            c,
                            v,
                        ) && v != u by {
                            assert(range_member(ca, k as int, c, v) == range_member(
                                cb,
                                k as int,
                                c,
                                v,
                            )) by {
                                if range_member(ca, k as int, c, v) {
                                    let j2 = choose|j2: int|
                                        0 <= j2 < k as int && #[trigger] ca[j2].channel_id as int
                                            == c && entry_has(ca[j2], v);
                                    assert(cb[j2].channel_id as int == c && entry_has(cb[j2], v));
                                }
                                if range_member(cb, k as int, c, v) {
                                    let j2 = choose|j2: int|
                                        0 <= j2 < k as int && #[trigger] cb[j2].channel_id as int
                                            == c && entry_has(cb[j2], v);
                                    assert(ca[j2].channel_id as int == c && entry_has(ca[j2], v));
                                }
                            }
                            assert(range_member(chs0, ko + 1, c, v) && v != u ==> range_member(
                                chs0,
                                ko,
                                c,
                                v,
                            ) && v != u) by {
                                if range_member(chs0, ko + 1, c, v) && v != u {
                                    let j2 = choose|j2: int|
                                        0 <= j2 < ko + 1 && #[trigger] chs0[j2].channel_id as int
                                            == c && entry_has(chs0[j2], v);
                                    if j2 == ko {
                                        assert(v == u);
                                        assert(false);
                                    }
                                }
                            }
                            assert(range_member(chs0, ko, c, v) ==> range_member(
                                chs0,
                                ko + 1,
                                c,
                                v,
                            )) by {
                                if range_member(chs0, ko, c, v) {
                                    let j2 = choose|j2: int|
                                        0 <= j2 < ko && #[trigger] chs0[j2].channel_id as int == c
                                            && entry_has(chs0[j2], v);
                                    assert(chs0[j2].channel_id as int == c);
                                }
                            }
                        }
                        assert forall|c: int| #[trigger]
                            range_channel(ca, k as int, c) <==> range_surviving(
                            chs0,
                            ko + 1,
                            u,
                            c,
                        ) by {
                            assert(range_channel(ca, k as int, c) == range_channel(
                                cb,
                                k as int,
                                c,
                            )) by {
                                if range_channel(ca, k as int, c) {
                                    let j2 = choose|j2: int|
                                        0 <= j2 < k as int && #[trigger] ca[j2].channel_id as int
                                            == c;
                                    assert(cb[j2].channel_id as int == c);
                                }
                                if range_channel(cb, k as int, c) {
                                    let j2 = choose|j2: int|
                                        0 <= j2 < k as int && #[trigger] cb[j2].channel_id as int
                                            == c;
                                    assert(ca[j2].channel_id as int == c);
                                }
                            }
                            assert(range_surviving(chs0, ko + 1, u, c) == range_surviving(
                                chs0,
                                ko,
                                u,
                                c,
                            )) by {
                                if range_surviving(chs0, ko + 1, u, c) {
                                    let v = choose|v: int| #[trigger]
                                        range_member(chs0, ko + 1, c, v) && v != u;
                                    assert(range_member(chs0, ko, c, v)) by {
                                        let j2 = choose|j2: int|
                                            0 <= j2 < ko + 1 && #[trigger] chs0[j2].channel_id
                                                as int == c && entry_has(chs0[j2], v);
                                        if j2 == ko {
                                            assert(v == u);
                                            assert(false);
                                        }
                                    }
                                }
                                if range_surviving(chs0, ko, u, c) {
                                    let v = choose|v: int| #[trigger]
                                        range_member(chs0, ko, c, v) && v != u;
                                    assert(range_member(chs0, ko + 1, c, v)) by {
                                        let j2 = choose|j2: int|
                                            0 <= j2 < ko && #[trigger] chs0[j2].channel_id as int
                                                == c && entry_has(chs0[j2], v);
                                        assert(chs0[j2].channel_id as int == c);
                                    }
                                }
                            }
                        }
                        assert forall|c: int| #[trigger]
                            seq_has_id(ra, c) <==> range_channel(chs0, ko + 1, c)
                            && !range_surviving(chs0, ko + 1, u, c) by {
                            assert(ra =~= rb.push(chs0[ko].channel_id));
                            if seq_has_id(ra, c) {
                                let k2 = choose|k2: int|
                                    0 <= k2 < ra.len() && #[trigger] ra[k2] as int == c;
                                if k2 < rb.len() {
                                    assert(seq_has_id(rb, c));
                                    assert(range_channel(chs0, ko, c));
                                    let j2 = choose|j2: int|
                                        0 <= j2 < ko && #[trigger] chs0[j2].channel_id as int == c;
                                    assert(chs0[j2].channel_id as int == c);
                                    assert(range_channel(chs0, ko + 1, c));
                                    assert(!range_surviving(chs0, ko, u, c));
                                    if range_surviving(chs0, ko + 1, u, c) {
                                        let v = choose|v: int| #[trigger]
                                            range_member(chs0, ko + 1, c, v) && v != u;
                                        let j3 = choose|j3: int|
                                            0 <= j3 < ko + 1 && #[trigger] chs0[j3].channel_id
                                                as int == c && entry_has(chs0[j3], v);
                                        if j3 == ko {
                                            assert(v == u);
                                        } else {
                                            assert(range_member(chs0, ko, c, v));
                                        }
                                        assert(false);
                                    }
                                } else {
                                    assert(c == cid);
                                    assert(chs0[ko].channel_id as int == c);
                                    assert(range_channel(chs0, ko + 1, c));
                                    if range_surviving(chs0, ko + 1, u, c) {
                                        let v = choose|v: int| #[trigger]
                                            range_member(chs0, ko + 1, c, v) && v != u;
                                        let j3 = choose|j3: int|
                                            0 <= j3 < ko + 1 && #[trigger] chs0[j3].channel_id
                                                as int == c && entry_has(chs0[j3], v);
                                        if j3 == ko {
                                            assert(v == u);
                                        } else {
                                            assert(chs0[j3].channel_id == chs0[ko].channel_id);
                                            assert(false);
                                        }
                                        assert(false);
                                    }
                                }
                            }
                            if range_channel(chs0, ko + 1, c) && !range_surviving(
                                chs0,
                                ko + 1,
                                u,
                                c,
                            ) {
                                let j2 = choose|j2: int|
                                    0 <= j2 < ko + 1 && #[trigger] chs0[j2].channel_id as int == c;
                                if j2 == ko {
                                    assert(ra[ra.len() - 1] as int == c);
                                    assert(seq_has_id(ra, c));
                                } else {
                                    assert(range_channel(chs0, ko, c));
                                    assert(!range_surviving(chs0, ko, u, c)) by {
                                        if range_surviving(chs0, ko, u, c) {
                                            let v = choose|v: int| #[trigger]
                                                range_member(chs0, ko, c, v) && v != u;
                                            let j3 = choose|j3: int|
                                                0 <= j3 < ko && #[trigger] chs0[j3].channel_id
                                                    as int == c && entry_has(chs0[j3], v);
                                            assert(range_member(chs0, ko + 1, c, v));
                                            assert(false);
                                        }
                                    }
                                    assert(seq_has_id(rb, c));
                                    let k2 = choose|k2: int|
                                        0 <= k2 < rb.len() && #[trigger] rb[k2] as int == c;
                                    assert(ra[k2] as int == c);
                                }
                            }
                        }
                        assert(ids_distinct(ra)) by {
                            if seq_has_id(rb, cid) {
                                assert(range_channel(chs0, ko, cid));
                                let j2 = choose|j2: int|
                                    0 <= j2 < ko && #[trigger] chs0[j2].channel_id as int == cid;
                                assert(chs0[j2].channel_id == chs0[ko].channel_id);
                                assert(false);
                            }
                            assert forall|k1: int, k2: int| 0 <= k1 < k2 < ra.len() implies
                                ra[k1] != ra[k2] by {
                                if k2 == ra.len() - 1 {
                                    if ra[k1] == ra[k2] {
                                        assert(rb[k1] as int == cid);
                                        assert(seq_has_id(rb, cid));
                                    }
                                } else {
                                    assert(rb[k1] != rb[k2]);
                                }
                            }
                        }
                        assert forall|i1: int, i2: int| 0 <= i1 < i2 < ca.len() implies
                            ca[i1].channel_id != ca[i2].channel_id by {
                            let m1: int = if i1 < k as int {
                                i1
                            } else {
                                i1 + 1
                            };
                            let m2: int = if i2 < k as int {
                                i2
                            } else {
                                i2 + 1
                            };
                            assert(ca[i1] == cb[m1]);
                            assert(ca[i2] == cb[m2]);
                        }
                    }
                } else {
                    // drop the user from this entry's member list
                    let mut entry = self.channels.remove(k);
                    entry.members.remove(m);
                    self.channels.insert(k, entry);
                    proof {
                        let ca = self.channels@;
                        let e0 = cb[k as int];
                        let e1 = ca[k as int];
                        assert(ca.len() == cb.len());
                        assert(forall|i: int| 0 <= i < ca.len() && i != k as int ==> ca[i] == cb[i]);
                        assert(e1.channel_id == e0.channel_id);
                        assert(e1.members@ =~= e0.members@.remove(m as int));
                        assert(ids_distinct(e0.members@) && e0.members@.len() > 0);
                        // the entry keeps exactly the other members
                        assert forall|v: int| entry_has(e1, v) implies entry_has(e0, v) && v
                            != u by {
                            let k2 = choose|k2: int|
                                0 <= k2 < e1.members@.len() && #[trigger] e1.members@[k2] as int
                                    == v;
                            let k3: int = if k2 < m as int {
                                k2
                            } else {
                                k2 + 1
                            };
                            assert(e0.members@[k3] as int == v);
                            if v == u {
                                assert(e0.members@[m as int] as int == u);
                                assert(k3 != m as int);
                                assert(false);
                            }
                        }
                        assert forall|v: int| entry_has(e0, v) && v != u implies entry_has(
                            e1,
                            v,
                        ) by {
                            let k2 = choose|k2: int|
                                0 <= k2 < e0.members@.len() && #[trigger] e0.members@[k2] as int
                                    == v;
                            assert(k2 != m as int);
                            if k2 < m as int {
                                assert(e1.members@[k2] as int == v);
                            } else {
                                assert(e1.members@[k2 - 1] as int == v);
                            }
                        }
                        assert(ids_distinct(e1.members@)) by {
                            assert forall|k1: int, k2: int| 0 <= k1 < k2 < e1.members@.len()
                                implies e1.members@[k1] != e1.members@[k2] by {
                                let n1: int = if k1 < m as int {
                                    k1
                                } else {
                                    k1 + 1
                                };
                                let n2: int = if k2 < m as int {
                                    k2
                                } else {
                                    k2 + 1
                                };
                                assert(e1.members@[k1] == e0.members@[n1]);
                                assert(e1.members@[k2] == e0.members@[n2]);
                            }
                        }
                        assert(entry_has(e0, u)) by {
                            assert(e0.members@[m as int] as int == u);
                        }
                        // step the range facts
                        assert forall|c: int, v: int| #[trigger]
                            range_member(ca, k as int + 1, c, v) implies range_member(
                            chs0,
                            ko + 1,
                            c,
                            v,
                        ) && v != u by {
                            let j2 = choose|j2: int|
                                0 <= j2 < k as int + 1 && #[trigger] ca[j2].channel_id as int == c
                                    && entry_has(ca[j2], v);
                            if j2 < k as int {
                                assert(range_member(cb, k as int, c, v));
                                assert(range_member(chs0, ko, c, v) && v != u);
                                let j3 = choose|j3: int|
                                    0 <= j3 < ko && #[trigger] chs0[j3].channel_id as int == c
                                        && entry_has(chs0[j3], v);
                                assert(chs0[j3].channel_id as int == c);
                            } else {
                                assert(entry_has(e0, v) && v != u);
                                assert(chs0[ko].channel_id as int == c && entry_has(chs0[ko], v));
                            }
                        }
                        assert forall|c: int, v: int|
                            range_member(chs0, ko + 1, c, v) && v != u implies #[trigger]
                        range_member(ca, k as int + 1, c, v) by {
                            let j3 = choose|j3: int|
                                0 <= j3 < ko + 1 && #[trigger] chs0[j3].channel_id as int == c
                                    && entry_has(chs0[j3], v);
                            if j3 < ko {
                                assert(range_member(chs0, ko, c, v));
                                assert(range_member(cb, k as int, c, v));
                                let j2 = choose|j2: int|
                                    0 <= j2 < k as int && #[trigger] cb[j2].channel_id as int == c
                                        && entry_has(cb[j2], v);
                                assert(ca[j2].channel_id as int == c && entry_has(ca[j2], v));
                            } else {
                                assert(entry_has(e1, v));
                                assert(ca[k as int].channel_id as int == c);
                            }
                        }
                        assert forall|c: int| #[trigger]
                            range_channel(ca, k as int + 1, c) implies range_surviving(
                            chs0,
                            ko + 1,
                            u,
                            c,
                        ) by {
                            let j2 = choose|j2: int|
                                0 <= j2 < k as int + 1 && #[trigger] ca[j2].channel_id as int == c;
                            if j2 < k as int {
                                assert(range_channel(cb, k as int, c));
                                let v = choose|v: int| #[trigger]
                                    range_member(chs0, ko, c, v) && v != u;
                                assert(range_member(chs0, ko + 1, c, v)) by {
                                    let j3 = choose|j3: int|
                                        0 <= j3 < ko && #[trigger] chs0[j3].channel_id as int == c
                                            && entry_has(chs0[j3], v);
                                    assert(chs0[j3].channel_id as int == c);
                                }
                            } else {
                                // this very entry keeps a member other than u
                                let k2: int = if m as int == 0 {
                                    1
                                } else {
                                    0
                                };
                                let v = e0.members@[k2] as int;
                                assert(entry_has(e0, v));
                                assert(v != u);
                                assert(chs0[ko].channel_id as int == c && entry_has(chs0[ko], v));
                                assert(range_member(chs0, ko + 1, c, v));
                            }
                        }
                        assert forall|c: int| range_surviving(chs0, ko + 1, u, c) implies
                            #[trigger] range_channel(ca, k as int + 1, c) by {
                            let v = choose|v: int| #[trigger]
                                range_member(chs0, ko + 1, c, v) && v != u;
                            let j3 = choose|j3: int|
                                0 <= j3 < ko + 1 && #[trigger] chs0[j3].channel_id as int == c
                                    && entry_has(chs0[j3], v);
                            if j3 < ko {
                                assert(range_member(chs0, ko, c, v));
                                assert(range_channel(cb, k as int, c));
                                let j2 = choose|j2: int|
                                    0 <= j2 < k as int && #[trigger] cb[j2].channel_id as int == c;
                                assert(ca[j2].channel_id as int == c);
                            } else {
                                assert(ca[k as int].channel_id as int == c);
                            }
                        }
                        assert forall|c: int| #[trigger]
                            seq_has_id(released@, c) <==> range_channel(chs0, ko + 1, c)
                            && !range_surviving(chs0, ko + 1, u, c) by {
                            if seq_has_id(released@, c) {
                                assert(range_channel(chs0, ko, c) && !range_surviving(
                                    chs0,
                                    ko,
                                    u,
                                    c,
                                ));
                                let j3 = choose|j3: int|
                                    0 <= j3 < ko && #[trigger] chs0[j3].channel_id as int == c;
                                assert(range_channel(chs0, ko + 1, c));
                                if range_surviving(chs0, ko + 1, u, c) {
                                    let v = choose|v: int| #[trigger]
                                        range_member(chs0, ko + 1, c, v) && v != u;
                                    let j4 = choose|j4: int|
                                        0 <= j4 < ko + 1 && #[trigger] chs0[j4].channel_id as int
                                            == c && entry_has(chs0[j4], v);
                                    if j4 == ko {
                                        // this entry survives, so its id is not
                                        // among the released ones
                                        assert(chs0[j3].channel_id == chs0[ko].channel_id);
                                        assert(false);
                                    } else {
                                        assert(range_member(chs0, ko, c, v));
                                        assert(false);
                                    }
                                }
                            }
                            if range_channel(chs0, ko + 1, c) && !range_surviving(
                                chs0,
                                ko + 1,
                                u,
                                c,
                            ) {
                                let j3 = choose|j3: int|
                                    0 <= j3 < ko + 1 && #[trigger] chs0[j3].channel_id as int == c;
                                if j3 == ko {
                                    // but this entry does survive: contradiction
                                    let k2: int = if m as int == 0 {
                                        1
                                    } else {
                                        0
                                    };
                                    let v = e0.members@[k2] as int;
                                    assert(entry_has(e0, v) && v != u);
                                    assert(chs0[ko].channel_id as int == c);
                                    assert(range_member(chs0, ko + 1, c, v));
                                    assert(false);
                                } else {
                                    assert(range_channel(chs0, ko, c));
                                    assert(!range_surviving(chs0, ko, u, c)) by {
                                        if range_surviving(chs0, ko, u, c) {
                                            let v = choose|v: int| #[trigger]
                                                range_member(chs0, ko, c, v) && v != u;
                                            let j4 = choose|j4: int|
                                                0 <= j4 < ko && #[trigger] chs0[j4].channel_id
                                                    as int == c && entry_has(chs0[j4], v);
                                            assert(range_member(chs0, ko + 1, c, v));
                                            assert(false);
                                        }
                                    }
                                }
                            }
                        }
                        assert forall|i1: int, i2: int| 0 <= i1 < i2 < ca.len() implies
                            ca[i1].channel_id != ca[i2].channel_id by {
                            assert(ca[i1].channel_id == cb[i1].channel_id);
                            assert(ca[i2].channel_id == cb[i2].channel_id);
                        }
                    }
                    k += 1;
                }
            } else {
                // the user is not in this entry
                proof {
                    let e0 = cb[k as int];
                    assert(!entry_has(e0, u)) by {
                        if entry_has(e0, u) {
                            let k2 = choose|k2: int|
                                0 <= k2 < e0.members@.len() && #[trigger] e0.members@[k2] as int
                                    == u;
                        }
                    }
                    assert(e0.members@.len() > 0 && ids_distinct(e0.members@));
                    assert forall|c: int, v: int| #[trigger]
                        range_member(cb, k as int + 1, c, v) implies range_member(
                        chs0,
                        ko + 1,
                        c,
                        v,
                    ) && v != u by {
                        let j2 = choose|j2: int|
                            0 <= j2 < k as int + 1 && #[trigger] cb[j2].channel_id as int == c
                                && entry_has(cb[j2], v);
                        if j2 < k as int {
                            assert(range_member(cb, k as int, c, v));
                            assert(range_member(chs0, ko, c, v) && v != u);
                            let j3 = choose|j3: int|
                                0 <= j3 < ko && #[trigger] chs0[j3].channel_id as int == c
                                    && entry_has(chs0[j3], v);
                            assert(chs0[j3].channel_id as int == c);
                        } else {
                            assert(entry_has(e0, v));
                            assert(v != u);
                            assert(chs0[ko].channel_id as int == c && entry_has(chs0[ko], v));
                        }
                    }
                    assert forall|c: int, v: int|
                        range_member(chs0, ko + 1, c, v) && v != u implies #[trigger] range_member(
                        cb,
                        k as int + 1,
                        c,
                        v,
                    ) by {
                        let j3 = choose|j3: int|
                            0 <= j3 < ko + 1 && #[trigger] chs0[j3].channel_id as int == c
                                && entry_has(chs0[j3], v);
                        if j3 < ko {
                            assert(range_member(chs0, ko, c, v));
                            assert(range_member(cb, k as int, c, v));
                            let j2 = choose|j2: int|
                                0 <= j2 < k as int && #[trigger] cb[j2].channel_id as int == c
                                    && entry_has(cb[j2], v);
                            assert(cb[j2].channel_id as int == c);
                        } else {
                            assert(cb[k as int].channel_id as int == c && entry_has(
                                cb[k as int],
                                v,
                            ));
                        }
                    }
                    assert forall|c: int| #[trigger]
                        range_channel(cb, k as int + 1, c) implies range_surviving(
                        chs0,
                        ko + 1,
                        u,
                        c,
                    ) by {
                        let j2 = choose|j2: int|
                            0 <= j2 < k as int + 1 && #[trigger] cb[j2].channel_id as int == c;
                        if j2 < k as int {
                            assert(range_channel(cb, k as int, c));
                            let v = choose|v: int| #[trigger] range_member(chs0, ko, c, v) && v
                                != u;
                            assert(range_member(chs0, ko + 1, c, v)) by {
                                let j3 = choose|j3: int|
                                    0 <= j3 < ko && #[trigger] chs0[j3].channel_id as int == c
                                        && entry_has(chs0[j3], v);
                                assert(chs0[j3].channel_id as int == c);
                            }
                        } else {
                            let v = e0.members@[0] as int;
                            assert(entry_has(e0, v));
                            assert(v != u);
                            assert(chs0[ko].channel_id as int == c && entry_has(chs0[ko], v));
                            assert(range_member(chs0, ko + 1, c, v));
                        }
                    }
                    assert forall|c: int| range_surviving(chs0, ko + 1, u, c) implies #[trigger]
                    range_channel(cb, k as int + 1, c) by {
                        let v = choose|v: int| #[trigger] range_member(chs0, ko + 1, c, v) && v
                            != u;
                        let j3 = choose|j3: int|
                            0 <= j3 < ko + 1 && #[trigger] chs0[j3].channel_id as int == c
                                && entry_has(chs0[j3], v);
                        if j3 < ko {
                            assert(range_member(chs0, ko, c, v));
                            assert(range_channel(cb, k as int, c));
                            let j2 = choose|j2: int|
                                0 <= j2 < k as int && #[trigger] cb[j2].channel_id as int == c;
                            assert(cb[j2].channel_id as int == c);
                        } else {
                            assert(cb[k as int].channel_id as int == c);
                        }
                    }
                    assert forall|c: int| #[trigger]
                        seq_has_id(released@, c) <==> range_channel(chs0, ko + 1, c)
                        && !range_surviving(chs0, ko + 1, u, c) by {
                        if seq_has_id(released@, c) {
                            assert(range_channel(chs0, ko, c) && !range_surviving(chs0, ko, u, c));
                            let j3 = choose|j3: int|
                                0 <= j3 < ko && #[trigger] chs0[j3].channel_id as int == c;
                            assert(range_channel(chs0, ko + 1, c));
                            if range_surviving(chs0, ko + 1, u, c) {
                                let v = choose|v: int| #[trigger]
                                    range_member(chs0, ko + 1, c, v) && v != u;
                                let j4 = choose|j4: int|
                                    0 <= j4 < ko + 1 && #[trigger] chs0[j4].channel_id as int == c
                                        && entry_has(chs0[j4], v);
                                if j4 == ko {
                                    assert(chs0[j3].channel_id == chs0[ko].channel_id);
                                    assert(false);
                                } else {
                                    assert(range_member(chs0, ko, c, v));
                                    assert(false);
                                }
                            }
                        }
                        if range_channel(chs0, ko + 1, c) && !range_surviving(
                            chs0,
                            ko + 1,
                            u,
                            c,
                        ) {
                            let j3 = choose|j3: int|
                                0 <= j3 < ko + 1 && #[trigger] chs0[j3].channel_id as int == c;
                            if j3 == ko {
                                let v = e0.members@[0] as int;
                                assert(entry_has(e0, v) && v != u);
                                assert(chs0[ko].channel_id as int == c);
                                assert(range_member(chs0, ko + 1, c, v));
                                assert(false);
                            } else {
                                assert(range_channel(chs0, ko, c));
                                assert(!range_surviving(chs0, ko, u, c)) by {
                                    if range_surviving(chs0, ko, u, c) {
                                        let v = choose|v: int| #[trigger]
                                            range_member(chs0, ko, c, v) && v != u;
                                        let j4 = choose|j4: int|
                                            0 <= j4 < ko && #[trigger] chs0[j4].channel_id as int
                                                == c && entry_has(chs0[j4], v);
                                        assert(range_member(chs0, ko + 1, c, v));
                                        assert(false);
                                    }
                                }
                            }
                        }
                    }
                }
                k += 1;
            }
        }
        proof {
            let post = *self;
            let chs1 = post.channels@;
            let full0 = chs0.len() as int;
            let full1 = chs1.len() as int;
            assert(k as int == full1);
            assert(k as int + released@.len() as int == full0);
            // bridge the range predicates to the index predicates
            assert forall|c: int, v: int| post.member_in(c, v) <==> range_member(
                chs1,
                full1,
                c,
                v,
            ) by {
                if post.member_in(c, v) {
                    let j2 = choose|j2: int|
                        0 <= j2 < chs1.len() && #[trigger] chs1[j2].channel_id as int == c
                            && entry_has(chs1[j2], v);
                    assert(range_member(chs1, full1, c, v));
                }
                if range_member(chs1, full1, c, v) {
                    let j2 = choose|j2: int|
                        0 <= j2 < full1 && #[trigger] chs1[j2].channel_id as int == c && entry_has(
                            chs1[j2],
                            v,
                        );
                    assert(post.member_in(c, v));
                }
            }
            assert forall|c: int, v: int| pre.member_in(c, v) <==> range_member(
                chs0,
                full0,
                c,
                v,
            ) by {
                if pre.member_in(c, v) {
                    let j2 = choose|j2: int|
                        0 <= j2 < chs0.len() && #[trigger] chs0[j2].channel_id as int == c
                            && entry_has(chs0[j2], v);
                    assert(range_member(chs0, full0, c, v));
                }
                if range_member(chs0, full0, c, v) {
                    let j2 = choose|j2: int|
                        0 <= j2 < full0 && #[trigger] chs0[j2].channel_id as int == c && entry_has(
                            chs0[j2],
                            v,
                        );
                    assert(pre.member_in(c, v));
                }
            }
            assert forall|c: int| post.has_channel(c) <==> range_channel(chs1, full1, c) by {
                if post.has_channel(c) {
                    let j2 = choose|j2: int|
                        0 <= j2 < chs1.len() && #[trigger] chs1[j2].channel_id as int == c;
                    assert(range_channel(chs1, full1, c));
                }
                if range_channel(chs1, full1, c) {
                    let j2 = choose|j2: int|
                        0 <= j2 < full1 && #[trigger] chs1[j2].channel_id as int == c;
                    assert(post.has_channel(c));
                }
            }
            assert forall|c: int| pre.has_channel(c) <==> range_channel(chs0, full0, c) by {
                if pre.has_channel(c) {
                    let j2 = choose|j2: int|
                        0 <= j2 < chs0.len() && #[trigger] chs0[j2].channel_id as int == c;
                    assert(range_channel(chs0, full0, c));
                }
                if range_channel(chs0, full0, c) {
                    let j2 = choose|j2: int|
                        0 <= j2 < full0 && #[trigger] chs0[j2].channel_id as int == c;
                    assert(pre.has_channel(c));
                }
            }
            // the has-channel clause of the transition
            assert forall|c: int| post.has_channel(c) <==> (exists|v: int| #[trigger]
                pre.member_in(c, v) && v != u) by {
                if post.has_channel(c) {
                    assert(range_surviving(chs0, full0, u, c));
                    let v = choose|v: int| #[trigger] range_member(chs0, full0, c, v) && v != u;
                    assert(pre.member_in(c, v) && v != u);
                }
                if exists|v: int| #[trigger] pre.member_in(c, v) && v != u {
                    let v = choose|v: int| #[trigger] pre.member_in(c, v) && v != u;
                    assert(range_member(chs0, full0, c, v));
                    assert(range_surviving(chs0, full0, u, c));
                }
            }
            // membership registered in the post state
            assert forall|i: int, kk: int|
                0 <= i < chs1.len() && 0 <= kk < chs1[i].members@.len() implies post.is_registered(
                #[trigger] chs1[i].members@[kk] as int,
            ) by {
                let v = chs1[i].members@[kk] as int;
                assert(entry_has(chs1[i], v));
                let c = chs1[i].channel_id as int;
                assert(range_member(chs1, full1, c, v));
                assert(range_member(chs0, full0, c, v) && v != u);
                assert(pre.member_in(c, v));
                let j2 = choose|j2: int|
                    0 <= j2 < chs0.len() && #[trigger] chs0[j2].channel_id as int == c
                        && entry_has(chs0[j2], v);
                let k2 = choose|k2: int|
                    0 <= k2 < chs0[j2].members@.len() && #[trigger] chs0[j2].members@[k2] as int
                        == v;
                assert(pre.is_registered(pre.channels@[j2].members@[k2] as int));
                let j4 = choose|j4: int|
                    0 <= j4 < pre.connections@.len() && #[trigger] pre.connections@[j4].user_id
                        as int == v;
                assert(post.is_registered(v));
            }
        }
        released
    }

    /// The fan-out plan for a payload published on `channel_id`: every member
    /// of that channel except `exclude`, each exactly once.  The caller looks
    /// up each recipient's handle (`handle_for`) and performs the writes
    /// itself, outside the index, so a slow or failing write to one recipient
    /// cannot affect the others.  A channel with no entry yields no
    /// recipients, which is not an error.
    #[verifier::loop_isolation(false)]
    pub fn send_message(&self, channel_id: i32, exclude: Option<i32>) -> (recipients: Vec<i32>)
        requires
            self.wf(),
        ensures
            ids_distinct(recipients@),
            forall|v: int|
                #[trigger] seq_has_id(recipients@, v) <==> self.member_in(channel_id as int, v)
                    && !(exclude matches Some(e) && e as int == v),
            forall|i: int|
                0 <= i < recipients@.len() ==> self.is_registered(recipients@[i] as int),
    {
        let ghost me = *self;
        let mut recipients: Vec<i32> = Vec::new();
        // find the channel's entry
        let mut j: usize = 0;
        let mut found = false;
        while j < self.channels.len() && !found
            invariant
                j <= self.channels@.len(),
                found ==> j < self.channels@.len() && self.channels@[j as int].channel_id
                    == channel_id,
                !found ==> forall|i: int| 0 <= i < j ==> self.channels@[i].channel_id != channel_id,
            decreases self.channels@.len() - j, (if found {
                0int
            } else {
                1int
            }),
        {
            if self.channels[j].channel_id == channel_id {
                found = true;
            } else {
                j += 1;
            }
        }
        if !found {
            proof {
                assert forall|v: int| !self.member_in(channel_id as int, v) by {
                    if self.member_in(channel_id as int, v) {
                        let j2 = choose|j2: int|
                            0 <= j2 < self.channels@.len() && #[trigger] self.channels@[
                                j2
                            ].channel_id as int == channel_id as int && entry_has(
                                self.channels@[j2],
                                v,
                            );
                        assert(false);
                    }
                }
                assert forall|v: int| !seq_has_id(recipients@, v) by {
                    if seq_has_id(recipients@, v) {
                        let k2 = choose|k2: int|
                            0 <= k2 < recipients@.len() && #[trigger] recipients@[k2] as int == v;
                    }
                }
            }
            return recipients;
        }
        let ghost e = self.channels@[j as int];
        let n = self.channels[j].members.len();
        let mut m: usize = 0;
        while m < n
            invariant
                found,
                j < self.channels@.len(),
                e == self.channels@[j as int],
                n == e.members@.len(),
                m <= n,
                forall|v: int|
                    #[trigger] seq_has_id(recipients@, v) <==> (exists|k2: int|
                        0 <= k2 < m && #[trigger] e.members@[k2] as int == v) && !(
                    exclude matches Some(x) && x as int == v),
                ids_distinct(recipients@),
            decreases n - m,
        {
            let candidate = self.channels[j].members[m];
            let keep = match exclude {
                Some(x) => candidate != x,
                None => true,
            };
            let ghost rb = recipients@;
            if keep {
                proof {
                    assert(!seq_has_id(rb, candidate as int)) by {
                        if seq_has_id(rb, candidate as int) {
                            let k2 = choose|k2: int|
                                0 <= k2 < m && #[trigger] e.members@[k2] as int == candidate as int;
                            assert(e.members@[k2] == e.members@[m as int]);
                            assert(ids_distinct(e.members@));
                            assert(false);
                        }
                    }
                }
                recipients.push(candidate);
                proof {
                    assert forall|k1: int, k2: int| 0 <= k1 < k2 < recipients@.len() implies
                        recipients@[k1] != recipients@[k2] by {
                        if k2 == recipients@.len() - 1 {
                            if recipients@[k1] == recipients@[k2] {
                                assert(rb[k1] as int == candidate as int);
                                assert(seq_has_id(rb, candidate as int));
                            }
                        } else {
                            assert(rb[k1] != rb[k2]);
                        }
                    }
                }
            }
            proof {
                let ra = recipients@;
                assert forall|v: int| #[trigger] seq_has_id(ra, v) implies (exists|k2: int|
                    0 <= k2 < m + 1 && #[trigger] e.members@[k2] as int == v) && !(
                exclude matches Some(x) && x as int == v) by {
                    let k3 = choose|k3: int| 0 <= k3 < ra.len() && #[trigger] ra[k3] as int == v;
                    if k3 < rb.len() {
                        assert(seq_has_id(rb, v));
                        let k2 = choose|k2: int|
                            0 <= k2 < m && #[trigger] e.members@[k2] as int == v;
                        assert(0 <= k2 < m + 1 && e.members@[k2] as int == v);
                    } else {
                        assert(v == candidate as int);
                        assert(e.members@[m as int] as int == v);
                    }
                }
                assert forall|v: int|
                    (exists|k2: int| 0 <= k2 < m + 1 && #[trigger] e.members@[k2] as int == v)
                        && !(exclude matches Some(x) && x as int == v) implies #[trigger]
                seq_has_id(ra, v) by {
                    let k2 = choose|k2: int|
                        0 <= k2 < m + 1 && #[trigger] e.members@[k2] as int == v;
                    if k2 < m {
                        assert(seq_has_id(rb, v));
                        let k3 = choose|k3: int|
                            0 <= k3 < rb.len() && #[trigger] rb[k3] as int == v;
                        assert(ra[k3] as int == v);
                    } else {
                        assert(v == candidate as int);
                        assert(keep);
                        assert(ra[ra.len() - 1] as int == v);
                    }
                }
            }
            m += 1;
        }
        proof {
            assert forall|v: int| #[trigger] seq_has_id(recipients@, v) <==> me.member_in(
                channel_id as int,
                v,
            ) && !(exclude matches Some(x) && x as int == v) by {
                if seq_has_id(recipients@, v) {
                    let k2 = choose|k2: int| 0 <= k2 < m && #[trigger] e.members@[k2] as int == v;
                    assert(entry_has(e, v));
                    assert(me.channels@[j as int].channel_id as int == channel_id as int);
                    assert(me.member_in(channel_id as int, v));
                }
                if me.member_in(channel_id as int, v) && !(exclude matches Some(x) && x as int
                    == v) {
                    let j2 = choose|j2: int|
                        0 <= j2 < me.channels@.len() && #[trigger] me.channels@[j2].channel_id
                            as int == channel_id as int && entry_has(me.channels@[j2], v);
                    assert(j2 == j as int);
                    let k2 = choose|k2: int|
                        0 <= k2 < e.members@.len() && #[trigger] e.members@[k2] as int == v;
                    assert(seq_has_id(recipients@, v));
                }
            }
            assert forall|i: int| 0 <= i < recipients@.len() implies me.is_registered(
                recipients@[i] as int,
            ) by {
                let v = recipients@[i] as int;
                assert(seq_has_id(recipients@, v));
                let k2 = choose|k2: int| 0 <= k2 < m && #[trigger] e.members@[k2] as int == v;
                assert(me.is_registered(me.channels@[j as int].members@[k2] as int));
            }
        }
        recipients
    }

    /// The delivery handle registered for `user_id`, if the user is
    /// registered.
    #[verifier::loop_isolation(false)]
    pub fn handle_for(&self, user_id: i32) -> (r: Option<&H>)
        requires
            self.wf(),
        ensures
            match r {
                Some(h) => self.is_registered(user_id as int) && *h == self.handle_of(
                    user_id as int,
                ),
                None => !self.is_registered(user_id as int),
            },
    {
        let mut j: usize = 0;
        while j < self.connections.len()
            invariant
                j <= self.connections@.len(),
                forall|k: int| 0 <= k < j ==> self.connections@[k].user_id != user_id,
            decreases self.connections@.len() - j,
        {
            if self.connections[j].user_id == user_id {
                proof {
                    assert(self.is_registered(user_id as int)) by {
                        assert(self.connections@[j as int].user_id as int == user_id as int);
                    }
                    let j2 = self.conn_index(user_id as int);
                    assert(0 <= j2 < self.connections@.len() && self.connections@[j2].user_id
                        as int == user_id as int);
                    assert(j2 == j as int);
                }
                return Some(&self.connections[j].sender);
            }
            j += 1;
        }
        None
    }
}

} // verus!

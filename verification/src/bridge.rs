//! The broadcast bridge's subscription set: the channels this process
//! currently holds a subscription for on the shared publish/subscribe bus.
//!
//! The bridge itself never talks to the bus.  Callers ask it which channels
//! of a join still need a subscribe call (`subscribe_plan`), issue those
//! calls, and record each success (`mark_subscribed`); channels that lost
//! their last local member are dropped with `release`.  Subscribing is
//! idempotent by construction: a channel already in the set is never planned
//! again, however often it appears in a join.

use crate::membership::{ids_distinct, lemma_take_one_more, seq_has_id};
use vstd::prelude::*;

verus! {

/// The set of channels subscribed on the bus, as a duplicate-free list.
pub struct SubscriptionSet {
    pub subscribed: Vec<i32>,
}

/// Whether `x` is an element of `v`.
fn has_id(v: &Vec<i32>, x: i32) -> (r: bool)
    ensures
        r == seq_has_id(v@, x as int),
{
    let mut i: usize = 0;
    while i < v.len()
        invariant
            i <= v@.len(),
            forall|k: int| 0 <= k < i ==> v@[k] != x,
        decreases v@.len() - i,
    {
        if v[i] == x {
            return true;
        }
        i += 1;
    }
    false
}

impl SubscriptionSet {
    /// Channel `c` is currently subscribed.
    pub open spec fn is_subscribed(self, c: int) -> bool {
        seq_has_id(self.subscribed@, c)
    }

    /// The set never lists a channel twice.
    pub open spec fn wf(self) -> bool {
        ids_distinct(self.subscribed@)
    }

    /// A fresh set with no subscriptions.
    pub fn new() -> (r: SubscriptionSet)
        ensures
            r.wf(),
            forall|c: int| !r.is_subscribed(c),
    {
        SubscriptionSet { subscribed: Vec::new() }
    }

    /// Whether this process currently holds a subscription for `channel_id`.
    pub fn currently_subscribed(&self, channel_id: i32) -> (r: bool)
        ensures
            r == self.is_subscribed(channel_id as int),
    {
        has_id(&self.subscribed, channel_id)
    }

    /// The channels of `channel_ids` that still need a subscribe call on the
    /// bus: every channel of the list that is not yet subscribed, each
    /// exactly once, and nothing else.
    #[verifier::loop_isolation(false)]
    pub fn subscribe_plan(&self, channel_ids: &Vec<i32>) -> (plan: Vec<i32>)
        ensures
            ids_distinct(plan@),
            forall|c: int|
                #[trigger] seq_has_id(plan@, c) <==> seq_has_id(channel_ids@, c)
                    && !self.is_subscribed(c),
    {
        let mut plan: Vec<i32> = Vec::new();
        let mut i: usize = 0;
        while i < channel_ids.len()
            invariant
                i <= channel_ids@.len(),
                ids_distinct(plan@),
                forall|c: int|
                    #[trigger] seq_has_id(plan@, c) <==> seq_has_id(
                        channel_ids@.take(i as int),
                        c,
                    ) && !self.is_subscribed(c),
            decreases channel_ids@.len() - i,
        {
            let c = channel_ids[i];
            let ghost pb = plan@;
            if !self.currently_subscribed(c) && !has_id(&plan, c) {
                plan.push(c);
                proof {
                    assert forall|k1: int, k2: int| 0 <= k1 < k2 < plan@.len() implies plan@[k1]
                        != plan@[k2] by {
                        if k2 == plan@.len() - 1 {
                            if plan@[k1] == plan@[k2] {
                                assert(pb[k1] as int == c as int);
                                assert(seq_has_id(pb, c as int));
                            }
                        } else {
                            assert(pb[k1] != pb[k2]);
                        }
                    }
                }
            }
            proof {
                lemma_take_one_more(channel_ids@, i as int);
                let pa = plan@;
                assert forall|x: int| #[trigger] seq_has_id(pa, x) implies seq_has_id(
                    channel_ids@.take(i as int + 1),
                    x,
                ) && !self.is_subscribed(x) by {
                    let k3 = choose|k3: int| 0 <= k3 < pa.len() && #[trigger] pa[k3] as int == x;
                    if k3 < pb.len() {
                        assert(seq_has_id(pb, x));
                    } else {
                        assert(x == c as int);
                        assert(channel_ids@.take(i as int + 1)[i as int] as int == x);
                    }
                }
                assert forall|x: int|
                    seq_has_id(channel_ids@.take(i as int + 1), x) && !self.is_subscribed(x)
                    implies #[trigger] seq_has_id(pa, x) by {
                    if seq_has_id(channel_ids@.take(i as int), x) {
                        assert(seq_has_id(pb, x));
                        let k3 = choose|k3: int|
                            0 <= k3 < pb.len() && #[trigger] pb[k3] as int == x;
                        assert(pa[k3] as int == x);
                    } else {
                        assert(x == c as int);
                        assert(seq_has_id(pa, c as int)) by {
                            if pa == pb.push(c) {
                                assert(pa[pa.len() - 1] as int == c as int);
                            } else {
                                assert(seq_has_id(pb, c as int));
                                let k3 = choose|k3: int|
                                    0 <= k3 < pb.len() && #[trigger] pb[k3] as int == c as int;
                                assert(pa[k3] as int == c as int);
                            }
                        }
                    }
                }
            }
            i += 1;
        }
        proof {
            assert(channel_ids@.take(i as int) =~= channel_ids@);
        }
        plan
    }

    /// Record that a subscribe call for `channel_id` succeeded on the bus.
    /// Recording a channel twice keeps the set duplicate-free.
    #[verifier::loop_isolation(false)]
    pub fn mark_subscribed(&mut self, channel_id: i32)
        requires
            old(self).wf(),
        ensures
            final(self).wf(),
            forall|c: int|
                final(self).is_subscribed(c) <==> old(self).is_subscribed(c) || c == channel_id
                    as int,
    {
        let ghost sb = self.subscribed@;
        if !has_id(&self.subscribed, channel_id) {
            self.subscribed.push(channel_id);
            proof {
                let sa = self.subscribed@;
                assert forall|k1: int, k2: int| 0 <= k1 < k2 < sa.len() implies sa[k1]
                    != sa[k2] by {
                    if k2 == sa.len() - 1 {
                        if sa[k1] == sa[k2] {
                            assert(sb[k1] as int == channel_id as int);
                            assert(seq_has_id(sb, channel_id as int));
                        }
                    } else {
                        assert(sb[k1] != sb[k2]);
                    }
                }
                assert forall|c: int| seq_has_id(sa, c) implies seq_has_id(sb, c) || c
                    == channel_id as int by {
                    let k3 = choose|k3: int| 0 <= k3 < sa.len() && #[trigger] sa[k3] as int == c;
                    if k3 < sb.len() {
                        assert(seq_has_id(sb, c));
                    }
                }
                assert forall|c: int| seq_has_id(sb, c) || c == channel_id as int implies
                    seq_has_id(sa, c) by {
                    if seq_has_id(sb, c) {
                        let k3 = choose|k3: int|
                            0 <= k3 < sb.len() && #[trigger] sb[k3] as int == c;
                        assert(sa[k3] as int == c);
                    } else {
                        assert(sa[sa.len() - 1] as int == c);
                    }
                }
            }
        }
    }

    /// Drop the subscriptions for every channel in `channel_ids`; the bus
    /// unsubscribe calls themselves are the caller's, and best-effort.
    #[verifier::loop_isolation(false)]
    pub fn release(&mut self, channel_ids: &Vec<i32>)
        requires
            old(self).wf(),
        ensures
            final(self).wf(),
            forall|c: int|
                final(self).is_subscribed(c) <==> old(self).is_subscribed(c) && !seq_has_id(
                    channel_ids@,
                    c,
                ),
    {
        let ghost s0 = self.subscribed@;
        let mut kept: Vec<i32> = Vec::new();
        let mut i: usize = 0;
        while i < self.subscribed.len()
            invariant
                self.subscribed@ == s0,
                i <= s0.len(),
                ids_distinct(kept@),
                forall|c: int|
                    #[trigger] seq_has_id(kept@, c) <==> seq_has_id(s0.take(i as int), c)
                        && !seq_has_id(channel_ids@, c),
            decreases s0.len() - i,
        {
            let x = self.subscribed[i];
            let ghost kb = kept@;
            if !has_id(channel_ids, x) {
                kept.push(x);
                proof {
                    assert forall|k1: int, k2: int| 0 <= k1 < k2 < kept@.len() implies kept@[k1]
                        != kept@[k2] by {
                        if k2 == kept@.len() - 1 {
                            if kept@[k1] == kept@[k2] {
                                assert(kb[k1] as int == x as int);
                                assert(seq_has_id(kb, x as int));
                                assert(seq_has_id(s0.take(i as int), x as int));
                                let k3 = choose|k3: int|
                                    0 <= k3 < i as int && #[trigger] s0.take(i as int)[k3] as int
                                        == x as int;
                                assert(s0[k3] == s0[i as int]);
                                assert(false);
                            }
                        } else {
                            assert(kb[k1] != kb[k2]);
                        }
                    }
                }
            }
            proof {
                lemma_take_one_more(s0, i as int);
                let ka = kept@;
                assert forall|c: int| #[trigger] seq_has_id(ka, c) implies seq_has_id(
                    s0.take(i as int + 1),
                    c,
                ) && !seq_has_id(channel_ids@, c) by {
                    let k3 = choose|k3: int| 0 <= k3 < ka.len() && #[trigger] ka[k3] as int == c;
                    if k3 < kb.len() {
                        assert(seq_has_id(kb, c));
                    } else {
                        assert(c == x as int);
                        assert(s0.take(i as int + 1)[i as int] as int == c);
                    }
                }
                assert forall|c: int|
                    seq_has_id(s0.take(i as int + 1), c) && !seq_has_id(channel_ids@, c) implies
                    #[trigger] seq_has_id(ka, c) by {
                    if seq_has_id(s0.take(i as int), c) {
                        assert(seq_has_id(kb, c));
                        let k3 = choose|k3: int|
                            0 <= k3 < kb.len() && #[trigger] kb[k3] as int == c;
                        assert(ka[k3] as int == c);
                    } else {
                        assert(c == x as int);
                        assert(ka[ka.len() - 1] as int == c);
                    }
                }
            }
            i += 1;
        }
        proof {
            assert(s0.take(i as int) =~= s0);
        }
        self.subscribed = kept;
    }
}

/// Law: planning subscriptions deduplicates.  For a join that lists one
/// not-yet-subscribed channel any number of times, the plan holds that
/// channel exactly once: exactly one subscribe call goes to the bus.
pub proof fn lemma_subscribe_dedup(
    ss: SubscriptionSet,
    channel_ids: Seq<i32>,
    plan: Seq<i32>,
    c: i32,
)
    requires
        ids_distinct(plan),
        forall|x: int|
            #[trigger] seq_has_id(plan, x) <==> seq_has_id(channel_ids, x) && !ss.is_subscribed(x),
        channel_ids.len() > 0,
        forall|k: int| 0 <= k < channel_ids.len() ==> channel_ids[k] == c,
        !ss.is_subscribed(c as int),
    ensures
        plan =~= seq![c],
{
    assert(seq_has_id(channel_ids, c as int)) by {
        assert(channel_ids[0] as int == c as int);
    }
    assert(seq_has_id(plan, c as int));
    let k0 = choose|k0: int| 0 <= k0 < plan.len() && #[trigger] plan[k0] as int == c as int;
    assert forall|i: int| 0 <= i < plan.len() implies plan[i] == c by {
        assert(seq_has_id(plan, plan[i] as int));
        assert(seq_has_id(channel_ids, plan[i] as int));
        let k2 = choose|k2: int|
            0 <= k2 < channel_ids.len() && #[trigger] channel_ids[k2] as int == plan[i] as int;
        assert(channel_ids[k2] == c);
    }
    if plan.len() >= 2 {
        assert(plan[0] != plan[1]);
        assert(false);
    }
    assert(plan.len() == 1);
    assert(plan[0] == c);
}

} // verus!

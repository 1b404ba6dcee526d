//! The broadcast bridge's subscription set.

use chat_relay::bridge::SubscriptionSet;

#[test]
fn repeated_channel_is_planned_once() {
    let ss = SubscriptionSet::new();
    let plan = ss.subscribe_plan(&vec![5, 5, 5]);
    assert_eq!(plan, vec![5]);
}

#[test]
fn already_subscribed_channels_are_not_planned_again() {
    let mut ss = SubscriptionSet::new();
    ss.mark_subscribed(5);
    assert!(ss.currently_subscribed(5));
    let plan = ss.subscribe_plan(&vec![5, 6, 5, 7]);
    assert_eq!(plan, vec![6, 7]);
}

#[test]
fn marking_twice_keeps_one_entry() {
    let mut ss = SubscriptionSet::new();
    ss.mark_subscribed(5);
    ss.mark_subscribed(5);
    assert!(ss.currently_subscribed(5));
    // still nothing to plan for channel 5
    assert_eq!(ss.subscribe_plan(&vec![5]), Vec::<i32>::new());
}

#[test]
fn release_drops_exactly_the_given_channels() {
    let mut ss = SubscriptionSet::new();
    ss.mark_subscribed(5);
    ss.mark_subscribed(6);
    ss.mark_subscribed(7);
    ss.release(&vec![5, 7, 99]);
    assert!(!ss.currently_subscribed(5));
    assert!(ss.currently_subscribed(6));
    assert!(!ss.currently_subscribed(7));
    assert!(!ss.currently_subscribed(99));
}

#[test]
fn second_join_on_a_shared_channel_plans_nothing() {
    // two users joining the same channel cost one subscribe call in all
    let mut ss = SubscriptionSet::new();
    let plan = ss.subscribe_plan(&vec![10]);
    assert_eq!(plan, vec![10]);
    for c in plan {
        ss.mark_subscribed(c);
    }
    assert_eq!(ss.subscribe_plan(&vec![10]), Vec::<i32>::new());
}

#[test]
fn empty_plan_for_empty_join() {
    let ss = SubscriptionSet::new();
    assert_eq!(ss.subscribe_plan(&Vec::new()), Vec::<i32>::new());
}

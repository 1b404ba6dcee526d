//! The membership index: joins, cleanup, fan-out.

use chat_relay::membership::ChannelManager;
use chat_relay::protocol::parse_broadcast;
use std::cell::RefCell;
use std::rc::Rc;

type Outbox = Rc<RefCell<Vec<String>>>;

fn outbox() -> Outbox {
    Rc::new(RefCell::new(Vec::new()))
}

#[test]
fn join_registers_user_and_channels() {
    let mut mgr: ChannelManager<Outbox> = ChannelManager::new();
    assert!(!mgr.user_connected(7));
    let added = mgr.add_user(7, &vec![10, 20], outbox());
    assert!(added);
    assert!(mgr.user_connected(7));
    assert_eq!(mgr.send_message(10, None), vec![7]);
    assert_eq!(mgr.send_message(20, None), vec![7]);
}

#[test]
fn join_is_idempotent() {
    let mut mgr: ChannelManager<Outbox> = ChannelManager::new();
    let first = outbox();
    assert!(mgr.add_user(7, &vec![10], first.clone()));
    // a second join, even with a different channel set, changes nothing
    assert!(!mgr.add_user(7, &vec![10, 30], outbox()));
    assert!(mgr.user_connected(7));
    assert_eq!(mgr.send_message(30, None), Vec::<i32>::new());
    // the handle of the first join is still the registered one
    let h = mgr.handle_for(7).expect("user 7 must stay registered");
    assert!(Rc::ptr_eq(h, &first));
}

#[test]
fn duplicate_channel_ids_in_one_join_count_once() {
    let mut mgr: ChannelManager<Outbox> = ChannelManager::new();
    assert!(mgr.add_user(7, &vec![10, 10, 10], outbox()));
    assert_eq!(mgr.send_message(10, None), vec![7]);
}

#[test]
fn remove_cleans_everything() {
    let mut mgr: ChannelManager<Outbox> = ChannelManager::new();
    mgr.add_user(1, &vec![10, 20], outbox());
    mgr.add_user(2, &vec![10], outbox());
    let mut released = mgr.remove_user(1);
    released.sort();
    // channel 20 lost its last member; channel 10 keeps user 2
    assert_eq!(released, vec![20]);
    assert!(!mgr.user_connected(1));
    assert!(mgr.handle_for(1).is_none());
    assert_eq!(mgr.send_message(10, None), vec![2]);
    assert_eq!(mgr.send_message(20, None), Vec::<i32>::new());
}

#[test]
fn remove_unregistered_user_is_a_noop() {
    let mut mgr: ChannelManager<Outbox> = ChannelManager::new();
    mgr.add_user(1, &vec![10], outbox());
    let released = mgr.remove_user(99);
    assert_eq!(released, Vec::<i32>::new());
    assert!(mgr.user_connected(1));
    assert_eq!(mgr.send_message(10, None), vec![1]);
}

#[test]
fn remove_last_member_of_every_channel() {
    let mut mgr: ChannelManager<Outbox> = ChannelManager::new();
    mgr.add_user(1, &vec![10, 20, 30], outbox());
    let mut released = mgr.remove_user(1);
    released.sort();
    assert_eq!(released, vec![10, 20, 30]);
    assert_eq!(mgr.send_message(10, None), Vec::<i32>::new());
}

#[test]
fn fan_out_reaches_exactly_the_members() {
    let mut mgr: ChannelManager<Outbox> = ChannelManager::new();
    mgr.add_user(1, &vec![10], outbox());
    mgr.add_user(2, &vec![10], outbox());
    mgr.add_user(3, &vec![20], outbox());
    let mut plan = mgr.send_message(10, None);
    plan.sort();
    assert_eq!(plan, vec![1, 2]);
    // a channel with no entry delivers to nobody, and is not an error
    assert_eq!(mgr.send_message(99, None), Vec::<i32>::new());
}

#[test]
fn fan_out_excludes_the_sender() {
    let mut mgr: ChannelManager<Outbox> = ChannelManager::new();
    mgr.add_user(1, &vec![10], outbox());
    mgr.add_user(2, &vec![10], outbox());
    assert_eq!(mgr.send_message(10, Some(1)), vec![2]);
    // excluding a non-member changes nothing
    let mut plan = mgr.send_message(10, Some(9));
    plan.sort();
    assert_eq!(plan, vec![1, 2]);
}

#[test]
fn delivery_failure_of_one_recipient_spares_the_others() {
    // a handle whose write fails when told to
    struct Sink {
        written: Vec<String>,
        broken: bool,
    }
    fn write(h: &Rc<RefCell<Sink>>, text: &str) -> Result<(), ()> {
        let mut s = h.borrow_mut();
        if s.broken {
            return Err(());
        }
        s.written.push(text.to_string());
        Ok(())
    }
    let mut mgr: ChannelManager<Rc<RefCell<Sink>>> = ChannelManager::new();
    let a = Rc::new(RefCell::new(Sink { written: Vec::new(), broken: false }));
    let b = Rc::new(RefCell::new(Sink { written: Vec::new(), broken: true }));
    mgr.add_user(1, &vec![10], a.clone());
    mgr.add_user(2, &vec![10], b.clone());
    let mut plan = mgr.send_message(10, None);
    plan.sort();
    let mut failures = 0;
    for uid in plan {
        let handle = mgr.handle_for(uid).expect("member must be registered");
        if write(handle, "hi").is_err() {
            failures += 1;
            continue;
        }
    }
    assert_eq!(failures, 1);
    assert_eq!(a.borrow().written, vec!["hi".to_string()]);
    assert_eq!(b.borrow().written, Vec::<String>::new());
}

#[test]
fn publish_scenario_with_two_users() {
    let mut mgr: ChannelManager<Outbox> = ChannelManager::new();
    let h1 = outbox();
    let h2 = outbox();
    mgr.add_user(1, &vec![10, 20], h1.clone());
    mgr.add_user(2, &vec![10], h2.clone());

    // a payload published on channel 10
    let raw = br#"{"sender":1,"message":"hi"}"#.to_vec();
    let payload = parse_broadcast(&raw).expect("payload must decode");
    assert_eq!(payload.sender, 1);
    assert_eq!(payload.message, b"hi".to_vec());

    for uid in mgr.send_message(10, Some(payload.sender)) {
        let handle = mgr.handle_for(uid).expect("member must be registered");
        handle
            .borrow_mut()
            .push(String::from_utf8(payload.message.clone()).expect("text payload"));
    }
    // user 2 got the text; user 1 (the sender) and channel 20 saw nothing
    assert_eq!(*h2.borrow(), vec!["hi".to_string()]);
    assert!(h1.borrow().is_empty());

    // user 1 leaves: channel 20 dies, channel 10 keeps user 2
    let released = mgr.remove_user(1);
    assert_eq!(released, vec![20]);
    assert_eq!(mgr.send_message(10, None), vec![2]);
}

use ddns_core::bus::{BusPoll, EventBus};
use ddns_core::status::Event;

fn log_text(p: BusPoll) -> String {
    match p {
        BusPoll::Delivered(Event::Log(l)) => l,
        other => panic!("expected a delivered log event, got {:?}", kind_of(&other)),
    }
}

fn kind_of(p: &BusPoll) -> &'static str {
    match p {
        BusPoll::Delivered(_) => "delivered",
        BusPoll::Empty => "empty",
        BusPoll::Closed => "closed",
        BusPoll::Lagged(_) => "lagged",
    }
}

#[test]
fn a_subscriber_sees_events_in_publish_order() {
    let bus = EventBus::new(16);
    let mut sub = bus.subscribe();
    bus.publish(Event::Log("one".to_string()));
    bus.publish(Event::Log("two".to_string()));
    assert_eq!(log_text(sub.poll()), "one");
    assert_eq!(log_text(sub.poll()), "two");
    assert!(matches!(sub.poll(), BusPoll::Empty));
}

#[test]
fn publishing_with_no_subscriber_never_fails() {
    let bus = EventBus::new(4);
    bus.publish(Event::Log("nobody listens".to_string()));
    bus.publish_all(vec![
        Event::Log("still".to_string()),
        Event::Log("fine".to_string()),
    ]);
}

#[test]
fn a_lagging_subscriber_is_told_what_it_missed() {
    let bus = EventBus::new(1);
    let mut sub = bus.subscribe();
    bus.publish(Event::Log("old".to_string()));
    bus.publish(Event::Log("new".to_string()));
    match sub.poll() {
        BusPoll::Lagged(n) => assert_eq!(n, 1),
        other => panic!("expected a lag notice, got {}", kind_of(&other)),
    }
    assert_eq!(log_text(sub.poll()), "new");
}

#[test]
fn a_cloned_handle_publishes_into_the_same_stream() {
    let bus = EventBus::new(8);
    let handle = bus.handle();
    let mut sub = bus.subscribe();
    handle.publish(Event::Log("via handle".to_string()));
    assert_eq!(log_text(sub.poll()), "via handle");
}

#[test]
fn batches_are_published_in_order() {
    let bus = EventBus::new(8);
    let mut sub = bus.subscribe();
    bus.publish_all(vec![
        Event::Log("a".to_string()),
        Event::Log("b".to_string()),
        Event::Log("c".to_string()),
    ]);
    assert_eq!(log_text(sub.poll()), "a");
    assert_eq!(log_text(sub.poll()), "b");
    assert_eq!(log_text(sub.poll()), "c");
}

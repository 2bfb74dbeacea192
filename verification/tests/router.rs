use wlf::ComponentKind;
use wlf::event::Event;
use wlf::event_router::Error;
use wlf::event_router::EventRouter;
use wlf::test_utils::DummyComponent;
use wlf::value::Value;

fn text_event(text: &str) -> Event {
    Event::from_value(Value::String(text.to_string()))
}

#[test]
fn register_and_deliver() {
    let collector = DummyComponent::new("c".to_string(), ComponentKind::Collector);
    let transformer = DummyComponent::new("t".to_string(), ComponentKind::Transformer);
    let dispatcher = DummyComponent::new("d".to_string(), ComponentKind::Dispatcher);
    let mut router = EventRouter::new();
    router.register_component(&collector);
    router.register_component(&transformer);
    router.register_component(&dispatcher);

    let e = text_event("payload");
    router.send_event(e, "t").expect("send to transformer");
    let polled = router.poll_event("t").expect("poll transformer");
    assert_eq!(polled, text_event("payload"));
}

#[test]
fn send_to_collector_is_wrong_kind() {
    let collector = DummyComponent::new("c".to_string(), ComponentKind::Collector);
    let mut router = EventRouter::new();
    router.register_component(&collector);
    let r = router.send_event(text_event("x"), "c");
    assert_eq!(r, Err(Error::WrongComponentKind));
}

#[test]
fn send_to_unknown_component_fails() {
    let mut router = EventRouter::new();
    let r = router.send_event(text_event("x"), "nobody");
    assert!(matches!(r, Err(Error::NoSuchComponent(id)) if id == "nobody"));
}

#[test]
fn poll_rules_match_send_rules() {
    let collector = DummyComponent::new("c".to_string(), ComponentKind::Collector);
    let dispatcher = DummyComponent::new("d".to_string(), ComponentKind::Dispatcher);
    let mut router = EventRouter::new();
    router.register_component(&collector);
    router.register_component(&dispatcher);
    assert!(matches!(router.poll_event("ghost"), Err(Error::NoSuchComponent(_))));
    assert_eq!(router.poll_event("c"), Err(Error::WrongComponentKind));
    // an empty inbox reports that nothing is waiting
    assert!(matches!(router.poll_event("d"), Err(Error::Internal(_))));
}

#[test]
fn fifo_order_per_target() {
    let dispatcher = DummyComponent::new("d".to_string(), ComponentKind::Dispatcher);
    let mut router = EventRouter::new();
    router.register_component(&dispatcher);
    router.send_event(text_event("first"), "d").unwrap();
    router.send_event(text_event("second"), "d").unwrap();
    router.send_event(text_event("third"), "d").unwrap();
    assert_eq!(router.poll_event("d").unwrap(), text_event("first"));
    assert_eq!(router.poll_event("d").unwrap(), text_event("second"));
    assert_eq!(router.poll_event("d").unwrap(), text_event("third"));
}

#[test]
fn duplicate_registration_keeps_first() {
    let transformer = DummyComponent::new("x".to_string(), ComponentKind::Transformer);
    let collector = DummyComponent::new("x".to_string(), ComponentKind::Collector);
    let mut router = EventRouter::new();
    router.register_component(&transformer);
    // the second registration under the same id is a no-op
    router.register_component(&collector);
    router.send_event(text_event("kept"), "x").expect("first registration wins");
    assert_eq!(router.poll_event("x").unwrap(), text_event("kept"));
}

#[test]
fn replicator_stops_at_a_bad_destination() {
    let a = DummyComponent::new("a".to_string(), ComponentKind::Dispatcher);
    let mut router = EventRouter::new();
    router.register_component(&a);
    let replicator = wlf::replicator::EventReplicator {
        id: "rep".to_string(),
        destinations: vec!["a".to_string(), "ghost".to_string()],
    };
    let r = replicator.replicate(&text_event("copy"), &mut router);
    assert!(matches!(r, Err(Error::NoSuchComponent(id)) if id == "ghost"));
    // the copy before the failure was already delivered
    assert_eq!(router.poll_event("a").unwrap(), text_event("copy"));
}

#[test]
fn replicator_fans_out() {
    let a = DummyComponent::new("a".to_string(), ComponentKind::Dispatcher);
    let b = DummyComponent::new("b".to_string(), ComponentKind::Dispatcher);
    let mut router = EventRouter::new();
    router.register_component(&a);
    router.register_component(&b);
    let replicator = wlf::replicator::EventReplicator {
        id: "rep".to_string(),
        destinations: vec!["a".to_string(), "b".to_string()],
    };
    replicator.replicate(&text_event("copy"), &mut router).unwrap();
    assert_eq!(router.poll_event("a").unwrap(), text_event("copy"));
    assert_eq!(router.poll_event("b").unwrap(), text_event("copy"));
}

use pubsub_broker::broker::{Broker, LogEvent};
use pubsub_broker::errors::ActorError;
use pubsub_broker::messages::{BrokerMessage, ClientMessage};
use pubsub_broker::registry::Registry;

fn registry_with(names: &[(&str, u64)]) -> Registry {
    let mut reg = Registry::new();
    for (name, handle) in names {
        assert!(reg.register(name.to_string(), *handle).is_ok());
    }
    reg
}

#[test]
fn s1_basic_subscribe_and_publish() {
    let reg = registry_with(&[("c1", 7)]);
    let mut broker = Broker::init().unwrap();
    broker.subscribe("news".to_string(), "c1".to_string());

    let out = broker.publish(&"news".to_string(), &"hi".to_string(), &reg);
    assert_eq!(out.len(), 1);
    assert_eq!(out[0].subscriber, "c1");
    assert_eq!(out[0].handle, 7);
    match &out[0].message {
        ClientMessage::Notification { topic, message } => {
            assert_eq!(topic, "news");
            assert_eq!(message, "hi");
        }
    }
}

#[test]
fn s2_publish_to_empty_topic_is_noop() {
    let reg = Registry::new();
    let mut broker = Broker::init().unwrap();
    let out = broker.publish(&"ghost".to_string(), &"x".to_string(), &reg);
    assert_eq!(out.len(), 0);
    // the broker is still alive and serviceable
    broker.subscribe("t".to_string(), "c1".to_string());
    assert!(broker.is_subscribed(&"t".to_string(), &"c1".to_string()));
}

#[test]
fn s3_duplicate_subscribe_delivers_once() {
    let reg = registry_with(&[("c1", 1)]);
    let mut broker = Broker::init().unwrap();
    broker.subscribe("t".to_string(), "c1".to_string());
    broker.subscribe("t".to_string(), "c1".to_string());

    let out = broker.publish(&"t".to_string(), &"m".to_string(), &reg);
    assert_eq!(out.len(), 1);
    assert_eq!(out[0].subscriber, "c1");
}

#[test]
fn s5_dangling_subscriber_is_pruned() {
    let reg = registry_with(&[("alive", 3)]);
    let mut broker = Broker::init().unwrap();
    broker.subscribe("t".to_string(), "alive".to_string());
    broker.subscribe("t".to_string(), "gone".to_string());

    let out = broker.publish(&"t".to_string(), &"m".to_string(), &reg);
    assert_eq!(out.len(), 1);
    assert_eq!(out[0].subscriber, "alive");
    // a second look at subscriptions[t] shows the stale name absent
    assert!(!broker.is_subscribed(&"t".to_string(), &"gone".to_string()));
    assert!(broker.is_subscribed(&"t".to_string(), &"alive".to_string()));
}

#[test]
fn p6_subscribe_idempotent_state() {
    let mut once = Broker::init().unwrap();
    once.subscribe("t".to_string(), "c1".to_string());
    let mut twice = Broker::init().unwrap();
    twice.subscribe("t".to_string(), "c1".to_string());
    twice.subscribe("t".to_string(), "c1".to_string());
    // both states answer every membership question alike
    for (topic, name) in [("t", "c1"), ("t", "other"), ("u", "c1")] {
        assert_eq!(
            once.is_subscribed(&topic.to_string(), &name.to_string()),
            twice.is_subscribed(&topic.to_string(), &name.to_string()),
        );
    }
}

#[test]
fn unsubscribe_removes_only_named_pair() {
    let mut broker = Broker::init().unwrap();
    broker.subscribe("t".to_string(), "c1".to_string());
    broker.subscribe("t".to_string(), "c2".to_string());
    broker.subscribe("u".to_string(), "c1".to_string());
    broker.unsubscribe(&"t".to_string(), &"c1".to_string());
    assert!(!broker.is_subscribed(&"t".to_string(), &"c1".to_string()));
    assert!(broker.is_subscribed(&"t".to_string(), &"c2".to_string()));
    assert!(broker.is_subscribed(&"u".to_string(), &"c1".to_string()));
    // absent pair: no error, nothing changes
    broker.unsubscribe(&"t".to_string(), &"c1".to_string());
    assert!(broker.is_subscribed(&"t".to_string(), &"c2".to_string()));
}

#[test]
fn handle_dispatches_subscribe_and_publish() {
    let reg = registry_with(&[("c1", 9)]);
    let mut broker = Broker::init().unwrap();

    let eff = broker.handle(
        BrokerMessage::Subscribe { topic: "news".to_string(), subscriber: "c1".to_string() },
        &reg,
    );
    assert_eq!(eff.deliveries.len(), 0);
    assert_eq!(eff.log.len(), 1);
    match &eff.log[0] {
        LogEvent::Subscribed { topic, subscriber } => {
            assert_eq!(topic, "news");
            assert_eq!(subscriber, "c1");
        }
        _ => panic!("expected a Subscribed log event"),
    }

    let eff = broker.handle(
        BrokerMessage::Publish { topic: "news".to_string(), message: "hi".to_string() },
        &reg,
    );
    assert_eq!(eff.deliveries.len(), 1);
    assert_eq!(eff.deliveries[0].handle, 9);
    assert_eq!(eff.log.len(), 1);
    match &eff.log[0] {
        LogEvent::Published { topic, message } => {
            assert_eq!(topic, "news");
            assert_eq!(message, "hi");
        }
        _ => panic!("expected a Published log event"),
    }
}

#[test]
fn handle_diagnostic_messages_only_log() {
    let reg = Registry::new();
    let mut broker = Broker::init().unwrap();
    broker.subscribe("all".to_string(), "c1".to_string());

    let eff = broker.handle(
        BrokerMessage::InternalMessage {
            topic: "all".to_string(),
            message: "tell broker hello".to_string(),
        },
        &reg,
    );
    assert_eq!(eff.deliveries.len(), 0);
    match &eff.log[0] {
        LogEvent::Internal { topic, message } => {
            assert_eq!(topic, "all");
            assert_eq!(message, "tell broker hello");
        }
        _ => panic!("expected an Internal log event"),
    }
    // state untouched
    assert!(broker.is_subscribed(&"all".to_string(), &"c1".to_string()));

    let eff = broker.handle(BrokerMessage::Notify("ping".to_string()), &reg);
    assert_eq!(eff.deliveries.len(), 0);
    match &eff.log[0] {
        LogEvent::Notice(text) => assert_eq!(text, "ping"),
        _ => panic!("expected a Notice log event"),
    }
}

#[test]
fn handle_unsubscribe_message() {
    let reg = Registry::new();
    let mut broker = Broker::init().unwrap();
    broker.subscribe("t".to_string(), "c1".to_string());
    let eff = broker.handle(
        BrokerMessage::Unsubscribe { topic: "t".to_string(), subscriber: "c1".to_string() },
        &reg,
    );
    assert_eq!(eff.deliveries.len(), 0);
    assert!(!broker.is_subscribed(&"t".to_string(), &"c1".to_string()));
}

#[test]
fn publish_error_free_on_unknown_topic_and_dead_names() {
    // the broker never fails on application-level issues
    let reg = Registry::new();
    let mut broker = Broker::init().unwrap();
    broker.subscribe("t".to_string(), "nobody".to_string());
    let out = broker.publish(&"t".to_string(), &"m".to_string(), &reg);
    assert!(out.is_empty());
    let lookup = reg.lookup(&"nobody".to_string());
    assert_eq!(lookup, Err(ActorError::NotRegistered));
}

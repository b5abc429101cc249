use pubsub_broker::broker::Broker;
use pubsub_broker::client::BrokerClient;
use pubsub_broker::mailbox::Mailbox;
use pubsub_broker::messages::{BrokerMessage, ClientMessage};
use pubsub_broker::registry::Registry;
use pubsub_broker::runtime::{ActorRuntime, HandlerOutcome};

#[test]
fn lifecycle_happy_path() {
    let mut actor = ActorRuntime::start();
    actor.finish_init(true);
    assert!(actor.is_live());
    actor.begin_handler();
    actor.finish_handler(HandlerOutcome::Continue);
    actor.begin_handler();
    actor.finish_handler(HandlerOutcome::Stop);
    actor.run_terminate();
    assert!(!actor.is_live());
}

#[test]
fn lifecycle_init_failure_skips_terminate() {
    let mut actor = ActorRuntime::start();
    actor.finish_init(false);
    // straight to Terminated: the handle is permanently invalid
    assert!(!actor.is_live());
}

#[test]
fn lifecycle_handler_panic_leads_to_terminating() {
    let mut actor = ActorRuntime::start();
    actor.finish_init(true);
    actor.begin_handler();
    actor.finish_handler(HandlerOutcome::Panicked);
    // still live for the runtime to run `terminate` exactly once
    assert!(actor.is_live());
    actor.run_terminate();
    assert!(!actor.is_live());
}

#[test]
fn stale_handle_send_fails_with_no_such_actor() {
    let mut actor = ActorRuntime::start();
    actor.finish_init(true);
    assert!(actor.check_send().is_ok());
    actor.begin_handler();
    actor.finish_handler(HandlerOutcome::Stop);
    actor.run_terminate();
    assert_eq!(
        actor.check_send(),
        Err(pubsub_broker::errors::ActorError::NoSuchActor)
    );
}

fn registry_with_broker() -> Registry {
    let mut reg = Registry::new();
    assert!(reg.register("broker_process".to_string(), 1).is_ok());
    reg
}

#[test]
fn client_init_fails_without_broker() {
    let reg = Registry::new();
    let r = BrokerClient::init("broker_client".to_string(), vec!["news".to_string()], &reg);
    assert!(matches!(r, Err(pubsub_broker::errors::ActorError::StartupError)));
}

#[test]
fn client_subscribes_to_its_topics_on_init() {
    let reg = registry_with_broker();
    let client = BrokerClient::init(
        "broker_client".to_string(),
        vec!["news".to_string(), "sport".to_string()],
        &reg,
    )
    .unwrap();
    let requests = client.subscription_requests();
    assert_eq!(requests.len(), 2);
    match &requests[0] {
        BrokerMessage::Subscribe { topic, subscriber } => {
            assert_eq!(topic, "news");
            assert_eq!(subscriber, "broker_client");
        }
        _ => panic!("expected a Subscribe message"),
    }
    match &requests[1] {
        BrokerMessage::Subscribe { topic, subscriber } => {
            assert_eq!(topic, "sport");
            assert_eq!(subscriber, "broker_client");
        }
        _ => panic!("expected a Subscribe message"),
    }
}

#[test]
fn client_renders_notification() {
    let reg = registry_with_broker();
    let client = BrokerClient::init("c1".to_string(), vec![], &reg).unwrap();
    let line = client.handle(&ClientMessage::Notification {
        topic: "news".to_string(),
        message: "hi".to_string(),
    });
    assert_eq!(line, "Notification - Topic: news, Message: hi");
}

#[test]
fn end_to_end_publish_reaches_client_exactly_once() {
    // S1 run through mailbox, registry, broker and client together
    let mut reg = registry_with_broker();
    assert!(reg.register("c1".to_string(), 42).is_ok());

    let mut broker = Broker::init().unwrap();
    let client = BrokerClient::init("c1".to_string(), vec!["news".to_string()], &reg).unwrap();
    let mut client_mailbox: Mailbox<ClientMessage> = Mailbox::new(16);

    let mut broker_mailbox: Mailbox<BrokerMessage> = Mailbox::new(16);
    for msg in client.subscription_requests() {
        assert!(broker_mailbox.try_enqueue(msg).is_ok());
    }
    assert!(broker_mailbox
        .try_enqueue(BrokerMessage::Publish {
            topic: "news".to_string(),
            message: "hi".to_string(),
        })
        .is_ok());

    while let Some(msg) = broker_mailbox.dequeue() {
        let eff = broker.handle(msg, &reg);
        for delivery in eff.deliveries {
            assert_eq!(delivery.handle, 42);
            assert!(client_mailbox.try_enqueue(delivery.message).is_ok());
        }
    }

    let mut lines: Vec<String> = Vec::new();
    while let Some(note) = client_mailbox.dequeue() {
        lines.push(client.handle(&note));
    }
    assert_eq!(lines, vec!["Notification - Topic: news, Message: hi".to_string()]);
}

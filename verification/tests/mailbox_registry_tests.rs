use pubsub_broker::errors::ActorError;
use pubsub_broker::mailbox::Mailbox;
use pubsub_broker::registry::Registry;

#[test]
fn p3_fifo_order_per_sender() {
    let mut mb: Mailbox<u32> = Mailbox::new(8);
    assert!(mb.try_enqueue(1).is_ok());
    assert!(mb.try_enqueue(2).is_ok());
    assert!(mb.try_enqueue(3).is_ok());
    assert_eq!(mb.dequeue(), Some(1));
    assert_eq!(mb.dequeue(), Some(2));
    assert_eq!(mb.dequeue(), Some(3));
    assert_eq!(mb.dequeue(), None);
}

#[test]
fn s6_mailbox_backpressure() {
    let mut mb: Mailbox<&str> = Mailbox::new(2);
    assert!(mb.try_enqueue("a").is_ok());
    assert!(mb.try_enqueue("b").is_ok());
    assert!(mb.is_full());
    // the blocking send variant is the sender retrying: refused while full
    assert_eq!(mb.try_enqueue("c"), Err(ActorError::MailboxFull));
    // the subscriber drains one message; the suspended sender gets through
    assert_eq!(mb.dequeue(), Some("a"));
    assert!(mb.try_enqueue("c").is_ok());
    // FIFO order is preserved
    let rest = mb.drain();
    assert_eq!(rest, vec!["b", "c"]);
    assert_eq!(mb.len(), 0);
}

#[test]
fn mailbox_capacity_is_fixed() {
    let mut mb: Mailbox<u8> = Mailbox::new(1);
    assert_eq!(mb.capacity(), 1);
    assert!(mb.try_enqueue(1).is_ok());
    assert_eq!(mb.try_enqueue(2), Err(ActorError::MailboxFull));
    assert_eq!(mb.capacity(), 1);
}

#[test]
fn registry_register_and_lookup() {
    let mut reg = Registry::new();
    assert!(reg.register("broker_process".to_string(), 1).is_ok());
    assert_eq!(reg.lookup(&"broker_process".to_string()), Ok(1));
    assert_eq!(reg.lookup(&"broker_client".to_string()), Err(ActorError::NotRegistered));
}

#[test]
fn registry_registration_is_exclusive() {
    let mut reg = Registry::new();
    assert!(reg.register("c1".to_string(), 1).is_ok());
    assert_eq!(reg.register("c1".to_string(), 2), Err(ActorError::NameTaken));
    // the failed registration changed nothing
    assert_eq!(reg.lookup(&"c1".to_string()), Ok(1));
}

#[test]
fn registry_deregister_is_idempotent() {
    let mut reg = Registry::new();
    assert!(reg.register("c1".to_string(), 1).is_ok());
    assert!(reg.deregister(&"c1".to_string()));
    assert!(!reg.deregister(&"c1".to_string()));
    assert_eq!(reg.lookup(&"c1".to_string()), Err(ActorError::NotRegistered));
}

#[test]
fn registry_replace_on_restart_is_atomic() {
    let mut reg = Registry::new();
    assert!(reg.register("broker_process".to_string(), 1).is_ok());
    assert!(reg.register("broker_client".to_string(), 2).is_ok());
    // the supervisor restarts the broker: same name, new handle
    reg.replace("broker_process".to_string(), 10);
    assert_eq!(reg.lookup(&"broker_process".to_string()), Ok(10));
    // other entries untouched
    assert_eq!(reg.lookup(&"broker_client".to_string()), Ok(2));
    // replace also creates a missing entry
    reg.replace("late".to_string(), 30);
    assert_eq!(reg.lookup(&"late".to_string()), Ok(30));
}

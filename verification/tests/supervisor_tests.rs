use pubsub_broker::broker::Broker;
use pubsub_broker::client::BrokerClient;
use pubsub_broker::errors::ActorError;
use pubsub_broker::messages::BrokerMessage;
use pubsub_broker::registry::Registry;
use pubsub_broker::supervisor::{
    should_restart, restart_plan, startup_outcome, ExitReason, RestartPolicy, RestartTracker,
    SupervisorConfig, SupervisorStrategy,
};

#[test]
fn restart_policy_matrix() {
    for reason in [ExitReason::Normal, ExitReason::Failure, ExitReason::Shutdown] {
        assert!(should_restart(RestartPolicy::Permanent, reason));
        assert!(!should_restart(RestartPolicy::Temporary, reason));
    }
    assert!(should_restart(RestartPolicy::Transient, ExitReason::Failure));
    assert!(!should_restart(RestartPolicy::Transient, ExitReason::Normal));
    assert!(!should_restart(RestartPolicy::Transient, ExitReason::Shutdown));
}

#[test]
fn one_for_one_restarts_failed_child_only() {
    let plan = restart_plan(SupervisorStrategy::OneForOne, 3, 1);
    assert!(plan.terminate_order.is_empty());
    assert_eq!(plan.restart_order, vec![1]);
}

#[test]
fn one_for_all_restarts_every_child() {
    let plan = restart_plan(SupervisorStrategy::OneForAll, 3, 1);
    // the siblings go down in reverse start order...
    assert_eq!(plan.terminate_order, vec![2, 0]);
    // ...and everyone comes back in start order
    assert_eq!(plan.restart_order, vec![0, 1, 2]);
}

#[test]
fn rest_for_one_restarts_failed_child_and_later_ones() {
    let plan = restart_plan(SupervisorStrategy::RestForOne, 4, 1);
    assert_eq!(plan.terminate_order, vec![3, 2]);
    assert_eq!(plan.restart_order, vec![1, 2, 3]);
}

#[test]
fn restart_budget_escalates_inside_window() {
    let mut tracker = RestartTracker::new(2, 10);
    assert!(!tracker.record_failure(1));
    assert!(!tracker.record_failure(2));
    // a third failure inside the window exceeds max_restarts = 2
    assert!(tracker.record_failure(3));
}

#[test]
fn restart_budget_forgets_old_failures() {
    let mut tracker = RestartTracker::new(2, 10);
    assert!(!tracker.record_failure(1));
    assert!(!tracker.record_failure(2));
    // much later: the early failures slid out of the window
    assert!(!tracker.record_failure(100));
    assert!(!tracker.record_failure(101));
    assert!(tracker.record_failure(102));
}

#[test]
fn startup_rolls_back_started_children_in_reverse() {
    assert_eq!(startup_outcome(&vec![true, true, true]), Ok(3));
    match startup_outcome(&vec![true, true, false, true]) {
        Err((failed, rollback, e)) => {
            assert_eq!(failed, 2);
            assert_eq!(rollback, vec![1, 0]);
            assert_eq!(e, ActorError::StartupError);
        }
        Ok(_) => panic!("startup with a failing child must not succeed"),
    }
}

#[test]
fn observer_tree_declaration() {
    let config = SupervisorConfig::observer(3, 5);
    assert!(matches!(config.strategy, SupervisorStrategy::OneForAll));
    assert!(matches!(config.restart_policy, RestartPolicy::Permanent));
    assert_eq!(config.child_args, vec![Vec::<String>::new(), vec!["None".to_string()]]);
    assert_eq!(config.child_names.len(), 2);
    assert_eq!(config.child_names[0].as_deref(), Some("broker_process"));
    assert_eq!(config.child_names[1].as_deref(), Some("broker_client"));
}

#[test]
fn s4_one_for_all_restart_resubscribes_and_delivers() {
    // supervision tree: child 0 = broker, child 1 = client, OneForAll
    let mut reg = Registry::new();
    assert!(reg.register("broker_process".to_string(), 1).is_ok());
    assert!(reg.register("broker_client".to_string(), 2).is_ok());

    let mut broker = Broker::init().unwrap();
    let client = BrokerClient::init("broker_client".to_string(), vec!["news".to_string()], &reg)
        .unwrap();
    for msg in client.subscription_requests() {
        broker.handle(msg, &reg);
    }

    // the client crashes: under OneForAll the broker is terminated too and
    // both are restarted in start order
    let plan = restart_plan(SupervisorStrategy::OneForAll, 2, 1);
    assert_eq!(plan.terminate_order, vec![0]);
    assert_eq!(plan.restart_order, vec![0, 1]);

    // restart: fresh broker state, replaced registry entries, client
    // re-subscribes in its init
    let mut broker = Broker::init().unwrap();
    reg.replace("broker_process".to_string(), 11);
    reg.replace("broker_client".to_string(), 12);
    let client = BrokerClient::init("broker_client".to_string(), vec!["news".to_string()], &reg)
        .unwrap();
    for msg in client.subscription_requests() {
        broker.handle(msg, &reg);
    }

    // a subsequent publish reaches the new client
    let eff = broker.handle(
        BrokerMessage::Publish { topic: "news".to_string(), message: "back".to_string() },
        &reg,
    );
    assert_eq!(eff.deliveries.len(), 1);
    assert_eq!(eff.deliveries[0].subscriber, "broker_client");
    assert_eq!(eff.deliveries[0].handle, 12);
}

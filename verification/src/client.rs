use vstd::prelude::*;
use vstd::string::StringExecFns;

use crate::errors::ActorError;
use crate::messages::{BrokerMessage, BrokerMessageView, ClientMessage, ClientMessageView};
use crate::registry::Registry;

verus! {

/// The template client actor: on `init` it resolves the broker by its
/// registered name and subscribes to the topics in its startup argument, and
/// it renders each received `Notification` to one line for its sink.
pub struct BrokerClient {
    /// The name this client is registered under; its subscriptions carry it.
    pub name: String,
    /// The topics the client asks the broker for at startup.
    pub topics: Vec<String>,
}

impl BrokerClient {
    /// The client's `init`: it takes its name and initial topic set (both
    /// part of the startup argument) and resolves the broker by its
    /// registered name, `"broker_process"`. When no broker is registered the
    /// client cannot start: its starter observes a `StartupError` and no
    /// subscription is made.
    pub fn init(name: String, topics: Vec<String>, registry: &Registry) -> (r: Result<
        BrokerClient,
        ActorError,
    >)
        requires
            registry.wf(),
        ensures
            r is Ok <==> registry.contains_name("broker_process"@),
            r matches Ok(c) ==> c.name@ == name@ && c.topics@ == topics@,
            r is Err ==> r == Err::<BrokerClient, ActorError>(ActorError::StartupError),
    {
        let broker_name: String = "broker_process".to_owned();
        match registry.lookup(&broker_name) {
            Ok(_) => Ok(BrokerClient { name, topics }),
            Err(_) => Err(ActorError::StartupError),
        }
    }

    /// The `Subscribe` messages this client sends to the broker during
    /// `init`: one per topic of interest, in order, each carrying the
    /// client's own registered name.
    pub fn subscription_requests(&self) -> (out: Vec<BrokerMessage>)
        ensures
            out@.len() == self.topics@.len(),
            forall|i: int|
                0 <= i < out@.len() ==> out@[i]@ == (BrokerMessageView::Subscribe {
                    topic: self.topics@[i]@,
                    subscriber: self.name@,
                }),
    {
        let mut out: Vec<BrokerMessage> = Vec::new();
        let n = self.topics.len();
        let mut i: usize = 0;
        while i < n
            invariant
                n == self.topics@.len(),
                i <= n,
                out@.len() == i,
                forall|k: int|
                    0 <= k < i ==> out@[k]@ == (BrokerMessageView::Subscribe {
                        topic: self.topics@[k]@,
                        subscriber: self.name@,
                    }),
            decreases n - i,
        {
            out.push(
                BrokerMessage::Subscribe {
                    topic: self.topics[i].clone(),
                    subscriber: self.name.clone(),
                },
            );
            i = i + 1;
        }
        out
    }

    /// The client's handler: renders one `Notification` to the line its sink
    /// prints.
    pub fn handle(&self, msg: &ClientMessage) -> (line: String)
        ensures
            msg@ matches ClientMessageView::Notification { topic, message } ==> line@
                == "Notification - Topic: "@ + topic + ", Message: "@ + message,
    {
        match msg {
            ClientMessage::Notification { topic, message } => {
                let mut line = String::new();
                line.append("Notification - Topic: ");
                line.append(topic.as_str());
                line.append(", Message: ");
                line.append(message.as_str());
                proof {
                    assert(line@ =~= "Notification - Topic: "@ + topic@ + ", Message: "@
                        + message@);
                }
                line
            },
        }
    }
}

} // verus!

use vstd::prelude::*;

verus! {

/// Mathematical model of a [`BrokerMessage`]: the same tagged union with every
/// string replaced by its character sequence.
pub enum BrokerMessageView {
    Subscribe { topic: Seq<char>, subscriber: Seq<char> },
    Unsubscribe { topic: Seq<char>, subscriber: Seq<char> },
    Publish { topic: Seq<char>, message: Seq<char> },
    InternalMessage { topic: Seq<char>, message: Seq<char> },
    Notify(Seq<char>),
}

/// The tagged union of messages the broker actor accepts.
#[derive(Clone, Debug)]
pub enum BrokerMessage {
    /// Insert `subscriber` into the subscriber set of `topic`; idempotent.
    Subscribe { topic: String, subscriber: String },
    /// Deliver `message` to every subscriber of `topic`.
    Publish { topic: String, message: String },
    /// Diagnostic channel; side effect only, no dispatch.
    InternalMessage { topic: String, message: String },
    /// Diagnostic; the broker logs the text.
    Notify(String),
    /// Remove `subscriber` from the subscriber set of `topic`; no error if absent.
    Unsubscribe { topic: String, subscriber: String },
}

impl View for BrokerMessage {
    type V = BrokerMessageView;

    open spec fn view(&self) -> BrokerMessageView {
        match self {
            BrokerMessage::Subscribe { topic, subscriber } => BrokerMessageView::Subscribe {
                topic: topic@,
                subscriber: subscriber@,
            },
            BrokerMessage::Publish { topic, message } => BrokerMessageView::Publish {
                topic: topic@,
                message: message@,
            },
            BrokerMessage::InternalMessage { topic, message } => BrokerMessageView::InternalMessage {
                topic: topic@,
                message: message@,
            },
            BrokerMessage::Notify(text) => BrokerMessageView::Notify(text@),
            BrokerMessage::Unsubscribe { topic, subscriber } => BrokerMessageView::Unsubscribe {
                topic: topic@,
                subscriber: subscriber@,
            },
        }
    }
}

/// Mathematical model of a [`ClientMessage`].
pub enum ClientMessageView {
    Notification { topic: Seq<char>, message: Seq<char> },
}

/// The tagged union of messages a broker client accepts.
#[derive(Clone, Debug)]
pub enum ClientMessage {
    /// A published message forwarded by the broker.
    Notification { topic: String, message: String },
}

impl View for ClientMessage {
    type V = ClientMessageView;

    open spec fn view(&self) -> ClientMessageView {
        match self {
            ClientMessage::Notification { topic, message } => ClientMessageView::Notification {
                topic: topic@,
                message: message@,
            },
        }
    }
}

} // verus!

use vstd::prelude::*;

verus! {

/// The failure kinds that the mailbox, registry, runtime, broker and
/// supervisor report.
#[derive(Clone, Copy, Debug, PartialEq, Eq, Structural)]
pub enum ActorError {
    /// An actor's `init` rejected its startup argument.
    StartupError,
    /// A second actor was started under a name that is still live.
    NameTaken,
    /// A looked-up name has no registered actor.
    NotRegistered,
    /// A send went through a handle whose actor has terminated.
    NoSuchActor,
    /// A non-blocking enqueue found the target mailbox at capacity.
    MailboxFull,
    /// The receive side could not decode a frame; the message is dropped.
    MalformedMessage,
    /// An uncaught failure inside a handler; the actor moves to `Terminating`.
    HandlerPanic,
    /// The restart budget was exceeded; the supervisor itself terminates.
    SupervisorEscalation,
}

} // verus!

use vstd::prelude::*;

use crate::errors::ActorError;

verus! {

/// The lifecycle of one actor, as the runtime drives it:
/// `Initializing -> Running -> Terminating -> Terminated` (with a failed
/// `init` jumping straight to `Terminated`).
#[derive(Clone, Copy, Debug, PartialEq, Eq, Structural)]
pub enum LifecycleState {
    Initializing,
    Running,
    Terminating,
    Terminated,
}

/// How one handler invocation ended.
#[derive(Clone, Copy, Debug, PartialEq, Eq, Structural)]
pub enum HandlerOutcome {
    /// The handler returned; the actor keeps running.
    Continue,
    /// The handler asked for self-termination (or the shutdown sentinel was
    /// dequeued); the actor moves to `Terminating`.
    Stop,
    /// The handler panicked; the actor moves to `Terminating` with a failure
    /// reason, and the supervisor applies its strategy.
    Panicked,
}

/// The runtime's book-keeping for one actor: its lifecycle state, how many
/// handler invocations are in progress, and how often `terminate` ran.
///
/// Handling is cooperative and serialized: the runtime dispatches a message
/// only when no handler is in progress, so at most one invocation per actor
/// is ever live, and no handler observes partial state of another.
pub struct ActorRuntime {
    state: LifecycleState,
    handlers_in_progress: u64,
    terminate_calls: u64,
}

impl ActorRuntime {
    /// The current lifecycle state.
    pub closed spec fn spec_state(&self) -> LifecycleState {
        self.state
    }

    /// How many handler invocations are in progress right now.
    pub closed spec fn spec_handlers_in_progress(&self) -> nat {
        self.handlers_in_progress as nat
    }

    /// How often `terminate` has been invoked.
    pub closed spec fn spec_terminate_calls(&self) -> nat {
        self.terminate_calls as nat
    }

    /// The runtime invariant: handlers run only in `Running`, one at a time,
    /// and `terminate` runs at most once, only on the way to `Terminated`.
    pub open spec fn wf(&self) -> bool {
        &&& self.spec_handlers_in_progress() <= 1
        &&& self.spec_handlers_in_progress() > 0 ==> self.spec_state() is Running
        &&& self.spec_terminate_calls() <= 1
        &&& self.spec_terminate_calls() == 1 ==> self.spec_state() is Terminated
    }

    /// A freshly spawned actor, about to run `init`.
    pub fn start() -> (r: ActorRuntime)
        ensures
            r.wf(),
            r.spec_state() is Initializing,
            r.spec_handlers_in_progress() == 0,
            r.spec_terminate_calls() == 0,
    {
        ActorRuntime { state: LifecycleState::Initializing, handlers_in_progress: 0, terminate_calls: 0 }
    }

    /// Records how `init` went: on success the actor starts running; on a
    /// `StartupError` it goes straight to `Terminated` (the starter observes
    /// the failure) and `terminate` is never invoked for it.
    pub fn finish_init(&mut self, ok: bool)
        requires
            old(self).wf(),
            old(self).spec_state() is Initializing,
        ensures
            final(self).wf(),
            ok ==> final(self).spec_state() is Running,
            !ok ==> final(self).spec_state() is Terminated,
            final(self).spec_handlers_in_progress() == 0,
            final(self).spec_terminate_calls() == old(self).spec_terminate_calls(),
    {
        if ok {
            self.state = LifecycleState::Running;
        } else {
            self.state = LifecycleState::Terminated;
        }
    }

    /// Dispatches a dequeued message to the handler. The runtime only does
    /// this while the actor runs and no other invocation is in progress:
    /// handling within one actor is strictly serialized.
    pub fn begin_handler(&mut self)
        requires
            old(self).wf(),
            old(self).spec_state() is Running,
            old(self).spec_handlers_in_progress() == 0,
        ensures
            final(self).wf(),
            final(self).spec_state() is Running,
            final(self).spec_handlers_in_progress() == 1,
            final(self).spec_terminate_calls() == old(self).spec_terminate_calls(),
    {
        self.handlers_in_progress = 1;
    }

    /// Records that the handler invocation ended. A normal return keeps the
    /// actor running; a stop request or a panic moves it to `Terminating`.
    pub fn finish_handler(&mut self, outcome: HandlerOutcome)
        requires
            old(self).wf(),
            old(self).spec_state() is Running,
            old(self).spec_handlers_in_progress() == 1,
        ensures
            final(self).wf(),
            final(self).spec_handlers_in_progress() == 0,
            outcome is Continue ==> final(self).spec_state() is Running,
            !(outcome is Continue) ==> final(self).spec_state() is Terminating,
            final(self).spec_terminate_calls() == old(self).spec_terminate_calls(),
    {
        self.handlers_in_progress = 0;
        match outcome {
            HandlerOutcome::Continue => {},
            HandlerOutcome::Stop => {
                self.state = LifecycleState::Terminating;
            },
            HandlerOutcome::Panicked => {
                self.state = LifecycleState::Terminating;
            },
        }
    }

    /// Runs the `terminate` callback: exactly once, after the actor reached
    /// `Terminating`. Afterwards the actor is `Terminated`, its registry
    /// entry is to be removed and its mailbox drained; its handle is
    /// permanently invalid.
    pub fn run_terminate(&mut self)
        requires
            old(self).wf(),
            old(self).spec_state() is Terminating,
            old(self).spec_terminate_calls() == 0,
        ensures
            final(self).wf(),
            final(self).spec_state() is Terminated,
            final(self).spec_terminate_calls() == 1,
            final(self).spec_handlers_in_progress() == 0,
    {
        self.terminate_calls = 1;
        self.state = LifecycleState::Terminated;
    }

    /// Gate for a send through a handle to this actor: once the actor is
    /// `Terminated` (and not restarted under the same name) the handle is
    /// stale and the send fails with `NoSuchActor`.
    pub fn check_send(&self) -> (r: Result<(), ActorError>)
        ensures
            r is Ok <==> !(self.spec_state() is Terminated),
            r is Err ==> r == Err::<(), ActorError>(ActorError::NoSuchActor),
    {
        if self.is_live() {
            Ok(())
        } else {
            Err(ActorError::NoSuchActor)
        }
    }

    /// Whether a send through a handle to this actor can still be enqueued.
    pub fn is_live(&self) -> (b: bool)
        ensures
            b == !(self.spec_state() is Terminated),
    {
        match self.state {
            LifecycleState::Terminated => false,
            LifecycleState::Initializing => true,
            LifecycleState::Running => true,
            LifecycleState::Terminating => true,
        }
    }
}

/// Law: at most one handler invocation is in progress on any actor at any
/// instant. Every transition of [`ActorRuntime`] preserves `wf`, and `wf`
/// bounds the count by one; `begin_handler` moreover demands the count be
/// zero, so invocations on one actor never overlap.
pub proof fn lemma_single_handler(r: ActorRuntime)
    requires
        r.wf(),
    ensures
        r.spec_handlers_in_progress() <= 1,
{
}

} // verus!

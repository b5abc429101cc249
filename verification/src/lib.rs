//! An in-process publish/subscribe message broker built around supervised,
//! isolated actors.
//!
//! Actors communicate only by message passing: each actor owns a bounded FIFO
//! [`mailbox::Mailbox`], may be registered under a unique name in the
//! [`registry::Registry`], and is driven through the lifecycle modeled by
//! [`runtime::ActorRuntime`]. The [`broker::Broker`] actor keeps a
//! topic-to-subscriber-set table and fans published messages out to the
//! subscribed clients; a supervisor restarts groups of children according to a
//! declared [`supervisor::SupervisorStrategy`].
//!
//! The binary serialization codec, the logging sink and the scheduler that
//! actually runs the actors are external collaborators: the functions here
//! compute states, dispatch decisions and restart plans from plain values, and
//! the surrounding program performs the sends and the printing.

pub mod broker;
pub mod client;
pub mod errors;
pub mod mailbox;
pub mod messages;
pub mod registry;
pub mod runtime;
pub mod supervisor;

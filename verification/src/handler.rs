//! The traits an application implements to define actors and the messages they handle.

use std::fmt::Debug;
use vstd::prelude::*;

verus! {

/// The base trait of every message an actor can receive; implemented for every suitable
/// type.
pub trait Message: Send + Sync + Debug + 'static {

}

impl<T> Message for T where T: Send + Sync + Debug + 'static {

}

/// How an actor processes messages of type `M`.
pub trait Handler<M> {
    /// The type of the reply; `()` when nothing is sent back.
    type Reply: Message;

    /// Handles `message`, optionally producing a reply to broadcast.
    fn handle(&mut self, message: &M) -> Option<Self::Reply>;
}

/// The behavior and state transitions of an actor.
pub trait LifeCycle: Send + Sync + 'static {
    /// The message broadcast when the actor starts.
    type StartMessage: Message + Debug;
    /// The message broadcast when the actor stops.
    type StopMessage: Message + Debug;
    /// A snapshot of the actor's state, for observation and testing.
    type Snapshot: Send + Sync + Clone + Debug + 'static;

    /// Called when the actor starts.
    fn on_start(&mut self) -> Self::StartMessage;

    /// Called when the actor stops.
    fn on_stop(&mut self) -> Self::StopMessage;

    /// The current snapshot.
    fn snapshot(&self) -> Self::Snapshot;

    /// Whether the actor wants to stop itself; by default it never does.
    fn should_stop(&self) -> (b: bool)
        default_ensures
            b == false,
    {
        false
    }
}

/// Shared state that agents read and update.
pub trait Environment: Sized + Send + Sync + 'static {
    type State;
    type Update: Send + Sync + 'static;

    fn new() -> Self;

    fn get_state(&self) -> Self::State;

    fn update_state(&mut self, update: Self::Update);
}

impl Environment for () {
    type State = ();
    type Update = ();

    fn new() -> Self {
    }

    fn get_state(&self) -> Self::State {
    }

    fn update_state(&mut self, update: Self::Update) {
    }
}

} // verus!

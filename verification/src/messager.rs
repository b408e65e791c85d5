//! Plain messages exchanged between agents of a world.

use vstd::prelude::*;

verus! {

/// The recipient of a [`Message`].
#[derive(Clone, Debug, PartialEq, Eq)]
pub enum To {
    /// Every agent listening for broadcasts.
    All,
    /// The agent with this identifier.
    Agent(String),
}

/// A message sent between agents; its data is usually a JSON-serialized value.
#[derive(Clone, Debug)]
pub struct Message {
    pub from: String,
    pub to: To,
    pub data: String,
}

/// The addressing half of a [`Message`].
#[derive(Clone, Debug, PartialEq, Eq)]
pub struct MessageTo {
    pub to: To,
    pub data: String,
}

/// The sender half of a [`Message`].
#[derive(Clone, Debug, PartialEq, Eq)]
pub struct MessageFrom {
    pub from: String,
    pub data: String,
}

/// Whether a behavior keeps processing events after the current one.
#[derive(Clone, Copy, Debug, PartialEq, Eq)]
pub enum ControlFlow {
    /// Stop processing.
    Halt,
    /// Go on with the next event.
    Continue,
}

} // verus!

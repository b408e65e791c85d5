//! The decisions of an actor's processing loop: how it answers control instructions and
//! when it handles, or stops after, application messages.

use vstd::prelude::*;

verus! {

/// The execution state of an actor.
#[derive(Debug, Clone, Copy, PartialEq, Eq)]
pub enum State {
    /// Not processing messages; a stopped actor's loop has ended or not yet started.
    Stopped,
    /// Routing and processing messages.
    Running,
    /// Alive but ignoring messages until started again.
    Paused,
}

/// Instructions sent to a running actor loop.
#[derive(Debug, Clone, Copy, PartialEq, Eq)]
pub enum ControlSignal {
    Start,
    Pause,
    Stop,
    GetState,
}

/// A lifecycle message the actor broadcasts on a transition.
#[derive(Debug, Clone, Copy, PartialEq, Eq)]
pub enum Announcement {
    /// The message produced by the actor's start hook.
    Started,
    /// The message produced by the actor's stop hook.
    Stopped,
}

/// What the loop does in one step.
#[derive(Debug, Clone, Copy, PartialEq, Eq)]
pub struct Step {
    /// The state afterwards.
    pub next: State,
    /// The state reported back on the control channel, if any.
    pub report: Option<State>,
    /// The lifecycle message to broadcast, if any.
    pub announce: Option<Announcement>,
    /// Whether the loop ends.
    pub exit: bool,
}

/// The step taken in `state` on control instruction `signal`, where `None` means the control
/// channel closed: start and pause switch state and report it (start also announces), stop
/// reports, announces and ends the loop, a state query reports the current state, and a
/// closed channel ends the loop silently.
pub open spec fn control_step(state: State, signal: Option<ControlSignal>) -> Step {
    match signal {
        Some(ControlSignal::Start) => Step {
            next: State::Running,
            report: Some(State::Running),
            announce: Some(Announcement::Started),
            exit: false,
        },
        Some(ControlSignal::Pause) => Step {
            next: State::Paused,
            report: Some(State::Paused),
            announce: None,
            exit: false,
        },
        Some(ControlSignal::Stop) => Step {
            next: State::Stopped,
            report: Some(State::Stopped),
            announce: Some(Announcement::Stopped),
            exit: true,
        },
        Some(ControlSignal::GetState) => Step {
            next: state,
            report: Some(state),
            announce: None,
            exit: false,
        },
        None => Step { next: state, report: None, announce: None, exit: true },
    }
}

/// The step after a handled message: an actor that asks to stop reports, announces and ends
/// the loop; otherwise it keeps running.
pub open spec fn handled_step(should_stop: bool) -> Step {
    if should_stop {
        Step {
            next: State::Stopped,
            report: Some(State::Stopped),
            announce: Some(Announcement::Stopped),
            exit: true,
        }
    } else {
        Step { next: State::Running, report: None, announce: None, exit: false }
    }
}

/// Decides the step for control instruction `signal` (see [`control_step`]).
pub fn on_control(state: State, signal: Option<ControlSignal>) -> (step: Step)
    ensures
        step == control_step(state, signal),
{
    match signal {
        Some(ControlSignal::Start) => Step {
            next: State::Running,
            report: Some(State::Running),
            announce: Some(Announcement::Started),
            exit: false,
        },
        Some(ControlSignal::Pause) => Step {
            next: State::Paused,
            report: Some(State::Paused),
            announce: None,
            exit: false,
        },
        Some(ControlSignal::Stop) => Step {
            next: State::Stopped,
            report: Some(State::Stopped),
            announce: Some(Announcement::Stopped),
            exit: true,
        },
        Some(ControlSignal::GetState) => Step {
            next: state,
            report: Some(state),
            announce: None,
            exit: false,
        },
        None => Step { next: state, report: None, announce: None, exit: true },
    }
}

/// Whether an actor in `state` takes application messages: only a running one does.
pub fn accepts_messages(state: State) -> (b: bool)
    ensures
        b == (state == State::Running),
{
    match state {
        State::Running => true,
        _ => false,
    }
}

/// Decides the step after a running actor handled a message (see [`handled_step`]).
pub fn after_handled(should_stop: bool) -> (step: Step)
    ensures
        step == handled_step(should_stop),
{
    if should_stop {
        Step {
            next: State::Stopped,
            report: Some(State::Stopped),
            announce: Some(Announcement::Stopped),
            exit: true,
        }
    } else {
        Step { next: State::Running, report: None, announce: None, exit: false }
    }
}

/// A state query neither changes the state nor ends the loop, and reports the state as it is.
pub proof fn law_state_query_is_pure(state: State)
    ensures
        control_step(state, Some(ControlSignal::GetState)).next == state,
        control_step(state, Some(ControlSignal::GetState)).report == Some(state),
        !control_step(state, Some(ControlSignal::GetState)).exit,
{
}

/// From any state, a stop instruction ends the loop in the stopped state, reports it, and
/// broadcasts the stop message.
pub proof fn law_stop_always_ends(state: State)
    ensures
        control_step(state, Some(ControlSignal::Stop)).exit,
        control_step(state, Some(ControlSignal::Stop)).next == State::Stopped,
        control_step(state, Some(ControlSignal::Stop)).report == Some(State::Stopped),
        control_step(state, Some(ControlSignal::Stop)).announce == Some(Announcement::Stopped),
{
}

/// After a start instruction, from any state, the actor takes messages, and a following
/// state query reports it running.
pub proof fn law_started_actor_runs(state: State)
    ensures
        control_step(state, Some(ControlSignal::Start)).next == State::Running,
        control_step(control_step(state, Some(ControlSignal::Start)).next, Some(ControlSignal::GetState)).report
            == Some(State::Running),
{
}

/// A paused actor takes no messages until started again, and a start resumes it.
pub proof fn law_pause_then_resume(state: State)
    ensures
        control_step(state, Some(ControlSignal::Pause)).next != State::Running,
        control_step(control_step(state, Some(ControlSignal::Pause)).next, Some(ControlSignal::Start)).next
            == State::Running,
{
}

/// Every instruction is answered with a report: a state query with the state the actor was
/// in, and a start, pause or stop with the state it leads to. Only a closed control channel
/// goes unanswered.
pub proof fn law_every_instruction_is_reported(state: State, signal: Option<ControlSignal>)
    ensures
        (control_step(state, signal).report is Some) == (signal is Some),
        signal == Some(ControlSignal::GetState) ==> control_step(state, signal).report == Some(state),
        signal is Some && signal != Some(ControlSignal::GetState) ==> control_step(state, signal).report
            == Some(control_step(state, signal).next),
{
}

/// A start instruction, from any state, runs the actor, reports it running, announces the
/// start and keeps the loop going.
pub proof fn law_start_from_any_state(state: State)
    ensures
        control_step(state, Some(ControlSignal::Start)) == (Step {
            next: State::Running,
            report: Some(State::Running),
            announce: Some(Announcement::Started),
            exit: false,
        }),
{
}

/// A pause instruction, from any state, pauses the actor, reports it paused, announces
/// nothing and keeps the loop going.
pub proof fn law_pause_from_any_state(state: State)
    ensures
        control_step(state, Some(ControlSignal::Pause)) == (Step {
            next: State::Paused,
            report: Some(State::Paused),
            announce: None,
            exit: false,
        }),
{
}

/// Every loop exit leaves the actor stopped, except when the control channel closed, which
/// leaves the state as it was and reports nothing.
pub proof fn law_exits_are_stops_or_closures(state: State, signal: Option<ControlSignal>, should_stop: bool)
    ensures
        control_step(state, signal).exit ==> (control_step(state, signal).next == State::Stopped
            || (signal is None && control_step(state, signal).report is None)),
        handled_step(should_stop).exit ==> handled_step(should_stop).next == State::Stopped,
{
}


/// What an agent's handler asked for after a message: a reply to broadcast, an update to the
/// shared environment, nothing, or to stop.
#[derive(Debug, Clone, Copy, PartialEq, Eq)]
pub enum HandleResultKind {
    Message,
    Update,
    Nothing,
    Stop,
}

/// What an agent's loop does after a handler returned.
#[derive(Debug, Clone, Copy, PartialEq, Eq)]
pub struct AgentStep {
    /// Broadcast the handler's reply.
    pub broadcast_reply: bool,
    /// Apply the handler's update to the shared environment.
    pub update_environment: bool,
    /// Send observers a snapshot of the agent.
    pub snapshot: bool,
    /// End the loop, without reporting a state or broadcasting a stop message.
    pub exit: bool,
}

/// The step after a handler result: a reply is broadcast, an update applied to the
/// environment, and in either case, as after a handler that asked for nothing, a snapshot is
/// sent; a handler that asks to stop ends the loop at once.
pub open spec fn handle_result_step(result: HandleResultKind) -> AgentStep {
    match result {
        HandleResultKind::Message => AgentStep { broadcast_reply: true, update_environment: false, snapshot: true, exit: false },
        HandleResultKind::Update => AgentStep { broadcast_reply: false, update_environment: true, snapshot: true, exit: false },
        HandleResultKind::Nothing => AgentStep { broadcast_reply: false, update_environment: false, snapshot: true, exit: false },
        HandleResultKind::Stop => AgentStep { broadcast_reply: false, update_environment: false, snapshot: false, exit: true },
    }
}

/// Decides the step after a handler result (see [`handle_result_step`]).
pub fn on_handle_result(result: HandleResultKind) -> (step: AgentStep)
    ensures
        step == handle_result_step(result),
{
    match result {
        HandleResultKind::Message => AgentStep { broadcast_reply: true, update_environment: false, snapshot: true, exit: false },
        HandleResultKind::Update => AgentStep { broadcast_reply: false, update_environment: true, snapshot: true, exit: false },
        HandleResultKind::Nothing => AgentStep { broadcast_reply: false, update_environment: false, snapshot: true, exit: false },
        HandleResultKind::Stop => AgentStep { broadcast_reply: false, update_environment: false, snapshot: false, exit: true },
    }
}

/// Only a handler that asks to stop ends the loop, and it does so silently; every other
/// result is followed by a snapshot.
pub proof fn law_only_stop_ends_agent_loop(result: HandleResultKind)
    ensures
        handle_result_step(result).exit <==> result == HandleResultKind::Stop,
        !handle_result_step(result).exit ==> handle_result_step(result).snapshot,
{
}

} // verus!

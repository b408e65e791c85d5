//! The synchronous agent model: agents that take messages by value and answer with a reply,
//! a container that takes one agent through its lifecycle, and a one-shot context.

use crate::letter::{distinct_kinds, find_kind, lemma_with_kind_distinct, type_key, with_kind, Letter};
use crate::lifecycle::{accepts_messages, control_step, on_control, ControlSignal, State};
use crate::routing::same_type;
use std::any::TypeId;
use std::marker::PhantomData;
use vstd::prelude::*;

verus! {

/// The hooks an agent runs on lifecycle transitions; each does nothing unless overridden.
pub trait LifeCycle {
    /// Runs when the agent starts.
    fn on_start(&mut self) {
    }

    /// Runs when the agent is paused.
    fn on_pause(&mut self) {
    }

    /// Runs when a paused agent resumes.
    fn on_resume(&mut self) {
    }

    /// Runs when the agent stops.
    fn on_stop(&mut self) {
    }
}

/// How an agent handles a message of type `M`: it takes the message by value and answers
/// with a reply. A reply of type `()` ends a chain of messages.
pub trait Handler<M> {
    /// The type of the reply.
    type Reply: 'static;

    /// Handles `message`.
    fn handle(&mut self, message: M) -> Self::Reply;
}

/// An agent's handlers, with their message types erased: a chain that hands a letter to the
/// first handler for its type. A letter is answered only when its type is among the types
/// the chain handles.
trait Route<A> {
    /// The identifiers of the message types the chain handles, newest registration first.
    spec fn kinds(&self) -> Seq<TypeId>;

    fn call(&self, agent: &mut A, letter: Letter) -> (r: Option<Letter>)
        ensures
            r is Some ==> self.kinds().contains(letter@),
    ;
}

/// The end of a chain of handlers: it handles nothing.
struct NoRoute;

impl<A> Route<A> for NoRoute {
    spec fn kinds(&self) -> Seq<TypeId> {
        Seq::empty()
    }

    fn call(&self, agent: &mut A, letter: Letter) -> (r: Option<Letter>)
        ensures
            r is None,
    {
        None
    }
}

/// `A`'s handler for messages of type `M`, in front of the handlers registered before it.
#[verifier::reject_recursive_types(A)]
struct Via<A, M> {
    kind: TypeId,
    next: Box<dyn Route<A>>,
    marker: PhantomData<M>,
}

impl<A: Handler<M>, M: 'static> Route<A> for Via<A, M> {
    spec fn kinds(&self) -> Seq<TypeId> {
        seq![self.kind] + self.next.kinds()
    }

    /// Hands a letter holding an `M` to the agent and returns its reply; passes any other
    /// letter down the chain.
    fn call(&self, agent: &mut A, letter: Letter) -> (r: Option<Letter>) {
        if same_type(&letter.kind(), &self.kind) {
            assert(self.kinds()[0] == self.kind);
            match letter.take::<M>() {
                Some(message) => Some(Letter::new(agent.handle(message))),
                None => None,
            }
        } else {
            let r = self.next.call(agent, letter);
            proof {
                if r is Some {
                    let i = choose|i: int| 0 <= i < self.next.kinds().len() && self.next.kinds()[i] == letter@;
                    assert(self.kinds()[i + 1] == letter@);
                }
            }
            r
        }
    }
}

/// A container that runs one agent: it tracks the agent's lifecycle state and the message
/// types the agent handles.
#[verifier::reject_recursive_types(A)]
pub struct Agent<A> {
    state: State,
    inner: A,
    kinds: Vec<TypeId>,
    routes: Box<dyn Route<A>>,
}

impl<A: 'static> Agent<A> {
    /// No handled message type is recorded twice.
    pub closed spec fn well_formed(&self) -> bool {
        distinct_kinds(self.kinds@)
    }

    /// The lifecycle state.
    pub closed spec fn current(&self) -> State {
        self.state
    }

    /// The identifiers of the message types handled, in registration order.
    pub closed spec fn handled_kinds(&self) -> Seq<TypeId> {
        self.kinds@
    }

    /// The agent inside.
    pub closed spec fn agent(&self) -> A {
        self.inner
    }

    /// Wraps `inner`, stopped and handling no message type.
    pub fn new(inner: A) -> (c: Agent<A>)
        ensures
            c.well_formed(),
            c.current() == State::Stopped,
            c.handled_kinds() == Seq::<TypeId>::empty(),
            c.agent() == inner,
    {
        Agent { state: State::Stopped, inner, kinds: Vec::new(), routes: Box::new(NoRoute) }
    }

    /// Makes the agent handle messages of type `M` with its `Handler<M>`; registering a type
    /// again replaces its handler.
    pub fn with_handler<M: 'static>(&mut self) where A: Handler<M>
        requires
            old(self).well_formed(),
        ensures
            final(self).well_formed(),
            exists|k: TypeId| final(self).handled_kinds() == with_kind(old(self).handled_kinds(), k),
            final(self).current() == old(self).current(),
            final(self).agent() == old(self).agent(),
    {
        let kind = type_key::<M>();
        let mut previous: Box<dyn Route<A>> = Box::new(NoRoute);
        std::mem::swap(&mut previous, &mut self.routes);
        self.routes = Box::new(Via::<A, M> { kind, next: previous, marker: PhantomData });
        proof {
            lemma_with_kind_distinct(self.kinds@, kind);
        }
        if find_kind(&self.kinds, &kind).is_none() {
            self.kinds.push(kind);
        }
        assert(self.handled_kinds() == with_kind(old(self).handled_kinds(), kind));
    }

    /// Hands `message` to the agent's handler for its type and returns the reply. Nothing is
    /// handled, and `None` returned, while the agent is paused or when it has no handler for
    /// the type; the lifecycle state and the handled types never change.
    pub fn handle_message<M: 'static>(&mut self, message: M) -> (r: Option<Letter>)
        requires
            old(self).well_formed(),
        ensures
            final(self).well_formed(),
            final(self).current() == old(self).current(),
            final(self).handled_kinds() == old(self).handled_kinds(),
            old(self).current() == State::Paused ==> r is None && final(self).agent() == old(
                self,
            ).agent(),
            old(self).handled_kinds().len() == 0 ==> r is None && final(self).agent() == old(
                self,
            ).agent(),
    {
        if let State::Paused = self.state {
            return None;
        }
        let kind = type_key::<M>();
        match find_kind(&self.kinds, &kind) {
            Some(i) => self.routes.call(&mut self.inner, Letter::new(message)),
            None => None,
        }
    }

    /// The lifecycle state.
    pub fn state(&self) -> (s: &State)
        ensures
            *s == self.current(),
    {
        &self.state
    }

    /// Whether the agent is running, the one state in which it is active.
    pub fn is_active(&self) -> (b: bool)
        ensures
            b == (self.current() == State::Running),
    {
        accepts_messages(self.state)
    }

    /// The agent inside.
    pub fn inner(&self) -> (a: &A)
        ensures
            *a == self.agent(),
    {
        &self.inner
    }
}

impl<A: LifeCycle + 'static> Agent<A> {
    /// Starts the agent, whatever its state, and runs its start hook.
    pub fn start(&mut self)
        requires
            old(self).well_formed(),
        ensures
            final(self).well_formed(),
            final(self).current() == control_step(old(self).current(), Some(ControlSignal::Start)).next,
            final(self).current() == State::Running,
            final(self).handled_kinds() == old(self).handled_kinds(),
    {
        let step = on_control(self.state, Some(ControlSignal::Start));
        self.state = step.next;
        self.inner.on_start();
    }

    /// Pauses the agent, whatever its state, and runs its pause hook.
    pub fn pause(&mut self)
        requires
            old(self).well_formed(),
        ensures
            final(self).well_formed(),
            final(self).current() == control_step(old(self).current(), Some(ControlSignal::Pause)).next,
            final(self).current() == State::Paused,
            final(self).handled_kinds() == old(self).handled_kinds(),
    {
        let step = on_control(self.state, Some(ControlSignal::Pause));
        self.state = step.next;
        self.inner.on_pause();
    }

    /// Resumes the agent, whatever its state, and runs its resume hook.
    pub fn resume(&mut self)
        requires
            old(self).well_formed(),
        ensures
            final(self).well_formed(),
            final(self).current() == State::Running,
            final(self).handled_kinds() == old(self).handled_kinds(),
    {
        self.state = State::Running;
        self.inner.on_resume();
    }

    /// Stops the agent, whatever its state, and runs its stop hook.
    pub fn stop(&mut self)
        requires
            old(self).well_formed(),
        ensures
            final(self).well_formed(),
            final(self).current() == control_step(old(self).current(), Some(ControlSignal::Stop)).next,
            final(self).current() == State::Stopped,
            final(self).handled_kinds() == old(self).handled_kinds(),
    {
        let step = on_control(self.state, Some(ControlSignal::Stop));
        self.state = step.next;
        self.inner.on_stop();
    }
}

/// An agent used for one message: the context owns the agent and hands it a message.
pub struct Context<A> {
    agent: A,
}

impl<A> Context<A> {
    /// The agent inside.
    pub closed spec fn agent(&self) -> A {
        self.agent
    }

    /// A context around `agent`.
    pub fn new(agent: A) -> (c: Context<A>)
        ensures
            c.agent() == agent,
    {
        Context { agent }
    }

    /// Hands `message` to the agent's `Handler<M>` and returns its reply.
    pub fn handle_with<M>(self, message: M) -> A::Reply where A: Handler<M> {
        let mut agent = self.agent;
        agent.handle(message)
    }
}

} // verus!

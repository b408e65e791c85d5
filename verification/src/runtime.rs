//! A single-threaded runtime for the synchronous agent model: agents register as handlers of
//! message types, messages wait in one queue, and each reply other than `()` joins the queue
//! in turn, so that a message can travel down a pipeline of agents.

use crate::agent::Handler;
use crate::routing::same_type;
use crate::letter::{distinct_kinds, find_kind, lemma_with_kind_distinct, type_key, with_kind, Letter};
use std::any::TypeId;
use std::collections::VecDeque;
use std::marker::PhantomData;
use vstd::prelude::*;

verus! {

/// How many messages a run processes at most, unless the runtime was built with another
/// limit.
pub const DEFAULT_MAX_ITERATIONS: usize = 1000;

/// The registered handlers, with their types erased: a chain that hands a letter to the
/// handler for its type and returns the reply to route on; a reply of type `()`, identified
/// by `unit`, is never routed on.
trait Dispatch {
    /// The types of the letters handed to the chain so far, in order.
    spec fn received(&self) -> Seq<TypeId>;

    /// The chain's answers so far, one per letter received, in order: the type of the reply
    /// it returned, or `None` when it returned none.
    spec fn answered(&self) -> Seq<Option<TypeId>>;

    fn deliver(&mut self, letter: Letter, unit: &TypeId) -> (r: Option<Letter>)
        ensures
            final(self).received() == old(self).received().push(letter@),
            final(self).answered() == old(self).answered().push(answer_kind(r)),
            r matches Some(reply) ==> reply@ != *unit,
    ;
}

/// The type of the reply in an answer of the handler chain, if there is one.
pub open spec fn answer_kind(r: Option<Letter>) -> Option<TypeId> {
    match r {
        Some(reply) => Some(reply@),
        None => None,
    }
}

/// The types of the replies among `answers`, in order.
pub open spec fn replies_of(answers: Seq<Option<TypeId>>) -> Seq<TypeId>
    decreases answers.len(),
{
    if answers.len() == 0 {
        Seq::empty()
    } else {
        match answers.last() {
            Some(kind) => replies_of(answers.drop_last()).push(kind),
            None => replies_of(answers.drop_last()),
        }
    }
}

/// The end of the chain: nothing handles the letter.
struct Unrouted {
    received: Ghost<Seq<TypeId>>,
    answered: Ghost<Seq<Option<TypeId>>>,
}

impl Dispatch for Unrouted {
    closed spec fn received(&self) -> Seq<TypeId> {
        self.received@
    }

    closed spec fn answered(&self) -> Seq<Option<TypeId>> {
        self.answered@
    }

    fn deliver(&mut self, letter: Letter, unit: &TypeId) -> (r: Option<Letter>)
        ensures
            r is None,
    {
        proof {
            self.received@ = self.received@.push(letter@);
            self.answered@ = self.answered@.push(None);
        }
        None
    }
}

/// An agent registered as the handler of messages of type `M`, in front of the handlers
/// registered before it.
#[verifier::reject_recursive_types(A)]
struct Registered<A, M> {
    agent: A,
    next: Box<dyn Dispatch>,
    marker: PhantomData<M>,
    received: Ghost<Seq<TypeId>>,
    answered: Ghost<Seq<Option<TypeId>>>,
}

impl<A: Handler<M>, M: 'static> Dispatch for Registered<A, M> {
    closed spec fn received(&self) -> Seq<TypeId> {
        self.received@
    }

    closed spec fn answered(&self) -> Seq<Option<TypeId>> {
        self.answered@
    }

    /// Hands a letter holding an `M` to the agent and returns its reply, unless the reply is
    /// `()`, which ends the chain of messages; passes any other letter down the chain.
    fn deliver(&mut self, letter: Letter, unit: &TypeId) -> (r: Option<Letter>) {
        proof {
            self.received@ = self.received@.push(letter@);
        }
        let answer = if letter.is::<M>() {
            match letter.take::<M>() {
                Some(message) => {
                    let reply = Letter::new(self.agent.handle(message));
                    if same_type(&reply.kind(), unit) {
                        None
                    } else {
                        Some(reply)
                    }
                },
                None => None,
            }
        } else {
            self.next.deliver(letter, unit)
        };
        proof {
            self.answered@ = self.answered@.push(answer_kind(answer));
        }
        answer
    }
}

/// The identifiers of the types of the letters in `letters`, in order.
pub open spec fn kinds_of(letters: Seq<Letter>) -> Seq<TypeId> {
    letters.map_values(|l: Letter| l@)
}

/// The runtime: the registered handlers, the queue of messages waiting to be handled, and how
/// many messages one run processes at most.
pub struct Runtime {
    kinds: Vec<TypeId>,
    handlers: Box<dyn Dispatch>,
    queue: VecDeque<Letter>,
    max_iterations: usize,
    unit: TypeId,
    taken: Ghost<Seq<TypeId>>,
    replied: Ghost<Seq<TypeId>>,
}

impl Runtime {
    /// No message type has two handlers.
    pub closed spec fn well_formed(&self) -> bool {
        distinct_kinds(self.kinds@)
    }

    /// The identifiers of the message types that have a handler, in registration order.
    pub closed spec fn handled_kinds(&self) -> Seq<TypeId> {
        self.kinds@
    }

    /// The identifiers of the types of the queued messages, oldest first.
    pub closed spec fn pending(&self) -> Seq<TypeId> {
        kinds_of(self.queue@)
    }

    /// How many messages a run processes at most.
    pub closed spec fn iteration_limit(&self) -> usize {
        self.max_iterations
    }

    /// The identifier of the type `()`, whose replies end a chain of messages.
    pub closed spec fn unit_kind(&self) -> TypeId {
        self.unit
    }

    /// The types of all messages taken from the queue so far, in order.
    pub closed spec fn taken_log(&self) -> Seq<TypeId> {
        self.taken@
    }

    /// The types of all messages handed to a handler so far, in order.
    pub closed spec fn delivered_log(&self) -> Seq<TypeId> {
        self.handlers.received()
    }

    /// The handler chain's answers so far, one per message handed to it, in order: the type
    /// of the reply it returned, or `None`.
    pub closed spec fn answer_log(&self) -> Seq<Option<TypeId>> {
        self.handlers.answered()
    }

    /// The types of all replies queued so far, in order.
    pub closed spec fn replied_log(&self) -> Seq<TypeId> {
        self.replied@
    }

    /// A runtime with no handler, an empty queue and the default iteration limit.
    pub fn new() -> (r: Runtime)
        ensures
            r.well_formed(),
            r.handled_kinds() == Seq::<TypeId>::empty(),
            r.pending() == Seq::<TypeId>::empty(),
            r.iteration_limit() == DEFAULT_MAX_ITERATIONS,
    {
        let r = Runtime {
            kinds: Vec::new(),
            handlers: Box::new(Unrouted { received: Ghost(Seq::empty()), answered: Ghost(Seq::empty()) }),
            queue: VecDeque::new(),
            max_iterations: DEFAULT_MAX_ITERATIONS,
            unit: type_key::<()>(),
            taken: Ghost(Seq::empty()),
            replied: Ghost(Seq::empty()),
        };
        assert(r.pending() =~= Seq::<TypeId>::empty());
        r
    }

    /// The same runtime, processing at most `max` messages per run.
    pub fn with_max_iterations(self, max: usize) -> (r: Runtime)
        requires
            self.well_formed(),
        ensures
            r.well_formed(),
            r.iteration_limit() == max,
            r.handled_kinds() == self.handled_kinds(),
            r.pending() == self.pending(),
    {
        Runtime { max_iterations: max, ..self }
    }

    /// Registers `agent` as the handler of messages of type `M`; a later registration for the
    /// same type replaces it.
    pub fn register_handler<A: Handler<M> + 'static, M: 'static>(&mut self, agent: A)
        requires
            old(self).well_formed(),
        ensures
            final(self).well_formed(),
            exists|k: TypeId| final(self).handled_kinds() == with_kind(old(self).handled_kinds(), k),
            final(self).pending() == old(self).pending(),
            final(self).iteration_limit() == old(self).iteration_limit(),
    {
        let kind = type_key::<M>();
        let mut previous: Box<dyn Dispatch> = Box::new(
            Unrouted { received: Ghost(Seq::empty()), answered: Ghost(Seq::empty()) },
        );
        std::mem::swap(&mut previous, &mut self.handlers);
        let ghost log = previous.received();
        let ghost answers = previous.answered();
        self.handlers = Box::new(
            Registered::<A, M> {
                agent,
                next: previous,
                marker: PhantomData,
                received: Ghost(log),
                answered: Ghost(answers),
            },
        );
        proof {
            lemma_with_kind_distinct(self.kinds@, kind);
        }
        if find_kind(&self.kinds, &kind).is_none() {
            self.kinds.push(kind);
        }
        assert(self.handled_kinds() == with_kind(old(self).handled_kinds(), kind));
    }

    /// Puts `message` at the back of the queue.
    pub fn send_message<M: 'static>(&mut self, message: M)
        requires
            old(self).well_formed(),
        ensures
            final(self).well_formed(),
            exists|k: TypeId| final(self).pending() == old(self).pending().push(k),
            final(self).handled_kinds() == old(self).handled_kinds(),
            final(self).iteration_limit() == old(self).iteration_limit(),
            final(self).unit_kind() == old(self).unit_kind(),
            final(self).taken_log() == old(self).taken_log(),
            final(self).delivered_log() == old(self).delivered_log(),
            final(self).replied_log() == old(self).replied_log(),
            final(self).answer_log() == old(self).answer_log(),
    {
        let letter = Letter::new(message);
        self.queue.push_back(letter);
        assert(self.pending() =~= old(self).pending().push(letter@));
    }

    /// How many messages wait in the queue.
    pub fn queue_length(&self) -> (n: usize)
        ensures
            n == self.pending().len(),
    {
        self.queue.len()
    }

    /// Whether no message waits in the queue.
    pub fn is_idle(&self) -> (b: bool)
        ensures
            b == (self.pending().len() == 0),
    {
        self.queue.len() == 0
    }

    /// Processes queued messages, oldest first, until the queue is empty or the iteration
    /// limit is reached, and returns how many it processed. Each message goes to the handler
    /// of its type, if there is one, and a reply other than `()` joins the back of the queue;
    /// a message of a type without a handler is dropped.
    pub fn run(&mut self) -> (n: usize)
        requires
            old(self).well_formed(),
        ensures
            final(self).well_formed(),
            final(self).handled_kinds() == old(self).handled_kinds(),
            final(self).iteration_limit() == old(self).iteration_limit(),
            n <= old(self).iteration_limit(),
            n < old(self).iteration_limit() ==> final(self).pending().len() == 0,
            n >= old(self).pending().len() || n == old(self).iteration_limit(),
            final(self).pending().len() <= old(self).pending().len(),
            unhandled(old(self).pending(), old(self).handled_kinds()) ==> final(self).pending()
                == old(self).pending().skip(n as int),
            final(self).unit_kind() == old(self).unit_kind(),
            ran(*old(self), *final(self), n),
    {
        let ghost start = self.pending();
        let ghost taken0 = self.taken@;
        let ghost delivered0 = self.handlers.received();
        let ghost replied0 = self.replied@;
        let ghost answers0 = self.handlers.answered();
        let mut n: usize = 0;
        proof {
            assert(taken0.skip(taken0.len() as int) =~= Seq::<TypeId>::empty());
            assert(delivered0.skip(delivered0.len() as int) =~= Seq::<TypeId>::empty());
            assert(replied0.skip(replied0.len() as int) =~= Seq::<TypeId>::empty());
            assert(taken0.take(taken0.len() as int) =~= taken0);
            assert(delivered0.take(delivered0.len() as int) =~= delivered0);
            assert(replied0.take(replied0.len() as int) =~= replied0);
            assert(answers0.skip(answers0.len() as int) =~= Seq::<Option<TypeId>>::empty());
            assert(answers0.take(answers0.len() as int) =~= answers0);
            assert(start + Seq::<TypeId>::empty() =~= Seq::<TypeId>::empty() + start);
        }
        while n < self.max_iterations
            invariant
                self.well_formed(),
                self.kinds@ == old(self).kinds@,
                self.max_iterations == old(self).max_iterations,
                start == old(self).pending(),
                n <= self.max_iterations,
                self.pending().len() <= start.len(),
                self.pending().len() + n >= start.len(),
                unhandled(start, self.kinds@) ==> n <= start.len() && self.pending() == start.skip(
                    n as int,
                ),
                self.unit == old(self).unit,
                taken0 == old(self).taken@,
                delivered0 == old(self).delivered_log(),
                replied0 == old(self).replied@,
                answers0 == old(self).answer_log(),
                ran(*old(self), *self, n),
            decreases self.max_iterations - n,
        {
            let ghost before = self.queue@;
            match self.queue.pop_front() {
                None => {
                    return n;
                },
                Some(letter) => {
                    assert(kinds_of(self.queue@) =~= kinds_of(before).skip(1));
                    assert(kinds_of(before)[0] == letter@);
                    let ghost kind = letter@;
                    let ghost taken_before = self.taken@;
                    let ghost delivered_before = self.handlers.received();
                    let ghost answers_before = self.handlers.answered();
                    let ghost replied_start = self.replied@;
                    proof {
                        self.taken@ = self.taken@.push(kind);
                        assert(self.taken@.skip(taken0.len() as int) =~= taken_before.skip(taken0.len() as int).push(kind));
                        assert(taken_before.skip(taken0.len() as int) + kinds_of(before) =~= self.taken@.skip(taken0.len() as int) + kinds_of(self.queue@));
                        assert(self.taken@.take(taken0.len() as int) =~= taken0);
                    }
                    n = n + 1;
                    let found = find_kind(&self.kinds, &letter.kind());
                    if found.is_some() {
                        proof {
                            let i = found->0;
                            assert(self.kinds@[i as int] == kind);
                            assert(self.kinds@.contains(kind));
                            let t = self.taken@.skip(taken0.len() as int);
                            assert(t.drop_last() =~= taken_before.skip(taken0.len() as int));
                        }
                        match self.handlers.deliver(letter, &self.unit) {
                            Some(reply) => {
                                let ghost popped = self.queue@;
                                let ghost replied_before = self.replied@;
                                self.queue.push_back(reply);
                                assert(kinds_of(self.queue@) =~= kinds_of(popped).push(reply@));
                                proof {
                                    let r_before = replied_before.skip(replied0.len() as int);
                                    let t_now = self.taken@.skip(taken0.len() as int);
                                    assert(start + r_before =~= t_now + kinds_of(popped));
                                    assert(start + r_before.push(reply@) =~= (start + r_before).push(reply@));
                                    assert(t_now + kinds_of(popped).push(reply@) =~= (t_now + kinds_of(popped)).push(reply@));
                                    assert(start + r_before.push(reply@) =~= t_now + kinds_of(popped).push(reply@));
                                    self.replied@ = self.replied@.push(reply@);
                                    assert(self.replied@.skip(replied0.len() as int) =~= replied_before.skip(replied0.len() as int).push(reply@));
                                    assert(self.replied@.take(replied0.len() as int) =~= replied0);
                                }
                            },
                            None => {},
                        }
                        proof {
                            assert(self.handlers.received().skip(delivered0.len() as int) =~= delivered_before.skip(delivered0.len() as int).push(kind));
                            assert(self.handlers.received().take(delivered0.len() as int) =~= delivered0);
                            let a_before = answers_before.skip(answers0.len() as int);
                            let a_now = self.handlers.answered().skip(answers0.len() as int);
                            assert(a_now.drop_last() =~= a_before);
                            assert(self.handlers.answered().take(answers0.len() as int) =~= answers0);
                        }
                    } else {
                        proof {
                            let t = self.taken@.skip(taken0.len() as int);
                            assert(t.drop_last() =~= taken_before.skip(taken0.len() as int));
                        }
                    }
                    proof {
                        if unhandled(start, self.kinds@) {
                            assert(start.skip((n - 1) as int)[0] == start[(n - 1) as int]);
                            assert(!self.kinds@.contains(start[(n - 1) as int]));
                            assert(start.skip(n as int) =~= start.skip((n - 1) as int).skip(1));
                        }
                    }
                },
            }
        }
        n
    }

    /// Queues `message`, then runs (see [`Runtime::run`]).
    pub fn send_and_run<M: 'static>(&mut self, message: M) -> (n: usize)
        requires
            old(self).well_formed(),
        ensures
            final(self).well_formed(),
            final(self).handled_kinds() == old(self).handled_kinds(),
            final(self).iteration_limit() == old(self).iteration_limit(),
            n <= old(self).iteration_limit(),
            n < old(self).iteration_limit() ==> final(self).pending().len() == 0,
            n >= old(self).pending().len() + 1 || n == old(self).iteration_limit(),
            exists|queued: Runtime|
                {
                    &&& queued.handled_kinds() == old(self).handled_kinds()
                    &&& queued.unit_kind() == old(self).unit_kind()
                    &&& queued.taken_log() == old(self).taken_log()
                    &&& queued.delivered_log() == old(self).delivered_log()
                    &&& queued.replied_log() == old(self).replied_log()
                    &&& queued.answer_log() == old(self).answer_log()
                    &&& queued.pending().drop_last() == old(self).pending()
                    &&& queued.pending().len() == old(self).pending().len() + 1
                    &&& #[trigger] ran(queued, *final(self), n)
                },
    {
        self.send_message(message);
        let ghost queued = *self;
        proof {
            let k = choose|k: TypeId| queued.pending() == old(self).pending().push(k);
            assert(queued.pending().drop_last() =~= old(self).pending());
        }
        let n = self.run();
        assert(ran(queued, *self, n));
        n
    }
}

/// The types in `taken` that are in `kinds`, in order.
pub open spec fn with_handlers(taken: Seq<TypeId>, kinds: Seq<TypeId>) -> Seq<TypeId>
    decreases taken.len(),
{
    if taken.len() == 0 {
        taken
    } else if kinds.contains(taken.last()) {
        with_handlers(taken.drop_last(), kinds).push(taken.last())
    } else {
        with_handlers(taken.drop_last(), kinds)
    }
}

/// Between `before` and `after`, a run took `n` messages from the front of the queue, in
/// order; handed each one whose type has a handler to the handler chain, and no other; and
/// queued exactly the replies the chain answered with, in order, never a reply of type `()`.
/// What was queued before and the replies make up, in order, what was taken and what is
/// left: each reply joined the back of the queue.
pub open spec fn ran(before: Runtime, after: Runtime, n: usize) -> bool {
    let taken = after.taken_log().skip(before.taken_log().len() as int);
    let delivered = after.delivered_log().skip(before.delivered_log().len() as int);
    let answers = after.answer_log().skip(before.answer_log().len() as int);
    let replied = after.replied_log().skip(before.replied_log().len() as int);
    &&& after.taken_log().len() >= before.taken_log().len()
    &&& after.taken_log().take(before.taken_log().len() as int) == before.taken_log()
    &&& after.delivered_log().len() >= before.delivered_log().len()
    &&& after.delivered_log().take(before.delivered_log().len() as int) == before.delivered_log()
    &&& after.replied_log().len() >= before.replied_log().len()
    &&& after.replied_log().take(before.replied_log().len() as int) == before.replied_log()
    &&& after.answer_log().len() >= before.answer_log().len()
    &&& after.answer_log().take(before.answer_log().len() as int) == before.answer_log()
    &&& taken.len() == n
    &&& answers.len() == delivered.len()
    &&& replied == replies_of(answers)
    &&& before.pending() + replied == taken + after.pending()
    &&& delivered == with_handlers(taken, before.handled_kinds())
    &&& replied.len() <= delivered.len()
    &&& forall|i: int| 0 <= i < replied.len() ==> replied[i] != before.unit_kind()
}

/// No message in `pending` is of a type in `kinds`.
pub open spec fn unhandled(pending: Seq<TypeId>, kinds: Seq<TypeId>) -> bool {
    forall|i: int| 0 <= i < pending.len() ==> !kinds.contains(#[trigger] pending[i])
}

} // verus!

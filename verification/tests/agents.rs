use arbiter::agent::{Agent, Context, Handler, LifeCycle};
use arbiter::letter::Letter;
use arbiter::lifecycle::State;
use arbiter::runtime::{Runtime, DEFAULT_MAX_ITERATIONS};

#[derive(Debug, Clone, PartialEq)]
struct Ping(u32);

#[derive(Debug, Clone, PartialEq)]
struct Pong(u32);

struct Bouncer {
  seen: u32,
}

impl LifeCycle for Bouncer {}

impl Handler<Ping> for Bouncer {
  type Reply = Pong;

  fn handle(&mut self, message: Ping) -> Pong {
    self.seen += 1;
    Pong(message.0 + 1)
  }
}

impl Handler<Pong> for Bouncer {
  type Reply = Ping;

  fn handle(&mut self, message: Pong) -> Ping {
    self.seen += 1;
    Ping(message.0 + 1)
  }
}

struct Sink;

impl LifeCycle for Sink {}

impl Handler<Pong> for Sink {
  type Reply = ();

  fn handle(&mut self, _message: Pong) {}
}

#[test]
fn runtime_without_handlers_drops_every_message() {
  let mut runtime = Runtime::new();
  runtime.send_message(Ping(1));
  runtime.send_message(Pong(2));
  assert_eq!(runtime.queue_length(), 2);
  assert!(!runtime.is_idle());
  assert_eq!(runtime.run(), 2);
  assert!(runtime.is_idle());
  assert_eq!(runtime.run(), 0);
}

#[test]
fn runtime_stops_a_cycle_at_the_iteration_limit() {
  let mut runtime = Runtime::new().with_max_iterations(5);
  runtime.register_handler::<Bouncer, Ping>(Bouncer { seen: 0 });
  runtime.register_handler::<Bouncer, Pong>(Bouncer { seen: 0 });
  assert_eq!(runtime.send_and_run(Ping(0)), 5);
  assert!(!runtime.is_idle());
  assert_eq!(runtime.queue_length(), 1);
}

#[test]
fn runtime_default_limit_applies() {
  let mut runtime = Runtime::new();
  runtime.register_handler::<Bouncer, Ping>(Bouncer { seen: 0 });
  runtime.register_handler::<Bouncer, Pong>(Bouncer { seen: 0 });
  assert_eq!(runtime.send_and_run(Ping(0)), DEFAULT_MAX_ITERATIONS);
}

#[test]
fn registering_a_type_again_replaces_its_handler() {
  let mut runtime = Runtime::new();
  runtime.register_handler::<Bouncer, Ping>(Bouncer { seen: 0 });
  runtime.register_handler::<Bouncer, Pong>(Bouncer { seen: 0 });
  runtime.register_handler::<Sink, Pong>(Sink);
  // Ping -> Pong, and the sink ends the chain at Pong.
  assert_eq!(runtime.send_and_run(Ping(0)), 2);
  assert!(runtime.is_idle());
}

#[test]
fn unit_replies_end_the_chain() {
  let mut runtime = Runtime::new();
  runtime.register_handler(Sink);
  assert_eq!(runtime.send_and_run(Pong(3)), 1);
  assert!(runtime.is_idle());
}

#[test]
fn agent_ignores_messages_while_paused_and_without_a_handler() {
  let mut agent = Agent::new(Bouncer { seen: 0 });
  assert!(agent.handle_message(Ping(1)).is_none());
  agent.with_handler::<Ping>();
  let reply = agent.handle_message(Ping(1)).expect("handled");
  assert!(reply.is::<Pong>());
  assert_eq!(reply.take::<Pong>(), Some(Pong(2)));
  assert!(agent.handle_message(Pong(1)).is_none());
  agent.pause();
  assert_eq!(*agent.state(), State::Paused);
  assert!(agent.handle_message(Ping(5)).is_none());
  assert_eq!(agent.inner().seen, 1);
  agent.resume();
  assert!(agent.is_active());
  assert!(agent.handle_message(Ping(5)).is_some());
  assert_eq!(agent.inner().seen, 2);
  agent.stop();
  assert_eq!(*agent.state(), State::Stopped);
  assert!(!agent.is_active());
}

#[test]
fn letter_reports_its_type() {
  let letter = Letter::new(Ping(7));
  assert!(letter.is::<Ping>());
  assert!(!letter.is::<Pong>());
  assert_eq!(letter.kind(), Letter::new(Ping(0)).kind());
  assert_ne!(letter.kind(), Letter::new(Pong(0)).kind());
  assert_eq!(Letter::new(Ping(7)).take::<Pong>(), None);
  assert_eq!(letter.take::<Ping>(), Some(Ping(7)));
}

#[test]
fn context_returns_the_handler_reply() {
  let context = Context::new(Bouncer { seen: 0 });
  assert_eq!(context.handle_with(Ping(13)), Pong(14));
}

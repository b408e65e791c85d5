//! Verified core of the Arbiter multi-agent framework: wire protocol values and handshake
//! negotiation, routing tables, actor lifecycle decisions, supervision policies, the broker's
//! routing state, and the synchronous agent model with its pipeline runtime.

pub mod agent;
pub mod broker;
pub mod clock;
pub mod handler;
pub mod ids;
pub mod letter;
pub mod lifecycle;
pub mod messager;
pub mod observe;
pub mod protocol;
pub mod replay;
pub mod routing;
pub mod runtime;
pub mod supervision;
pub mod time;

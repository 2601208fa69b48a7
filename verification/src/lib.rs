//! Turn orchestration for a streaming, tool-calling chat client.
//!
//! A turn begins with the user's message and ends with the assistant's final
//! answer. In between, the chat backend streams its response in pieces and
//! may ask for tools to be run; their results go back into the conversation
//! and the backend is asked again.
//!
//! - [`message`], [`delta`], [`request`]: the data that goes over the wire.
//! - [`parser`]: cuts the response stream into the payloads of its lines.
//! - [`assembler`]: puts streamed tool calls together.
//! - [`history`]: the conversation, with the order that it keeps.
//! - [`orchestrator`]: the state machine of a turn; [`turn`] is its model
//!   and [`turn_laws`] holds what is proved of it.
//! - [`gateway`], [`shell`]: the rules around running a tool.
//! - [`ui`]: the state that is shown, and how keys and updates change it.

pub mod assembler;
pub mod delta;
pub mod gateway;
pub mod history;
pub mod message;
pub mod orchestrator;
pub mod parser;
pub mod request;
pub mod shell;
pub mod turn;
pub mod turn_laws;
pub mod ui;

//! The streaming core of a chat client: framing of a streamed response body,
//! the events it carries, the conversation and the state machine of a turn,
//! and what the page shows of them.
pub mod event;
pub mod frame;
pub mod render;
pub mod session;

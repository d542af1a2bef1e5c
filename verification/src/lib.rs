//! Conversation session manager for an SMS chatbot.
//!
//! The library owns the per-sender session state: quota counters, the rolling
//! daily window, command short-circuiting, conversation history, and the
//! textual record format the store persists. The surrounding process (webhook
//! transport, database, completion provider) hands plain values in and out.

pub mod codec;
pub mod manager;
pub mod session;
pub mod store;
pub mod text;

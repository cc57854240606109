//! The data and rules of a small chat server: registered users, chat rooms
//! with their members, messages, and the commands a client may type.
pub mod namemap;
pub mod channel;
pub mod message;
pub mod command;
pub mod text;
pub mod chatmap;
pub mod clientinfo;
pub mod roommap;
pub mod usermap;
pub mod server;
pub mod client;

//! What the server keeps of a connected client, in its plainest form.
use std::sync::mpsc::Sender;
use vstd::prelude::*;
use crate::message::Message;

verus! {

/// A connected client: whom it is talking to, and where its messages go.
pub struct ClientInfo {
    /// The user this client is in a conversation with, if any.
    pub partner: Option<String>,
    /// Where messages for this client are handed to its connection.
    pub sender_to_client: Sender<Message>,
}

} // verus!

//! A chat message: who sent it, to which room, and what it says.
use vstd::prelude::*;

verus! {

/// What a message holds, as plain values.
pub struct MessageView {
    pub from: Seq<char>,
    pub room_id: usize,
    pub content: Seq<char>,
}

/// A message sent by `from` to the room `room_id`.
pub struct Message {
    from: String,
    room_id: usize,
    content: String,
}

impl View for Message {
    type V = MessageView;

    open spec fn view(&self) -> MessageView {
        MessageView { from: self.spec_from()@, room_id: self.spec_room_id(), content: self.spec_content()@ }
    }
}

impl Message {
    /// The sender's name.
    pub closed spec fn spec_from(&self) -> String {
        self.from
    }

    /// The room the message is addressed to.
    pub closed spec fn spec_room_id(&self) -> usize {
        self.room_id
    }

    /// The text of the message.
    pub closed spec fn spec_content(&self) -> String {
        self.content
    }

    /// A message from `from` to room `room_id` saying `content`.
    pub fn new(from: String, room_id: usize, content: String) -> (m: Self)
        ensures
            m.spec_from() == from,
            m.spec_room_id() == room_id,
            m.spec_content() == content,
            m@ == (MessageView { from: from@, room_id: room_id, content: content@ }),
    {
        Message { from: from, room_id: room_id, content: content }
    }

    /// The sender's name.
    pub fn from(&self) -> (r: &String)
        ensures
            *r == self.spec_from(),
            r@ == self@.from,
    {
        &self.from
    }

    /// The room the message is addressed to.
    pub fn room_id(&self) -> (r: usize)
        ensures
            r == self@.room_id,
    {
        self.room_id
    }

    /// The text of the message.
    pub fn content(&self) -> (r: &String)
        ensures
            *r == self.spec_content(),
            r@ == self@.content,
    {
        &self.content
    }
}

} // verus!

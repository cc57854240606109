//! Chat rooms and their members.
use std::collections::HashMap;
use std::sync::mpsc::Sender;
use vstd::prelude::*;
use crate::namemap::NameMap;

verus! {

/// What a room holds, as plain values: its name, and for each member the
/// handle through which text reaches that member's connection.
pub struct RoomView {
    pub name: Seq<char>,
    pub members: Map<Seq<char>, Sender<String>>,
}

/// A chat room.
pub struct Room {
    name: String,
    members: NameMap<Sender<String>>,
}

/// The rooms of a server, by room id.
pub type RoomMap = HashMap<usize, Room>;

impl View for Room {
    type V = RoomView;

    open spec fn view(&self) -> RoomView {
        RoomView { name: self.spec_name()@, members: self.spec_members()@ }
    }
}

impl Room {
    /// The room's name.
    pub closed spec fn spec_name(&self) -> String {
        self.name
    }

    /// The room's members.
    pub closed spec fn spec_members(&self) -> NameMap<Sender<String>> {
        self.members
    }

    /// Well-formedness of the member list.
    pub open spec fn wf(&self) -> bool {
        self.spec_members().wf()
    }

    /// An empty room called `name`.
    pub fn new(name: String) -> (r: Self)
        ensures
            r.wf(),
            r@ == (RoomView { name: name@, members: Map::empty() }),
    {
        Room { name: name, members: NameMap::new() }
    }

    /// The room's name.
    pub fn name(&self) -> (r: String)
        ensures
            r@ == self@.name,
    {
        self.name.clone()
    }

    /// The room's members.
    pub fn members(&self) -> (r: &NameMap<Sender<String>>)
        ensures
            *r == self.spec_members(),
            r@ == self@.members,
    {
        &self.members
    }

    /// Adds `user` to the room; a member already there gets the new handle.
    pub fn add_member(&mut self, user: String, sndr: Sender<String>)
        requires
            old(self).wf(),
        ensures
            final(self).wf(),
            final(self)@ == (RoomView { name: old(self)@.name, members: old(self)@.members.insert(user@, sndr) }),
    {
        self.members.insert(user, sndr);
    }

    /// Removes `user` from the room, if it is there.
    pub fn remove_member(&mut self, user: String)
        requires
            old(self).wf(),
        ensures
            final(self).wf(),
            final(self)@ == (RoomView { name: old(self)@.name, members: old(self)@.members.remove(user@) }),
    {
        let _ = self.members.remove(&user);
    }

    /// The number of members in the room.
    pub fn size(&self) -> (r: usize)
        requires
            self.wf(),
        ensures
            r == self@.members.len(),
    {
        self.members.len()
    }
}

} // verus!

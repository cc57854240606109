//! The chat server's state: registered users and chat rooms, and the rules
//! by which users register, rooms are created, joined and left, and
//! messages are passed on to the members of a room.
use std::collections::HashMap;
use std::sync::mpsc::Sender;
use vstd::prelude::*;
use crate::message::{Message, MessageView};
use crate::namemap::{collects, lemma_collects_done, lemma_collects_start, lemma_collects_step, NameMap};
use crate::roommap::{Room, RoomMap, RoomView};
use crate::text::{trim, trimmed};
use crate::usermap::UserMap;

verus! {

broadcast use vstd::std_specs::hash::group_hash_axioms;

/// What a server holds, as plain values: for each registered user the id
/// of the room the user is in (0 for none), and the rooms by id.
pub struct ServerView {
    pub users: Map<Seq<char>, usize>,
    pub rooms: Map<usize, RoomView>,
}

/// The chat server.
pub struct Server {
    users: UserMap,
    rooms: RoomMap,
}

/// One line of text to be handed to one member of a room.
pub struct Outgoing<'a> {
    /// The member's name.
    pub to: String,
    /// Where the member's connection takes text from.
    pub sender: &'a Sender<String>,
    /// The text.
    pub text: String,
}

/// The names of the members that a list of outgoing lines is for.
pub open spec fn recipient_names<'a>(out: Seq<Outgoing<'a>>) -> Seq<Seq<char>> {
    out.map_values(|o: Outgoing<'a>| o.to@)
}

/// Whether the rooms are numbered 1, 2, ... up to their number, the way
/// `create_room` numbers them.
pub open spec fn rooms_numbered(s: ServerView) -> bool {
    &&& s.rooms.dom().finite()
    &&& forall|id: usize| #[trigger] s.rooms.contains_key(id) <==> 1 <= id && id <= s.rooms.len()
}

/// Whether a room with id `room_id` exists.
pub open spec fn has_room(s: ServerView, room_id: usize) -> bool {
    s.rooms.contains_key(room_id)
}

/// The room with id `room_id`.
pub open spec fn room_of(s: ServerView, room_id: usize) -> RoomView {
    s.rooms[room_id]
}

/// Whether registering `name` succeeds: nobody holds the name yet.
pub open spec fn accepts_user(s: ServerView, name: Seq<char>) -> bool {
    !s.users.contains_key(name)
}

/// The server after a request to register `name`: a new user starts in no room.
pub open spec fn after_add_user(s: ServerView, name: Seq<char>) -> ServerView {
    if accepts_user(s, name) {
        ServerView { users: s.users.insert(name, 0), rooms: s.rooms }
    } else {
        s
    }
}

/// The id the next room gets: one more than the number of rooms.
pub open spec fn next_room_id(s: ServerView) -> usize {
    (s.rooms.len() + 1) as usize
}

/// The server after a room called `name` is created under the next id.
pub open spec fn after_create_room(s: ServerView, name: Seq<char>) -> ServerView {
    ServerView {
        users: s.users,
        rooms: s.rooms.insert(next_room_id(s), RoomView { name: name, members: Map::empty() }),
    }
}

/// The server after `user` asks to join room `room_id` with the handle
/// `sndr`: when the room exists, the user becomes one of its members and, if
/// registered, is recorded as being in that room.
pub open spec fn after_join(s: ServerView, room_id: usize, user: Seq<char>, sndr: Sender<String>) -> ServerView {
    if has_room(s, room_id) {
        let r = room_of(s, room_id);
        ServerView {
            users: if s.users.contains_key(user) {
                s.users.insert(user, room_id)
            } else {
                s.users
            },
            rooms: s.rooms.insert(room_id, RoomView { name: r.name, members: r.members.insert(user, sndr) }),
        }
    } else {
        s
    }
}

/// The server after `user` asks to leave room `room_id`: when the room
/// exists, the user is no member of it any more and, if recorded as being
/// in that room, is recorded as being in none.
pub open spec fn after_leave(s: ServerView, room_id: usize, user: Seq<char>) -> ServerView {
    if has_room(s, room_id) {
        let r = room_of(s, room_id);
        ServerView {
            users: if s.users.contains_key(user) && s.users[user] == room_id {
                s.users.insert(user, 0)
            } else {
                s.users
            },
            rooms: s.rooms.insert(room_id, RoomView { name: r.name, members: r.members.remove(user) }),
        }
    } else {
        s
    }
}

/// The line that the members of a room see for a message.
pub open spec fn line_of(m: MessageView) -> Seq<char> {
    m.from + ": "@ + m.content + "\n"@
}

/// The name under which the server announces events.
pub open spec fn server_name() -> Seq<char> {
    "Server"@
}

/// What the members of a room are told when `user` joins it.
pub open spec fn join_notice(user: Seq<char>, room_name: Seq<char>) -> Seq<char> {
    user + " has joined "@ + room_name + ".\n"@
}

/// The message announcing that `user` joined room `room_id`.
pub open spec fn join_message(s: ServerView, room_id: usize, user: Seq<char>) -> MessageView {
    MessageView { from: server_name(), room_id: room_id, content: join_notice(user, room_of(s, room_id).name) }
}

/// Whether `name` receives a message `m`: a member of the message's room
/// other than its sender.
pub open spec fn receives(s: ServerView, m: MessageView, name: Seq<char>) -> bool {
    &&& has_room(s, m.room_id)
    &&& room_of(s, m.room_id).members.contains_key(name)
    &&& name != m.from
}

/// A user name is registered at most once: once a request to register it
/// has been made, a second request is refused and changes nothing; a user
/// that was registered by the request starts in no room.
pub proof fn lemma_username_registered_once(s: ServerView, name: Seq<char>)
    ensures
        !accepts_user(after_add_user(s, name), name),
        after_add_user(after_add_user(s, name), name) == after_add_user(s, name),
        accepts_user(s, name) ==> after_add_user(s, name).users[name] == 0,
        after_add_user(s, name).rooms == s.rooms,
{
}

/// The user map records the room a registered user is in: joining an
/// existing room records its id, and leaving that room records 0 again.
/// Joining or leaving never registers anyone.
pub proof fn lemma_user_map_tracks_room(s: ServerView, room_id: usize, user: Seq<char>, sndr: Sender<String>)
    ensures
        has_room(s, room_id) && s.users.contains_key(user)
            ==> after_join(s, room_id, user, sndr).users[user] == room_id,
        has_room(s, room_id) && s.users.contains_key(user)
            ==> after_leave(after_join(s, room_id, user, sndr), room_id, user).users[user] == 0,
        after_join(s, room_id, user, sndr).users.dom() == s.users.dom(),
        after_leave(s, room_id, user).users.dom() == s.users.dom(),
{
    if has_room(s, room_id) && s.users.contains_key(user) {
        assert(s.users.insert(user, room_id).dom() =~= s.users.dom());
        assert(s.users.insert(user, room_id).insert(user, 0).dom() =~= s.users.dom());
    }
    if has_room(s, room_id) && s.users.contains_key(user) && s.users[user] == room_id {
        assert(s.users.insert(user, 0).dom() =~= s.users.dom());
    }
}

/// Leaving a room undoes joining it: when `user` was not a member of the
/// room and was in no room, joining and then leaving gives back the server
/// as it was. And whatever came before, after leaving a room the user is
/// not a member of it.
pub proof fn lemma_leave_undoes_join(s: ServerView, room_id: usize, user: Seq<char>, sndr: Sender<String>)
    ensures
        !(has_room(s, room_id) && room_of(s, room_id).members.contains_key(user))
            && (s.users.contains_key(user) ==> s.users[user] == 0)
            ==> after_leave(after_join(s, room_id, user, sndr), room_id, user) == s,
        has_room(s, room_id) ==> !room_of(after_leave(s, room_id, user), room_id).members.contains_key(user),
{
    if has_room(s, room_id) && !room_of(s, room_id).members.contains_key(user)
        && (s.users.contains_key(user) ==> s.users[user] == 0) {
        let r = room_of(s, room_id);
        assert(r.members.insert(user, sndr).remove(user) =~= r.members);
        let t = after_leave(after_join(s, room_id, user, sndr), room_id, user);
        assert(t.rooms =~= s.rooms);
        assert(t.users =~= s.users);
    }
}

/// Creating a room gives it the next id and keeps the rooms numbered; every
/// existing room keeps its id and stays as it was; and the new room can be
/// joined at once: whoever joins it first is its only member.
pub proof fn lemma_created_room_joinable(s: ServerView, name: Seq<char>, user: Seq<char>, sndr: Sender<String>)
    requires
        rooms_numbered(s),
        s.rooms.len() < usize::MAX,
    ensures
        ({
            let t = after_create_room(s, name);
            let id = next_room_id(s);
            &&& !has_room(s, id)
            &&& rooms_numbered(t)
            &&& has_room(t, id)
            &&& room_of(t, id).name == name
            &&& room_of(after_join(t, id, user, sndr), id).members == map![user => sndr]
            &&& forall|r: usize| has_room(s, r) ==> has_room(t, r) && room_of(t, r) == room_of(s, r)
        }),
{
    let t = after_create_room(s, name);
    let id = next_room_id(s);
    assert(!s.rooms.contains_key(id));
    assert(t.rooms.dom() =~= s.rooms.dom().insert(id));
    assert(t.rooms.len() == s.rooms.len() + 1);
    assert(room_of(t, id).members == Map::<Seq<char>, Sender<String>>::empty());
    assert(room_of(after_join(t, id, user, sndr), id).members =~= map![user => sndr]);
}

/// The announcement that `user` joined a room reaches exactly the room's
/// members after the join other than the server itself: the newcomer and
/// everyone who was there before.
pub proof fn lemma_join_notice_reaches_room(
    s: ServerView,
    room_id: usize,
    user: Seq<char>,
    sndr: Sender<String>,
    name: Seq<char>,
)
    requires
        has_room(s, room_id),
    ensures
        receives(after_join(s, room_id, user, sndr), join_message(s, room_id, user), name)
            <==> (name == user || room_of(s, room_id).members.contains_key(name)) && name != server_name(),
{
}

/// A message never goes back to its sender, and reaches nobody outside
/// the room it is addressed to.
pub proof fn lemma_message_recipients(s: ServerView, m: MessageView, name: Seq<char>)
    ensures
        receives(s, m, name) ==> name != m.from,
        receives(s, m, name) ==> has_room(s, m.room_id) && room_of(s, m.room_id).members.contains_key(name),
        s.rooms.contains_key(m.room_id) && s.rooms[m.room_id].members.contains_key(name) && name != m.from
            ==> receives(s, m, name),
{
}

/// The line shown for a message holds the sender's name, then `": "`, then
/// the whole content, unshortened and unchanged, then one line break.
pub proof fn lemma_line_shows_whole_message(m: MessageView)
    ensures
        line_of(m).len() == m.from.len() + m.content.len() + 3,
        line_of(m).subrange(0, m.from.len() as int) == m.from,
        line_of(m)[m.from.len() as int] == ':',
        line_of(m)[m.from.len() as int + 1] == ' ',
        line_of(m).subrange(m.from.len() as int + 2, m.from.len() as int + 2 + m.content.len()) == m.content,
        line_of(m).last() == '\n',
{
    reveal_strlit(": ");
    reveal_strlit("\n");
    let l = line_of(m);
    let f = m.from.len() as int;
    let c = m.content.len() as int;
    assert(l.subrange(0, f) =~= m.from);
    assert(l.subrange(f + 2, f + 2 + c) =~= m.content);
}

/// Registration succeeds exactly for names nobody holds: a fresh name is
/// always accepted and adds just that name, in no room; two different fresh
/// names can be registered one after the other; a taken name is refused.
pub proof fn lemma_registration_accepts_fresh_names(s: ServerView, a: Seq<char>, b: Seq<char>)
    ensures
        accepts_user(s, a) <==> !s.users.contains_key(a),
        !s.users.contains_key(a) ==> after_add_user(s, a).users.dom() == s.users.dom().insert(a)
            && after_add_user(s, a).users[a] == 0,
        !s.users.contains_key(a) && !s.users.contains_key(b) && a != b
            ==> accepts_user(after_add_user(s, a), b)
                && after_add_user(after_add_user(s, a), b).users.contains_key(a)
                && after_add_user(after_add_user(s, a), b).users.contains_key(b),
        s.users.contains_key(a) ==> after_add_user(s, a) == s,
{
    if !s.users.contains_key(a) {
        assert(after_add_user(s, a).users.dom() =~= s.users.dom().insert(a));
    }
}

/// The announcement of a newcomer names the newcomer, then `" has joined "`,
/// then the whole room name, then `".\n"`.
pub proof fn lemma_join_notice_text(user: Seq<char>, room_name: Seq<char>)
    ensures
        join_notice(user, room_name).len() == user.len() + room_name.len() + 14,
        join_notice(user, room_name).subrange(0, user.len() as int) == user,
        join_notice(user, room_name).subrange(user.len() as int, user.len() as int + 12) == " has joined "@,
        join_notice(user, room_name).subrange(user.len() as int + 12, user.len() as int + 12 + room_name.len()) == room_name,
        join_notice(user, room_name).subrange(user.len() as int + 12 + room_name.len(), user.len() as int + 14 + room_name.len())
            == ".\n"@,
{
    reveal_strlit(" has joined ");
    reveal_strlit(".\n");
    let t = join_notice(user, room_name);
    let u = user.len() as int;
    let r = room_name.len() as int;
    assert(t.subrange(0, u) =~= user);
    assert(t.subrange(u, u + 12) =~= " has joined "@);
    assert(t.subrange(u + 12, u + 12 + r) =~= room_name);
    assert(t.subrange(u + 12 + r, u + 14 + r) =~= ".\n"@);
}

/// Joining a room changes only that room, by adding the newcomer with the
/// given handle, and only the newcomer's entry in the user map; leaving a
/// room changes only that room, by removing the user, and at most the
/// user's entry in the user map.
pub proof fn lemma_join_and_leave_are_local(s: ServerView, room_id: usize, user: Seq<char>, sndr: Sender<String>)
    requires
        has_room(s, room_id),
    ensures
        ({
            let t = after_join(s, room_id, user, sndr);
            &&& t.rooms.dom() == s.rooms.dom()
            &&& room_of(t, room_id).name == room_of(s, room_id).name
            &&& room_of(t, room_id).members.contains_key(user)
            &&& room_of(t, room_id).members[user] == sndr
            &&& forall|n: Seq<char>| n != user ==> (#[trigger] room_of(t, room_id).members.contains_key(n)
                <==> room_of(s, room_id).members.contains_key(n))
            &&& forall|r: usize| #[trigger] has_room(s, r) && r != room_id ==> room_of(t, r) == room_of(s, r)
            &&& forall|n: Seq<char>| #[trigger] s.users.contains_key(n) && n != user ==> t.users[n] == s.users[n]
        }),
        ({
            let t = after_leave(s, room_id, user);
            &&& t.rooms.dom() == s.rooms.dom()
            &&& room_of(t, room_id).name == room_of(s, room_id).name
            &&& !room_of(t, room_id).members.contains_key(user)
            &&& forall|n: Seq<char>| n != user ==> (#[trigger] room_of(t, room_id).members.contains_key(n)
                <==> room_of(s, room_id).members.contains_key(n))
            &&& forall|r: usize| #[trigger] has_room(s, r) && r != room_id ==> room_of(t, r) == room_of(s, r)
            &&& forall|n: Seq<char>| #[trigger] s.users.contains_key(n) && n != user ==> t.users[n] == s.users[n]
        }),
{
    assert(after_join(s, room_id, user, sndr).rooms.dom() =~= s.rooms.dom());
    assert(after_leave(s, room_id, user).rooms.dom() =~= s.rooms.dom());
}

impl View for Server {
    type V = ServerView;

    open spec fn view(&self) -> ServerView {
        ServerView {
            users: self.spec_users()@,
            rooms: self.spec_rooms().map_values(|r: Room| r@),
        }
    }
}

impl Server {
    /// The registered users.
    pub closed spec fn spec_users(&self) -> UserMap {
        self.users
    }

    /// The rooms.
    pub closed spec fn spec_rooms(&self) -> Map<usize, Room> {
        self.rooms@
    }

    /// The rooms in the view are the rooms held, under the same ids.
    proof fn lemma_rooms_view(&self)
        ensures
            self@.rooms.dom() == self.spec_rooms().dom(),
            self@.rooms.len() == self.spec_rooms().len(),
    {
        assert(self@.rooms.dom() =~= self.spec_rooms().dom());
    }

    /// Well-formedness: no user and no room member is listed twice, and the
    /// rooms are numbered from 1 up.
    pub open spec fn wf(&self) -> bool {
        &&& self.spec_users().wf()
        &&& rooms_numbered(self@)
        &&& forall|id: usize| #[trigger] self.spec_rooms().contains_key(id) ==> self.spec_rooms()[id].wf()
    }

    /// A server with no users and no rooms.
    pub fn new() -> (s: Self)
        ensures
            s.wf(),
            s@ == (ServerView { users: Map::empty(), rooms: Map::empty() }),
    {
        let s = Server { users: NameMap::new(), rooms: HashMap::new() };
        assert(s@.rooms =~= Map::<usize, RoomView>::empty());
        s
    }

    /// Registers a user called `name`, in no room. Fails, changing nothing,
    /// when a user with that name already exists; returns whether it succeeded.
    pub fn add_user(&mut self, name: String) -> (ok: bool)
        requires
            old(self).wf(),
        ensures
            final(self).wf(),
            ok == accepts_user(old(self)@, name@),
            ok == !old(self)@.users.contains_key(name@),
            final(self)@ == after_add_user(old(self)@, name@),
            final(self)@.users == (if ok { old(self)@.users.insert(name@, 0) } else { old(self)@.users }),
            final(self)@.rooms == old(self)@.rooms,
    {
        if !self.users.contains_key(&name) {
            self.users.insert(name, 0);
            assert(self.spec_rooms() == old(self).spec_rooms());
            return true;
        }
        false
    }

    /// The lines to hand out for message `msg`: one for every member of its
    /// room but the sender, each reading `from: content` and a line break.
    /// There are none when the room does not exist.
    pub fn send_message(&self, msg: Message) -> (out: Vec<Outgoing<'_>>)
        requires
            self.wf(),
        ensures
            recipient_names(out@).no_duplicates(),
            forall|name: Seq<char>| #[trigger] recipient_names(out@).contains(name)
                <==> receives(self@, msg@, name),
            forall|name: Seq<char>| #[trigger] recipient_names(out@).contains(name)
                <==> self@.rooms.contains_key(msg@.room_id)
                    && self@.rooms[msg@.room_id].members.contains_key(name) && name != msg@.from,
            forall|i: int| #![trigger out@[i]] 0 <= i < out@.len() ==> {
                &&& out@[i].text@ == line_of(msg@)
                &&& out@[i].text@ == msg@.from + ": "@ + msg@.content + "\n"@
                &&& out@[i].to@ != msg@.from
                &&& *out@[i].sender == room_of(self@, msg@.room_id).members[out@[i].to@]
            },
    {
        let mut out: Vec<Outgoing<'_>> = Vec::new();
        let room_id = msg.room_id();
        let room = match self.rooms.get(&room_id) {
            Some(room) => room,
            None => {
                proof {
                    assert(recipient_names(out@) =~= Seq::<Seq<char>>::empty());
                }
                return out;
            },
        };
        assert(self.spec_rooms().contains_key(room_id));
        let ghost rv = room@;
        assert(rv == room_of(self@, room_id));
        let members = room.members();
        let mut output = msg.from().clone();
        output.append(": ");
        output.append(msg.content().as_str());
        output.append("\n");
        proof {
            members.lemma_keys();
        }
        let ghost ks = members.key_seq();
        let ghost from = msg@.from;
        let ghost pred = |name: Seq<char>| name != from;
        proof {
            lemma_collects_start(ks, pred);
            assert(recipient_names(out@) =~= Seq::<Seq<char>>::empty());
        }
        let n = members.len();
        let mut i: usize = 0;
        while i < n
            invariant
                members.wf(),
                members@ == rv.members,
                rv == room_of(self@, room_id),
                has_room(self@, room_id),
                room_id == msg@.room_id,
                from == msg@.from,
                output@ == line_of(msg@),
                ks == members.key_seq(),
                ks.no_duplicates(),
                n == ks.len(),
                0 <= i <= n,
                pred == (|name: Seq<char>| name != from),
                collects(recipient_names(out@), ks, i as int, pred),
                forall|j: int| #![trigger out@[j]] 0 <= j < out@.len() ==> {
                    &&& out@[j].text@ == line_of(msg@)
                    &&& out@[j].to@ != from
                    &&& *out@[j].sender == rv.members[out@[j].to@]
                },
            decreases n - i,
        {
            let name = members.key_at(i);
            let sender = members.value_at(i);
            proof {
                lemma_collects_step(recipient_names(out@), ks, i as int, pred);
            }
            if *name != *msg.from() {
                let ghost old_out = out@;
                out.push(Outgoing { to: name.clone(), sender: sender, text: output.clone() });
                proof {
                    assert(recipient_names(out@) =~= recipient_names(old_out).push(ks[i as int]));
                    assert forall|j: int| #![trigger out@[j]] 0 <= j < out@.len() implies {
                        &&& out@[j].text@ == line_of(msg@)
                        &&& out@[j].to@ != from
                        &&& *out@[j].sender == rv.members[out@[j].to@]
                    } by {
                        if j < old_out.len() {
                            assert(out@[j] == old_out[j]);
                        }
                    }
                }
            }
            i = i + 1;
        }
        proof {
            lemma_collects_done(recipient_names(out@), ks, pred);
            assert forall|name: Seq<char>| #[trigger] recipient_names(out@).contains(name)
                <==> receives(self@, msg@, name) by {
                members.lemma_keys();
            }
        }
        out
    }

    /// Adds `user` to room `room_id` and, if `user` is registered, records
    /// that room as the one the user is in. When the room exists, returns the
    /// message from the server that announces the newcomer to the room's
    /// members, to be passed on with `send_message`; when it does not,
    /// returns `None` and changes nothing.
    pub fn join_room(&mut self, room_id: usize, user: String, sndr: Sender<String>) -> (notice: Option<Message>)
        requires
            old(self).wf(),
        ensures
            final(self).wf(),
            final(self)@ == after_join(old(self)@, room_id, user@, sndr),
            notice is Some <==> has_room(old(self)@, room_id),
            match notice {
                Some(m) => m@ == join_message(old(self)@, room_id, user@)
                    && m@.from == "Server"@
                    && m@.room_id == room_id
                    && m@.content == user@ + " has joined "@ + old(self)@.rooms[room_id].name + ".\n"@,
                None => true,
            },
    {
        if !self.rooms.contains_key(&room_id) {
            return None;
        }
        let ghost old_rooms = self.rooms@;
        assert(self.spec_rooms().contains_key(room_id));
        let mut room = self.rooms.remove(&room_id).unwrap();
        room.add_member(user.clone(), sndr);
        let room_name = room.name();
        self.rooms.insert(room_id, room);
        if self.users.contains_key(&user) {
            self.users.insert(user.clone(), room_id);
        }
        proof {
            assert(self.rooms@ =~= old_rooms.insert(room_id, room));
            assert(self.rooms@.dom() =~= old_rooms.dom());
            assert forall|id: usize| #[trigger] self.spec_rooms().contains_key(id) implies self.spec_rooms()[id].wf() by {
                if id != room_id {
                    assert(self.spec_rooms()[id] == old_rooms[id]);
                }
            }
            assert(self@.rooms =~= old(self)@.rooms.insert(room_id, RoomView {
                name: old(self)@.rooms[room_id].name,
                members: old(self)@.rooms[room_id].members.insert(user@, sndr),
            }));
        }
        let mut content = user;
        content.append(" has joined ");
        content.append(room_name.as_str());
        content.append(".\n");
        Some(Message::new("Server".to_owned(), room_id, content))
    }

    /// Creates an empty room called `room_name` and returns its id, one more
    /// than the number of rooms before.
    pub fn create_room(&mut self, room_name: String) -> (room_id: usize)
        requires
            old(self).wf(),
            old(self)@.rooms.len() < usize::MAX,
        ensures
            final(self).wf(),
            room_id == next_room_id(old(self)@),
            room_id == old(self)@.rooms.len() + 1,
            !old(self)@.rooms.contains_key(room_id),
            final(self)@ == after_create_room(old(self)@, room_name@),
            has_room(final(self)@, room_id),
    {
        let ghost old_rooms = self.rooms@;
        proof {
            self.lemma_rooms_view();
        }
        let room_id = self.rooms.len() + 1;
        assert(!old_rooms.contains_key(room_id));
        let room = Room::new(room_name);
        self.rooms.insert(room_id, room);
        proof {
            assert(self.rooms@.dom() =~= old_rooms.dom().insert(room_id));
            assert(self.rooms@.len() == old_rooms.len() + 1);
            self.lemma_rooms_view();
            assert forall|id: usize| #[trigger] self.spec_rooms().contains_key(id) implies self.spec_rooms()[id].wf() by {
                if id != room_id {
                    assert(self.spec_rooms()[id] == old_rooms[id]);
                }
            }
            assert(self@.rooms =~= old(self)@.rooms.insert(room_id, RoomView { name: room_name@, members: Map::empty() }));
        }
        room_id
    }

    /// Creates a room named by the typed line `name_line`, without its
    /// leading and trailing white space, and puts `user` in it. Returns the
    /// new room's id, and the message that announces the newcomer to be
    /// passed on with `send_message`.
    pub fn open_room(&mut self, name_line: &str, user: String, sndr: Sender<String>) -> (r: (usize, Message))
        requires
            old(self).wf(),
            old(self)@.rooms.len() < usize::MAX,
        ensures
            final(self).wf(),
            r.0 == next_room_id(old(self)@),
            final(self)@ == after_join(after_create_room(old(self)@, trimmed(name_line@)), r.0, user@, sndr),
            r.1@ == join_message(after_create_room(old(self)@, trimmed(name_line@)), r.0, user@),
            room_of(final(self)@, r.0).members.contains_key(user@),
    {
        let room_id = self.create_room(trim(name_line).to_owned());
        let notice = self.join_room(room_id, user, sndr).unwrap();
        (room_id, notice)
    }

    /// Removes `user` from room `room_id` and, if the user was recorded as
    /// being in that room, records the user as being in none. Nothing
    /// changes when the room does not exist.
    pub fn leave_room(&mut self, room_id: usize, user: String)
        requires
            old(self).wf(),
        ensures
            final(self).wf(),
            final(self)@ == after_leave(old(self)@, room_id, user@),
    {
        if !self.rooms.contains_key(&room_id) {
            return;
        }
        let ghost old_rooms = self.rooms@;
        assert(self.spec_rooms().contains_key(room_id));
        let mut room = self.rooms.remove(&room_id).unwrap();
        room.remove_member(user.clone());
        self.rooms.insert(room_id, room);
        let in_this_room = match self.users.get(&user) {
            Some(current) => *current == room_id,
            None => false,
        };
        if in_this_room {
            self.users.insert(user.clone(), 0);
        }
        proof {
            assert(self.rooms@ =~= old_rooms.insert(room_id, room));
            assert(self.rooms@.dom() =~= old_rooms.dom());
            assert forall|id: usize| #[trigger] self.spec_rooms().contains_key(id) implies self.spec_rooms()[id].wf() by {
                if id != room_id {
                    assert(self.spec_rooms()[id] == old_rooms[id]);
                }
            }
            assert(self@.rooms =~= old(self)@.rooms.insert(room_id, RoomView {
                name: old(self)@.rooms[room_id].name,
                members: old(self)@.rooms[room_id].members.remove(user@),
            }));
        }
    }

    /// The id of the room the user `name` is recorded as being in (0 for
    /// none), or `None` when no such user is registered.
    pub fn room_of_user(&self, name: &String) -> (r: Option<usize>)
        requires
            self.wf(),
        ensures
            match r {
                Some(id) => self@.users.contains_key(name@) && id == self@.users[name@],
                None => !self@.users.contains_key(name@),
            },
    {
        match self.users.get(name) {
            Some(id) => Some(*id),
            None => None,
        }
    }

    /// The number of rooms.
    pub fn room_count(&self) -> (n: usize)
        requires
            self.wf(),
        ensures
            n == self@.rooms.len(),
    {
        proof {
            self.lemma_rooms_view();
        }
        self.rooms.len()
    }

    /// Each room's id and name, by increasing id.
    pub fn room_listing(&self) -> (list: Vec<(usize, String)>)
        requires
            self.wf(),
        ensures
            list@.len() == self@.rooms.len(),
            forall|i: int| #![trigger list@[i]] 0 <= i < list@.len() ==> {
                &&& list@[i].0 == i + 1
                &&& has_room(self@, list@[i].0)
                &&& list@[i].1@ == room_of(self@, list@[i].0).name
            },
    {
        let mut list: Vec<(usize, String)> = Vec::new();
        proof {
            self.lemma_rooms_view();
        }
        let n = self.rooms.len();
        let mut i: usize = 0;
        while i < n
            invariant
                self.wf(),
                n == self@.rooms.len(),
                0 <= i <= n,
                list@.len() == i,
                forall|j: int| #![trigger list@[j]] 0 <= j < i ==> {
                    &&& list@[j].0 == j + 1
                    &&& has_room(self@, list@[j].0)
                    &&& list@[j].1@ == room_of(self@, list@[j].0).name
                },
            decreases n - i,
        {
            let id = i + 1;
            proof {
                self.lemma_rooms_view();
                assert(self@.rooms.contains_key(id));
            }
            assert(self.spec_rooms().contains_key(id));
            let room = self.rooms.get(&id).unwrap();
            let name = room.name();
            let ghost old_list = list@;
            list.push((id, name));
            proof {
                assert forall|j: int| #![trigger list@[j]] 0 <= j < i + 1 implies {
                    &&& list@[j].0 == j + 1
                    &&& has_room(self@, list@[j].0)
                    &&& list@[j].1@ == room_of(self@, list@[j].0).name
                } by {
                    if j < i {
                        assert(list@[j] == old_list[j]);
                    }
                }
            }
            i = i + 1;
        }
        list
    }
}

} // verus!

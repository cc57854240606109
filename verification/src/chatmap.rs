//! The clients known to the one-on-one chat service: whom each is talking
//! to and whom each has blocked.
use std::sync::mpsc::Sender;
use vstd::prelude::*;
use crate::message::Message;
use crate::namemap::{collects, lemma_collects_done, lemma_collects_start, lemma_collects_step, NameMap};
use crate::text::first_is_one_byte;

verus! {

/// Every connected client, by user name.
pub type ChatMap = NameMap<ClientInfo>;

/// What the service knows of one connected client.
pub struct ClientInfo {
    /// The user this client is in a conversation with, if any.
    pub partner: Option<String>,
    /// Where messages for this client are handed to its connection.
    pub sender_to_client: Sender<Message>,
    /// The users this client does not want to hear from.
    pub blocked_users: Vec<String>,
}

/// The texts of a list of names.
pub open spec fn names(list: Seq<String>) -> Seq<Seq<char>> {
    list.map_values(|s: String| s@)
}

/// Whether `username` may be taken by a new client: it is not empty, does
/// not start with `/` (which marks commands) and nobody holds it yet.
pub open spec fn valid_username(chat: Map<Seq<char>, ClientInfo>, username: Seq<char>) -> bool {
    &&& username.len() > 0
    &&& username[0] != '/'
    &&& !chat.contains_key(username)
}

/// Whether `name` is a client that `me` can start a conversation with: some
/// other client, not already in a conversation, where neither has blocked
/// the other.
pub open spec fn available_to(chat: Map<Seq<char>, ClientInfo>, me: Seq<char>, name: Seq<char>) -> bool {
    &&& chat.contains_key(name)
    &&& name != me
    &&& chat[name].partner is None
    &&& !names(chat[name].blocked_users@).contains(me)
    &&& !names(chat[me].blocked_users@).contains(name)
}

/// The clients after `username` ends its conversation: it has no partner
/// any more, and nothing else changes.
pub open spec fn after_quit(chat: Map<Seq<char>, ClientInfo>, username: Seq<char>) -> Map<Seq<char>, ClientInfo> {
    chat.insert(
        username,
        ClientInfo {
            partner: None,
            sender_to_client: chat[username].sender_to_client,
            blocked_users: chat[username].blocked_users,
        },
    )
}

/// After `me` ends its conversation, every other client that neither has
/// blocked nor is blocked by `me` can start a conversation with `me`.
pub proof fn lemma_quit_makes_available(chat: Map<Seq<char>, ClientInfo>, me: Seq<char>, other: Seq<char>)
    requires
        chat.contains_key(me),
        chat.contains_key(other),
        other != me,
        !names(chat[me].blocked_users@).contains(other),
        !names(chat[other].blocked_users@).contains(me),
    ensures
        available_to(after_quit(chat, me), other, me),
        after_quit(chat, me).dom() == chat.dom(),
{
    assert(after_quit(chat, me).dom() =~= chat.dom());
}

/// A name that some client already holds is never valid, whatever that
/// client's partner or block list; and once a valid name is taken by a new
/// client it is valid no more.
pub proof fn lemma_taken_names_invalid(chat: Map<Seq<char>, ClientInfo>, username: Seq<char>, info: ClientInfo)
    ensures
        chat.contains_key(username) ==> !valid_username(chat, username),
        valid_username(chat, username) ==> !valid_username(chat.insert(username, info), username),
        valid_username(chat, username) ==> username.len() > 0 && username[0] != '/',
{
}

/// Who is offered to `me`: never `me`, never a client that is in a
/// conversation or unknown, never a name anywhere in `me`'s block list, and
/// never a client whose block list holds `me` anywhere; every other client
/// is offered.
pub proof fn lemma_available_respects_blocks(chat: Map<Seq<char>, ClientInfo>, me: Seq<char>, name: Seq<char>)
    ensures
        available_to(chat, me, name) ==> chat.contains_key(name) && name != me && chat[name].partner is None,
        forall|i: int| 0 <= i < chat[me].blocked_users@.len() && (#[trigger] chat[me].blocked_users@[i])@ == name
            ==> !available_to(chat, me, name),
        forall|k: int| chat.contains_key(name) && 0 <= k < chat[name].blocked_users@.len()
            && (#[trigger] chat[name].blocked_users@[k])@ == me ==> !available_to(chat, me, name),
        chat.contains_key(name) && name != me && chat[name].partner is None
            && (forall|i: int| 0 <= i < chat[me].blocked_users@.len() ==> (#[trigger] chat[me].blocked_users@[i])@ != name)
            && (forall|k: int| 0 <= k < chat[name].blocked_users@.len() ==> (#[trigger] chat[name].blocked_users@[k])@ != me)
            ==> available_to(chat, me, name),
{
    assert forall|i: int| 0 <= i < chat[me].blocked_users@.len() && (#[trigger] chat[me].blocked_users@[i])@ == name
        implies !available_to(chat, me, name) by {
        assert(names(chat[me].blocked_users@)[i] == name);
    }
    assert forall|k: int| chat.contains_key(name) && 0 <= k < chat[name].blocked_users@.len()
        && (#[trigger] chat[name].blocked_users@[k])@ == me implies !available_to(chat, me, name) by {
        assert(names(chat[name].blocked_users@)[k] == me);
    }
    if chat.contains_key(name) && name != me && chat[name].partner is None
        && (forall|i: int| 0 <= i < chat[me].blocked_users@.len() ==> (#[trigger] chat[me].blocked_users@[i])@ != name)
        && (forall|k: int| 0 <= k < chat[name].blocked_users@.len() ==> (#[trigger] chat[name].blocked_users@[k])@ != me) {
        if names(chat[me].blocked_users@).contains(name) {
            let i = choose|i: int| 0 <= i < names(chat[me].blocked_users@).len() && names(chat[me].blocked_users@)[i] == name;
            assert(chat[me].blocked_users@[i]@ == name);
        }
        if names(chat[name].blocked_users@).contains(me) {
            let k = choose|k: int| 0 <= k < names(chat[name].blocked_users@).len() && names(chat[name].blocked_users@)[k] == me;
            assert(chat[name].blocked_users@[k]@ == me);
        }
    }
}

/// Whether `name` occurs in `list`.
fn contains_name(list: &Vec<String>, name: &String) -> (r: bool)
    ensures
        r == names(list@).contains(name@),
{
    let n = list.len();
    let mut i: usize = 0;
    while i < n
        invariant
            n == list@.len(),
            0 <= i <= n,
            forall|j: int| 0 <= j < i ==> names(list@)[j] != name@,
        decreases n - i,
    {
        if list[i] == *name {
            assert(names(list@)[i as int] == name@);
            return true;
        }
        i = i + 1;
    }
    false
}

/// Whether `username` may be taken by a new client.
///
/// Its first character must fit in one byte when it is there: the check
/// looks at the first byte alone.
pub fn is_valid_username(chat_map: &ChatMap, username: String) -> (r: bool)
    requires
        chat_map.wf(),
        first_is_one_byte(username@),
    ensures
        r == valid_username(chat_map@, username@),
        chat_map@.contains_key(username@) ==> !r,
        r <==> username@.len() > 0 && username@[0] != '/' && !chat_map@.contains_key(username@),
{
    let s = username.as_str();
    if s.is_empty() {
        return false;
    }
    if s.get_char(0) == '/' {
        return false;
    }
    !chat_map.contains_key(&username)
}

/// The clients that `username` can start a conversation with, each once.
pub fn available_users(chat_map: &ChatMap, username: String) -> (v: Vec<String>)
    requires
        chat_map.wf(),
        chat_map@.contains_key(username@),
    ensures
        names(v@).no_duplicates(),
        forall|name: Seq<char>| #[trigger] names(v@).contains(name)
            <==> available_to(chat_map@, username@, name),
        forall|i: int| #![trigger chat_map@[username@].blocked_users@[i]]
            0 <= i < chat_map@[username@].blocked_users@.len()
                ==> !names(v@).contains(chat_map@[username@].blocked_users@[i]@),
        forall|j: int| #![trigger names(v@)[j]] 0 <= j < v@.len() ==> {
            let n = names(v@)[j];
            &&& chat_map@.contains_key(n)
            &&& n != username@
            &&& chat_map@[n].partner is None
            &&& forall|k: int| 0 <= k < chat_map@[n].blocked_users@.len()
                ==> (#[trigger] chat_map@[n].blocked_users@[k])@ != username@
        },
{
    proof {
        chat_map.lemma_keys();
    }
    let mut v: Vec<String> = Vec::new();
    let my_blocked_users = &chat_map.get(&username).unwrap().blocked_users;
    let ghost ks = chat_map.key_seq();
    let ghost pred = |name: Seq<char>| available_to(chat_map@, username@, name);
    proof {
        lemma_collects_start(ks, pred);
        assert(names(v@) =~= Seq::<Seq<char>>::empty());
    }
    let n = chat_map.len();
    let mut i: usize = 0;
    while i < n
        invariant
            chat_map.wf(),
            chat_map@.contains_key(username@),
            ks == chat_map.key_seq(),
            ks.no_duplicates(),
            n == ks.len(),
            0 <= i <= n,
            *my_blocked_users == chat_map@[username@].blocked_users,
            pred == (|name: Seq<char>| available_to(chat_map@, username@, name)),
            collects(names(v@), ks, i as int, pred),
        decreases n - i,
    {
        let name = chat_map.key_at(i);
        let client_info = chat_map.value_at(i);
        proof {
            lemma_collects_step(names(v@), ks, i as int, pred);
        }
        if *name != username
            && client_info.partner.is_none()
            && !contains_name(&client_info.blocked_users, &username)
            && !contains_name(my_blocked_users, name)
        {
            let ghost old_v = v@;
            v.push(name.clone());
            assert(names(v@) =~= names(old_v).push(ks[i as int]));
        }
        i = i + 1;
    }
    proof {
        lemma_collects_done(names(v@), ks, pred);
        assert forall|i: int| #![trigger chat_map@[username@].blocked_users@[i]]
            0 <= i < chat_map@[username@].blocked_users@.len()
                implies !names(v@).contains(chat_map@[username@].blocked_users@[i]@) by {
            lemma_available_respects_blocks(chat_map@, username@, chat_map@[username@].blocked_users@[i]@);
        }
        assert forall|j: int| #![trigger names(v@)[j]] 0 <= j < v@.len() implies {
            let n = names(v@)[j];
            &&& chat_map@.contains_key(n)
            &&& n != username@
            &&& chat_map@[n].partner is None
            &&& forall|k: int| 0 <= k < chat_map@[n].blocked_users@.len()
                ==> (#[trigger] chat_map@[n].blocked_users@[k])@ != username@
        } by {
            let n = names(v@)[j];
            assert(names(v@).contains(n));
            lemma_available_respects_blocks(chat_map@, username@, n);
        }
    }
    v
}

/// Ends the conversation `username` is in: the client no longer has a
/// partner, and nothing else changes.
pub fn quit_conversation(chat_map: &mut ChatMap, username: String)
    requires
        old(chat_map).wf(),
        old(chat_map)@.contains_key(username@),
    ensures
        final(chat_map).wf(),
        final(chat_map)@ == after_quit(old(chat_map)@, username@),
        final(chat_map)@.dom() == old(chat_map)@.dom(),
        final(chat_map)@[username@].partner is None,
        final(chat_map)@[username@].blocked_users == old(chat_map)@[username@].blocked_users,
        final(chat_map)@[username@].sender_to_client == old(chat_map)@[username@].sender_to_client,
        forall|k: Seq<char>| #[trigger] old(chat_map)@.contains_key(k) && k != username@
            ==> final(chat_map)@[k] == old(chat_map)@[k],
{
    let info = chat_map.remove(&username).unwrap();
    let updated = ClientInfo {
        partner: None,
        sender_to_client: info.sender_to_client,
        blocked_users: info.blocked_users,
    };
    chat_map.insert(username, updated);
    proof {
        assert(chat_map@.dom() =~= old(chat_map)@.dom());
        assert(chat_map@ =~= after_quit(old(chat_map)@, username@));
    }
}

} // verus!

use std::sync::mpsc::{channel, Receiver};

use chat_server::message::Message;
use chat_server::server::Server;

fn deliver(server: &Server, msg: Message) -> Vec<(String, String)> {
    let mut seen = Vec::new();
    for o in server.send_message(msg) {
        o.sender.send(o.text.clone()).unwrap();
        seen.push((o.to.clone(), o.text.clone()));
    }
    seen.sort();
    seen
}

fn drain(r: &Receiver<String>) -> Vec<String> {
    r.try_iter().collect()
}

#[test]
fn add_user_refuses_a_taken_name() {
    let mut s = Server::new();
    assert!(s.add_user("alice".to_string()));
    assert!(s.add_user("bob".to_string()));
    assert!(!s.add_user("alice".to_string()));
    assert!(!s.add_user("bob".to_string()));
    assert!(s.add_user("Alice".to_string()));
}

#[test]
fn create_room_numbers_rooms_from_one() {
    let mut s = Server::new();
    assert_eq!(s.room_count(), 0);
    assert_eq!(s.create_room("lobby".to_string()), 1);
    assert_eq!(s.create_room("games".to_string()), 2);
    assert_eq!(s.create_room("lobby".to_string()), 3);
    assert_eq!(s.room_count(), 3);
    assert_eq!(
        s.room_listing(),
        vec![(1, "lobby".to_string()), (2, "games".to_string()), (3, "lobby".to_string())]
    );
}

#[test]
fn join_room_fails_for_unknown_rooms() {
    let mut s = Server::new();
    let (tx, _rx) = channel();
    assert!(s.join_room(1, "alice".to_string(), tx.clone()).is_none());
    assert!(s.join_room(0, "alice".to_string(), tx.clone()).is_none());
    s.create_room("lobby".to_string());
    assert!(s.join_room(2, "alice".to_string(), tx.clone()).is_none());
    assert!(s.join_room(1, "alice".to_string(), tx).is_some());
}

#[test]
fn join_room_announces_the_newcomer() {
    let mut s = Server::new();
    let id = s.create_room("lobby".to_string());
    let (tx_a, rx_a) = channel();
    let (tx_b, rx_b) = channel();
    let notice = s.join_room(id, "alice".to_string(), tx_a).unwrap();
    assert_eq!(notice.from(), "Server");
    assert_eq!(notice.room_id(), 1);
    assert_eq!(notice.content(), "alice has joined lobby.\n");
    assert_eq!(
        deliver(&s, notice),
        vec![("alice".to_string(), "Server: alice has joined lobby.\n\n".to_string())]
    );
    let notice = s.join_room(id, "bob".to_string(), tx_b).unwrap();
    assert_eq!(deliver(&s, notice).len(), 2);
    assert_eq!(drain(&rx_a), vec!["Server: alice has joined lobby.\n\n".to_string(),
                                  "Server: bob has joined lobby.\n\n".to_string()]);
    assert_eq!(drain(&rx_b), vec!["Server: bob has joined lobby.\n\n".to_string()]);
}

#[test]
fn send_message_skips_the_sender() {
    let mut s = Server::new();
    let id = s.create_room("lobby".to_string());
    let (tx_a, rx_a) = channel();
    let (tx_b, rx_b) = channel();
    let (tx_c, rx_c) = channel();
    s.join_room(id, "a".to_string(), tx_a);
    s.join_room(id, "b".to_string(), tx_b);
    s.join_room(id, "c".to_string(), tx_c);
    drain(&rx_a);
    drain(&rx_b);
    drain(&rx_c);
    let seen = deliver(&s, Message::new("b".to_string(), id, "hello".to_string()));
    assert_eq!(
        seen,
        vec![("a".to_string(), "b: hello\n".to_string()), ("c".to_string(), "b: hello\n".to_string())]
    );
    assert_eq!(drain(&rx_a), vec!["b: hello\n".to_string()]);
    assert!(drain(&rx_b).is_empty());
    assert_eq!(drain(&rx_c), vec!["b: hello\n".to_string()]);
}

#[test]
fn send_message_to_unknown_room_reaches_nobody() {
    let mut s = Server::new();
    let id = s.create_room("lobby".to_string());
    let (tx, _rx) = channel();
    s.join_room(id, "a".to_string(), tx);
    assert!(s.send_message(Message::new("b".to_string(), 7, "x".to_string())).is_empty());
    assert!(s.send_message(Message::new("b".to_string(), 0, "x".to_string())).is_empty());
}

#[test]
fn messages_stay_in_their_room() {
    let mut s = Server::new();
    let r1 = s.create_room("one".to_string());
    let r2 = s.create_room("two".to_string());
    let (tx_a, _ra) = channel();
    let (tx_b, _rb) = channel();
    s.join_room(r1, "a".to_string(), tx_a);
    s.join_room(r2, "b".to_string(), tx_b);
    let seen = deliver(&s, Message::new("x".to_string(), r1, "hi".to_string()));
    assert_eq!(seen, vec![("a".to_string(), "x: hi\n".to_string())]);
}

#[test]
fn leave_room_undoes_join_room() {
    let mut s = Server::new();
    let id = s.create_room("lobby".to_string());
    let (tx_a, _ra) = channel();
    let (tx_b, _rb) = channel();
    s.join_room(id, "a".to_string(), tx_a);
    s.join_room(id, "b".to_string(), tx_b);
    s.leave_room(id, "b".to_string());
    let seen = deliver(&s, Message::new("x".to_string(), id, "hi".to_string()));
    assert_eq!(seen, vec![("a".to_string(), "x: hi\n".to_string())]);
    s.leave_room(id, "b".to_string());
    s.leave_room(5, "a".to_string());
    let seen = deliver(&s, Message::new("x".to_string(), id, "hi".to_string()));
    assert_eq!(seen, vec![("a".to_string(), "x: hi\n".to_string())]);
    s.leave_room(id, "a".to_string());
    assert!(s.send_message(Message::new("x".to_string(), id, "hi".to_string())).is_empty());
}

#[test]
fn a_new_room_can_be_joined_at_once() {
    let mut s = Server::new();
    s.create_room("first".to_string());
    let id = s.create_room("second".to_string());
    let (tx, rx) = channel();
    let notice = s.join_room(id, "zoe".to_string(), tx).unwrap();
    deliver(&s, notice);
    assert_eq!(drain(&rx), vec!["Server: zoe has joined second.\n\n".to_string()]);
    assert_eq!(s.room_listing()[0], (1, "first".to_string()));
}

#[test]
fn joining_records_the_room_and_leaving_clears_it() {
    let mut s = Server::new();
    assert!(s.add_user("amy".to_string()));
    assert_eq!(s.room_of_user(&"amy".to_string()), Some(0));
    let r1 = s.create_room("one".to_string());
    let r2 = s.create_room("two".to_string());
    let (tx, _rx) = channel();
    s.join_room(r1, "amy".to_string(), tx.clone());
    assert_eq!(s.room_of_user(&"amy".to_string()), Some(r1));
    s.join_room(r2, "amy".to_string(), tx.clone());
    assert_eq!(s.room_of_user(&"amy".to_string()), Some(r2));
    s.leave_room(r1, "amy".to_string());
    assert_eq!(s.room_of_user(&"amy".to_string()), Some(r2));
    s.leave_room(r2, "amy".to_string());
    assert_eq!(s.room_of_user(&"amy".to_string()), Some(0));
    assert!(s.join_room(9, "amy".to_string(), tx.clone()).is_none());
    assert_eq!(s.room_of_user(&"amy".to_string()), Some(0));
}

#[test]
fn joining_does_not_register_anyone() {
    let mut s = Server::new();
    let id = s.create_room("one".to_string());
    let (tx, _rx) = channel();
    s.join_room(id, "ghost".to_string(), tx);
    assert_eq!(s.room_of_user(&"ghost".to_string()), None);
    assert!(s.add_user("ghost".to_string()));
}

#[test]
fn open_room_trims_the_name_and_joins() {
    let mut s = Server::new();
    s.create_room("first".to_string());
    s.add_user("amy".to_string());
    let (tx, rx) = channel();
    let (id, notice) = s.open_room("  Games Night \r\n", "amy".to_string(), tx);
    assert_eq!(id, 2);
    assert_eq!(notice.content(), "amy has joined Games Night.\n");
    deliver(&s, notice);
    assert_eq!(drain(&rx), vec!["Server: amy has joined Games Night.\n\n".to_string()]);
    assert_eq!(s.room_listing()[1], (2, "Games Night".to_string()));
    assert_eq!(s.room_of_user(&"amy".to_string()), Some(2));
}

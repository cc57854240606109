use std::sync::mpsc::channel;

use chat_server::roommap::Room;

#[test]
fn room_tracks_its_members() {
    let mut r = Room::new("lobby".to_string());
    assert_eq!(r.name(), "lobby");
    assert_eq!(r.size(), 0);
    let (tx, rx) = channel();
    r.add_member("a".to_string(), tx.clone());
    r.add_member("b".to_string(), tx.clone());
    assert_eq!(r.size(), 2);
    r.add_member("a".to_string(), tx);
    assert_eq!(r.size(), 2);
    assert!(r.members().contains_key(&"a".to_string()));
    r.members().get(&"b".to_string()).unwrap().send("ping".to_string()).unwrap();
    assert_eq!(rx.recv().unwrap(), "ping");
    r.remove_member("a".to_string());
    assert_eq!(r.size(), 1);
    assert!(!r.members().contains_key(&"a".to_string()));
    r.remove_member("nobody".to_string());
    assert_eq!(r.size(), 1);
}

use std::sync::mpsc::channel;

use chat_server::chatmap::{available_users, is_valid_username, quit_conversation, ChatMap, ClientInfo};

fn client(partner: Option<&str>, blocked: &[&str]) -> ClientInfo {
    let (sender, _) = channel();
    ClientInfo {
        partner: partner.map(|p| p.to_string()),
        sender_to_client: sender,
        blocked_users: blocked.iter().map(|b| b.to_string()).collect(),
    }
}

fn fixture() -> ChatMap {
    let mut cm = ChatMap::new();
    for name in ["a", "b", "c", "d", "e"] {
        cm.insert(name.to_string(), client(None, &[]));
    }
    cm
}

fn set_partner(cm: &mut ChatMap, name: &str, partner: &str) {
    let mut info = cm.remove(&name.to_string()).unwrap();
    info.partner = Some(partner.to_string());
    cm.insert(name.to_string(), info);
}

#[test]
fn is_valid_username_test_valid() {
    let cm = fixture();
    assert!(is_valid_username(&cm, "f".to_string()));
    assert!(is_valid_username(&cm, "g".to_string()));
    assert!(is_valid_username(&cm, "7".to_string()));
    assert!(is_valid_username(&cm, ".".to_string()));
    assert!(is_valid_username(&cm, "hello".to_string()));
}

#[test]
fn is_valid_username_test_invalid() {
    let cm = fixture();
    assert!(!is_valid_username(&cm, "e".to_string()));
    assert!(!is_valid_username(&cm, "".to_string()));
    assert!(!is_valid_username(&cm, "/f".to_string()));
    assert!(!is_valid_username(&cm, "/hello".to_string()));
}

#[test]
fn available_users_test_1() {
    let cm = fixture();
    let avail = available_users(&cm, "a".to_string());
    assert!(avail.contains(&"b".to_string()));
    assert!(avail.contains(&"c".to_string()));
    assert!(avail.contains(&"d".to_string()));
    assert!(avail.contains(&"e".to_string()));
}

#[test]
fn available_users_test_2() {
    let mut cm = fixture();

    // Set c and d as partners
    set_partner(&mut cm, "c", "d");
    set_partner(&mut cm, "d", "c");

    let avail = available_users(&cm, "a".to_string());
    assert!(avail.contains(&"b".to_string()));
    assert!(!avail.contains(&"c".to_string()));
    assert!(!avail.contains(&"d".to_string()));
    assert!(avail.contains(&"e".to_string()));
}

#[test]
fn available_users_excludes_self_and_lists_each_once() {
    let cm = fixture();
    let avail = available_users(&cm, "a".to_string());
    assert!(!avail.contains(&"a".to_string()));
    assert_eq!(avail.len(), 4);
}

#[test]
fn available_users_respects_blocking_both_ways() {
    let mut cm = ChatMap::new();
    cm.insert("a".to_string(), client(None, &["b"]));
    cm.insert("b".to_string(), client(None, &[]));
    cm.insert("c".to_string(), client(None, &["a"]));
    cm.insert("d".to_string(), client(None, &[]));
    let avail = available_users(&cm, "a".to_string());
    assert_eq!(avail, vec!["d".to_string()]);
}

#[test]
fn quit_conversation_clears_only_the_partner() {
    let mut cm = fixture();
    set_partner(&mut cm, "a", "b");
    set_partner(&mut cm, "b", "a");
    quit_conversation(&mut cm, "a".to_string());
    assert_eq!(cm.get(&"a".to_string()).unwrap().partner, None);
    assert_eq!(cm.get(&"b".to_string()).unwrap().partner, Some("a".to_string()));
    assert_eq!(cm.len(), 5);
}

#[test]
fn quit_conversation_makes_user_available_again() {
    let mut cm = fixture();
    set_partner(&mut cm, "a", "b");
    assert!(!available_users(&cm, "c".to_string()).contains(&"a".to_string()));
    quit_conversation(&mut cm, "a".to_string());
    assert!(available_users(&cm, "c".to_string()).contains(&"a".to_string()));
}

use chat_server::client::{interpret_line, normalize_input, parse_room_choice, ClientStep, RoomChoice};
use chat_server::command::Command;
use chat_server::message::Message;

#[test]
fn normalize_input_trims_and_lowers() {
    assert_eq!(normalize_input("  Alice \r\n"), "alice");
    assert_eq!(normalize_input("bob"), "bob");
    assert_eq!(normalize_input("\t\n"), "");
}

#[test]
fn parse_room_choice_reads_new_and_numbers() {
    assert_eq!(parse_room_choice("new\n"), RoomChoice::New);
    assert_eq!(parse_room_choice("  NEW  "), RoomChoice::New);
    assert_eq!(parse_room_choice("3\n"), RoomChoice::Join(3));
    assert_eq!(parse_room_choice(" +12 "), RoomChoice::Join(12));
    assert_eq!(parse_room_choice("0"), RoomChoice::Join(0));
}

#[test]
fn parse_room_choice_rejects_other_text() {
    assert_eq!(parse_room_choice("newer"), RoomChoice::Invalid);
    assert_eq!(parse_room_choice("-1"), RoomChoice::Invalid);
    assert_eq!(parse_room_choice("+"), RoomChoice::Invalid);
    assert_eq!(parse_room_choice(""), RoomChoice::Invalid);
    assert_eq!(parse_room_choice("1 2"), RoomChoice::Invalid);
    assert_eq!(parse_room_choice("99999999999999999999999"), RoomChoice::Invalid);
}

fn broadcast(step: ClientStep) -> Message {
    match step {
        ClientStep::Broadcast(m) => m,
        _ => panic!("expected a message"),
    }
}

#[test]
fn interpret_line_reads_chat_and_commands() {
    let me = "amy".to_string();
    assert!(matches!(interpret_line(&me, 2, "".to_string()), ClientStep::Ignore));
    let m = broadcast(interpret_line(&me, 2, "Hello /all".to_string()));
    assert_eq!(m.from(), "amy");
    assert_eq!(m.room_id(), 2);
    assert_eq!(m.content(), "Hello /all");
    assert!(matches!(interpret_line(&me, 2, "/q".to_string()), ClientStep::LeaveRoom));
    assert!(matches!(interpret_line(&me, 2, "/QUIT".to_string()), ClientStep::LeaveRoom));
    assert!(matches!(interpret_line(&me, 2, "/logoff".to_string()), ClientStep::Logoff));
    assert!(matches!(interpret_line(&me, 2, "/help".to_string()), ClientStep::Unsupported(Command::Help)));
    assert!(matches!(interpret_line(&me, 2, "/list".to_string()), ClientStep::Unsupported(Command::DisplayRooms)));
    assert!(matches!(interpret_line(&me, 2, "/x".to_string()), ClientStep::Unsupported(Command::Unrecognized)));
}

#[test]
fn message_keeps_its_parts() {
    let m = Message::new("a".to_string(), 4, "text".to_string());
    assert_eq!(m.from(), "a");
    assert_eq!(m.room_id(), 4);
    assert_eq!(m.content(), "text");
}

#[test]
fn normalize_input_trims_unicode_white_space() {
    assert_eq!(normalize_input("\u{3000}NEW\u{a0}\u{2029}"), "new");
    assert_eq!(parse_room_choice("\u{85}7\u{2003}"), RoomChoice::Join(7));
    assert_eq!(normalize_input("a\u{200b}"), "a\u{200b}");
}

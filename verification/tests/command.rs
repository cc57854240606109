use chat_server::command::{command_from_lowercase, parse_command, Command};

#[test]
fn parse_command_test_q() {
    let cmd = "/q".to_string();
    assert_eq!(Command::Quit, parse_command(cmd));
}

#[test]
fn parse_command_test_quit() {
    let cmd = "/quit".to_string();
    assert_eq!(Command::Quit, parse_command(cmd));
}

#[test]
fn parse_command_test_list() {
    let cmd = "/list".to_string();
    assert_eq!(Command::DisplayRooms, parse_command(cmd));
}

#[test]
fn parse_command_test_help() {
    let cmd = "/help".to_string();
    assert_eq!(Command::Help, parse_command(cmd));
}

#[test]
fn parse_command_test_logoff() {
    let cmd = "/logoff".to_string();
    assert_eq!(Command::Logoff, parse_command(cmd));
}

#[test]
fn parse_command_test_unrecognized() {
    let cmd = "/hello".to_string();
    assert_eq!(Command::Unrecognized, parse_command(cmd));
    let cmd = "/blah".to_string();
    assert_eq!(Command::Unrecognized, parse_command(cmd));
    let cmd = "/a".to_string();
    assert_eq!(Command::Unrecognized, parse_command(cmd));
    let cmd = "/".to_string();
    assert_eq!(Command::Unrecognized, parse_command(cmd));
    let cmd = "quit".to_string();
    assert_eq!(Command::Unrecognized, parse_command(cmd));
    let cmd = "list".to_string();
    assert_eq!(Command::Unrecognized, parse_command(cmd));
    let cmd = "help".to_string();
    assert_eq!(Command::Unrecognized, parse_command(cmd));
    let cmd = "logoff".to_string();
    assert_eq!(Command::Unrecognized, parse_command(cmd));
}

#[test]
fn parse_command_ignores_case() {
    assert_eq!(Command::Quit, parse_command("/QUIT".to_string()));
    assert_eq!(Command::Quit, parse_command("/Q".to_string()));
    assert_eq!(Command::DisplayRooms, parse_command("/List".to_string()));
    assert_eq!(Command::Logoff, parse_command("/LogOff".to_string()));
}

#[test]
fn command_from_lowercase_is_case_sensitive() {
    assert_eq!(Command::Help, command_from_lowercase(&"/help".to_string()));
    assert_eq!(Command::Unrecognized, command_from_lowercase(&"/HELP".to_string()));
    assert_eq!(Command::Unrecognized, command_from_lowercase(&"/quit ".to_string()));
}

#[test]
fn command_equality_compares_variants() {
    assert!(Command::Quit == Command::Quit);
    assert!(Command::Quit != Command::Logoff);
    assert!(Command::Help != Command::DisplayRooms);
    assert!(Command::Unrecognized == Command::Unrecognized);
}

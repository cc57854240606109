//! What a client's input means: the user name or room choice a line gives,
//! and what to do with each line typed while in a room.
use vstd::prelude::*;
use crate::command::{command_for, parse_command, Command};
use crate::message::{Message, MessageView};
use crate::text::{
    decimal_value, first_is_one_byte, is_numeral, lowercase_of, numeral_digits, parse_usize,
    to_lowercase, trim, trimmed,
};

verus! {

/// What to do with a line typed by a client in a room.
pub enum ClientStep {
    /// The line is empty: nothing happens.
    Ignore,
    /// The line is chat: pass this message on to the room.
    Broadcast(Message),
    /// The client typed the quit command: leave the room.
    LeaveRoom,
    /// The client typed the log-off command: close the connection.
    Logoff,
    /// The client typed a command that is not served in a room.
    Unsupported(Command),
}

/// The answer to the question which room to join.
#[derive(Debug, Clone, Copy, PartialEq, Eq, Structural)]
pub enum RoomChoice {
    /// Create a new room.
    New,
    /// Join the room with this id.
    Join(usize),
    /// The answer means nothing.
    Invalid,
}

/// A typed line as the server reads names and choices: trimmed, then in
/// lower case.
pub open spec fn normalized(line: Seq<char>) -> Seq<char> {
    lowercase_of(trimmed(line))
}

/// Whether a line is a command: it starts with `/`.
pub open spec fn is_command_line(line: Seq<char>) -> bool {
    line.len() > 0 && line[0] == '/'
}

/// Trims a typed line and puts it in lower case.
pub fn normalize_input(line: &str) -> (r: String)
    ensures
        r@ == normalized(line@),
{
    to_lowercase(trim(line))
}

/// Reads the answer to the question which room to join: `new`, or a room
/// id, in any case and with white space around it.
pub fn parse_room_choice(line: &str) -> (c: RoomChoice)
    ensures
        ({
            let choice = normalized(line@);
            match c {
                RoomChoice::New => choice == "new"@,
                RoomChoice::Join(n) => choice != "new"@ && is_numeral(choice)
                    && n as nat == decimal_value(numeral_digits(choice)),
                RoomChoice::Invalid => choice != "new"@
                    && !(is_numeral(choice) && decimal_value(numeral_digits(choice)) <= usize::MAX),
            }
        }),
{
    let choice = normalize_input(line);
    if choice == "new".to_owned() {
        return RoomChoice::New;
    }
    match parse_usize(choice.as_str()) {
        Some(n) => RoomChoice::Join(n),
        None => RoomChoice::Invalid,
    }
}

/// What to do with `line`, typed by `username` in room `room_id`.
///
/// The first character of the line must fit in one byte when it is there:
/// whether the line is a command is read from its first byte alone.
pub fn interpret_line(username: &String, room_id: usize, line: String) -> (step: ClientStep)
    requires
        first_is_one_byte(line@),
    ensures
        match step {
            ClientStep::Ignore => line@.len() == 0,
            ClientStep::Broadcast(m) => line@.len() > 0 && !is_command_line(line@)
                && m@ == (MessageView { from: username@, room_id: room_id, content: line@ }),
            ClientStep::LeaveRoom => is_command_line(line@)
                && command_for(lowercase_of(line@)) == Command::Quit,
            ClientStep::Logoff => is_command_line(line@)
                && command_for(lowercase_of(line@)) == Command::Logoff,
            ClientStep::Unsupported(c) => is_command_line(line@)
                && c == command_for(lowercase_of(line@))
                && c != Command::Quit && c != Command::Logoff,
        },
{
    if line.as_str().is_empty() {
        return ClientStep::Ignore;
    }
    if line.as_str().get_char(0) == '/' {
        match parse_command(line) {
            Command::Quit => ClientStep::LeaveRoom,
            Command::Logoff => ClientStep::Logoff,
            c => ClientStep::Unsupported(c),
        }
    } else {
        ClientStep::Broadcast(Message::new(username.clone(), room_id, line))
    }
}

} // verus!

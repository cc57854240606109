//! The commands a client can type, and how a line is read as one.
use vstd::prelude::*;
use crate::text::{lowercase_of, to_lowercase};

verus! {

/// A command typed by a client.
#[derive(Debug, Clone, Copy)]
pub enum Command {
    Quit,
    DisplayRooms,
    Help,
    Logoff,
    Unrecognized,
}

impl PartialEq for Command {
    fn eq(&self, other: &Self) -> (r: bool) {
        match (self, other) {
            (Command::Quit, Command::Quit) => true,
            (Command::DisplayRooms, Command::DisplayRooms) => true,
            (Command::Help, Command::Help) => true,
            (Command::Logoff, Command::Logoff) => true,
            (Command::Unrecognized, Command::Unrecognized) => true,
            _ => false,
        }
    }
}

impl vstd::std_specs::cmp::PartialEqSpecImpl for Command {
    open spec fn obeys_eq_spec() -> bool {
        true
    }

    open spec fn eq_spec(&self, other: &Self) -> bool {
        *self == *other
    }
}

/// The command that a line denotes once it has been put in lower case.
pub open spec fn command_for(lowered: Seq<char>) -> Command {
    if lowered == "/q"@ || lowered == "/quit"@ {
        Command::Quit
    } else if lowered == "/list"@ {
        Command::DisplayRooms
    } else if lowered == "/help"@ {
        Command::Help
    } else if lowered == "/logoff"@ {
        Command::Logoff
    } else {
        Command::Unrecognized
    }
}

/// Only a line that starts with `/` can be a command: any other line reads
/// as unrecognized, and each recognized command is spelled by a short word
/// after the `/`.
pub proof fn lemma_commands_start_with_slash(lowered: Seq<char>)
    ensures
        !(lowered.len() > 0 && lowered[0] == '/') ==> command_for(lowered) == Command::Unrecognized,
        command_for(lowered) != Command::Unrecognized ==> lowered.len() > 0 && lowered[0] == '/'
            && 2 <= lowered.len() <= 7,
        command_for(lowered) == Command::Quit ==> lowered.len() == 2 || lowered.len() == 5,
{
    reveal_strlit("/q");
    reveal_strlit("/quit");
    reveal_strlit("/list");
    reveal_strlit("/help");
    reveal_strlit("/logoff");
}

/// Whether `s` spells exactly the literal `lit`.
fn spells(s: &String, lit: &str) -> (r: bool)
    ensures
        r == (s@ == lit@),
{
    *s == lit.to_owned()
}

/// Reads a line that is already in lower case as a command.
pub fn command_from_lowercase(lowered: &String) -> (c: Command)
    ensures
        c == command_for(lowered@),
{
    if spells(lowered, "/q") || spells(lowered, "/quit") {
        Command::Quit
    } else if spells(lowered, "/list") {
        Command::DisplayRooms
    } else if spells(lowered, "/help") {
        Command::Help
    } else if spells(lowered, "/logoff") {
        Command::Logoff
    } else {
        Command::Unrecognized
    }
}

/// Reads a line as a command, ignoring case.
pub fn parse_command(cmd: String) -> (c: Command)
    ensures
        c == command_for(lowercase_of(cmd@)),
{
    let lowered = to_lowercase(cmd.as_str());
    command_from_lowercase(&lowered)
}

} // verus!

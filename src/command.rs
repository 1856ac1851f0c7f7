//! The commands a client can type.
use vstd::prelude::*;
use crate::text::{join, join_from, split_words, views, words};

verus! {

/// A line typed by a client, read as a command.
pub enum Command {
    /// `/join <room>`: move to a room.
    Join(String),
    /// `/name <name>`: take another display name.
    Name(String),
    /// `/allusers`: list every connected user.
    AllUsers,
    /// `/users`: list the members of the current room.
    Users,
    /// `/rooms`: list the rooms with their member counts.
    ListRooms,
    /// `/renameroom <name>`: rename the current room.
    RenameRoom(String),
    /// `/help`: show the help text.
    Help,
    /// `/quit`: end the session.
    Quit,
    /// Any other non-empty line: say it to the room.
    Say,
    /// An empty line.
    Nothing,
}

/// The meaning of a command.
pub enum CommandView {
    Join(Seq<char>),
    Name(Seq<char>),
    AllUsers,
    Users,
    ListRooms,
    RenameRoom(Seq<char>),
    Help,
    Quit,
    Say,
    Nothing,
}

impl View for Command {
    type V = CommandView;

    open spec fn view(&self) -> CommandView {
        match self {
            Command::Join(s) => CommandView::Join(s@),
            Command::Name(s) => CommandView::Name(s@),
            Command::AllUsers => CommandView::AllUsers,
            Command::Users => CommandView::Users,
            Command::ListRooms => CommandView::ListRooms,
            Command::RenameRoom(s) => CommandView::RenameRoom(s@),
            Command::Help => CommandView::Help,
            Command::Quit => CommandView::Quit,
            Command::Say => CommandView::Say,
            Command::Nothing => CommandView::Nothing,
        }
    }
}

/// The words after the first, joined by single spaces.
pub open spec fn argument(line: Seq<char>) -> Seq<char> {
    join(words(line).drop_first())
}

/// What `line` asks for: its first word names the command, and the words
/// after it, joined by single spaces, are the argument.
pub open spec fn command_of(line: Seq<char>) -> CommandView {
    let w = words(line);
    if line.len() == 0 {
        CommandView::Nothing
    } else if w.len() == 0 {
        CommandView::Say
    } else if w[0] == "/join"@ {
        CommandView::Join(argument(line))
    } else if w[0] == "/name"@ {
        CommandView::Name(argument(line))
    } else if w[0] == "/allusers"@ {
        CommandView::AllUsers
    } else if w[0] == "/users"@ {
        CommandView::Users
    } else if w[0] == "/rooms"@ {
        CommandView::ListRooms
    } else if w[0] == "/renameroom"@ {
        CommandView::RenameRoom(argument(line))
    } else if w[0] == "/help"@ {
        CommandView::Help
    } else if w[0] == "/quit"@ {
        CommandView::Quit
    } else {
        CommandView::Say
    }
}

fn is_word(w: &String, lit: &str) -> (r: bool)
    ensures
        r == (w@ == lit@),
{
    *w == String::from_str(lit)
}

/// Reads `line` as a command.
pub fn parse_command(line: &str) -> (r: Command)
    ensures
        r@ == command_of(line@),
{
    if line.unicode_len() == 0 {
        return Command::Nothing;
    }
    let w = split_words(line);
    if w.len() == 0 {
        return Command::Say;
    }
    assert(views(w@)[0] == w@[0]@);
    assert(views(w@).skip(1) =~= words(line@).drop_first());
    let first = &w[0];
    if is_word(first, "/join") {
        Command::Join(join_from(&w, 1))
    } else if is_word(first, "/name") {
        Command::Name(join_from(&w, 1))
    } else if is_word(first, "/allusers") {
        Command::AllUsers
    } else if is_word(first, "/users") {
        Command::Users
    } else if is_word(first, "/rooms") {
        Command::ListRooms
    } else if is_word(first, "/renameroom") {
        Command::RenameRoom(join_from(&w, 1))
    } else if is_word(first, "/help") {
        Command::Help
    } else if is_word(first, "/quit") {
        Command::Quit
    } else {
        Command::Say
    }
}

} // verus!

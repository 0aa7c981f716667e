//! The commands of the console of a server.

use vstd::prelude::*;
use vstd::string::StringExecFns;
use crate::text::{chars_of, is_text, trim, trimmed, word_at, word_from};

verus! {

/// What a line of the console asks for.
pub enum ConsoleCommand {
    /// The list of commands.
    Help,
    /// A trace of the tasks of the server.
    Dump,
    /// Everything is to be saved, and the server is to end.
    Exit,
    /// A word that is no command.
    Unknown(String),
    /// Nothing: the line is empty.
    Nothing,
}

/// The first word of a line, without the white space around it.
pub open spec fn keyword_of(line: Seq<char>) -> Seq<char> {
    trimmed(word_at(line, 0))
}

/// Reads a line of the console: its first word, up to the first space and
/// without the white space around it, decides.
pub fn parse_console_command(line: &str) -> (command: ConsoleCommand)
    ensures
        match command {
            ConsoleCommand::Help => keyword_of(line@) == "help"@ || keyword_of(line@) == "?"@,
            ConsoleCommand::Dump => keyword_of(line@) == "dump"@,
            ConsoleCommand::Exit => keyword_of(line@) == "exit"@,
            ConsoleCommand::Nothing => keyword_of(line@) == ""@,
            ConsoleCommand::Unknown(word) => {
                &&& word@ == keyword_of(line@)
                &&& word@ != "help"@
                &&& word@ != "?"@
                &&& word@ != "dump"@
                &&& word@ != "exit"@
                &&& word@ != ""@
            },
        },
{
    let chars = chars_of(line);
    let raw_keyword = word_from(chars.as_slice(), 0);
    let keyword = trim(raw_keyword.as_str());
    if is_text(&keyword, "help") || is_text(&keyword, "?") {
        ConsoleCommand::Help
    } else if is_text(&keyword, "dump") {
        ConsoleCommand::Dump
    } else if is_text(&keyword, "exit") {
        ConsoleCommand::Exit
    } else if is_text(&keyword, "") {
        ConsoleCommand::Nothing
    } else {
        ConsoleCommand::Unknown(keyword)
    }
}

/// The list of commands, line by line.
pub fn print_help() -> (lines: Vec<String>)
    ensures
        lines@.len() == 3,
        lines@[0]@ == "help - Print this help"@,
        lines@[1]@ == "dump - Show stacktrace of all async tasks (dangerous!)"@,
        lines@[2]@ == "exit - Save everything and exit"@,
{
    let mut lines: Vec<String> = Vec::new();
    lines.push(String::from_str("help - Print this help"));
    lines.push(String::from_str("dump - Show stacktrace of all async tasks (dangerous!)"));
    lines.push(String::from_str("exit - Save everything and exit"));
    lines
}

} // verus!

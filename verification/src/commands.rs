//! The commands of the editor, read from a command line without addresses.
use vstd::prelude::*;

verus! {

/// A command of the line editor, as read from one command line.
pub enum Operation {
    Quit,
    Error(&'static str),
    TogglePrompt,
    Insert,
    Append,
    Write(String),
    ToggleVerbose,
    Print,
}

/// An [`Operation`] with its strings taken as their characters.
pub enum OperationView {
    Quit,
    Error(Seq<char>),
    TogglePrompt,
    Insert,
    Append,
    Write(Seq<char>),
    ToggleVerbose,
    Print,
}

impl View for Operation {
    type V = OperationView;

    open spec fn view(&self) -> OperationView {
        match self {
            Operation::Quit => OperationView::Quit,
            Operation::Error(m) => OperationView::Error(m@),
            Operation::TogglePrompt => OperationView::TogglePrompt,
            Operation::Insert => OperationView::Insert,
            Operation::Append => OperationView::Append,
            Operation::Write(file) => OperationView::Write(file@),
            Operation::ToggleVerbose => OperationView::ToggleVerbose,
            Operation::Print => OperationView::Print,
        }
    }
}

/// The character that names the command in `rest`: its first one, or a
/// space when it is empty.
pub open spec fn command_name(rest: Seq<char>) -> char {
    if rest.len() > 0 {
        rest[0]
    } else {
        ' '
    }
}

/// The message of a command line that names no command.
pub open spec fn unknown_command_message() -> Seq<char> {
    seq!['U', 'n', 'k', 'n', 'o', 'w', 'n', ' ', 'c', 'o', 'm', 'm', 'a', 'n', 'd']
}

/// The command that the line `s` names by its first character; `w` takes
/// the rest of the line as the file to write.
pub open spec fn read_command(s: Seq<char>) -> OperationView {
    let name = command_name(s);
    if name == 'q' || name == 'Q' {
        OperationView::Quit
    } else if name == 'P' {
        OperationView::TogglePrompt
    } else if name == 'i' {
        OperationView::Insert
    } else if name == 'a' {
        OperationView::Append
    } else if name == 'w' {
        OperationView::Write(s.skip(1))
    } else if name == 'H' {
        OperationView::ToggleVerbose
    } else if name == 'p' {
        OperationView::Print
    } else {
        OperationView::Error(unknown_command_message())
    }
}

/// A plain `w` writes to everything that follows it on the line, exactly.
pub proof fn lemma_plain_write_names_the_rest(name: Seq<char>)
    ensures
        read_command(seq!['w'] + name) == OperationView::Write(name),
{
    assert((seq!['w'] + name)[0] == 'w');
    assert((seq!['w'] + name).skip(1) == name);
}

/// The first character of `s`, or a space when `s` is empty.
pub fn first_char_or_space(s: &str) -> (c: char)
    ensures
        c == command_name(s@),
{
    let n = s.unicode_len();
    if n > 0 {
        s.get_char(0)
    } else {
        ' '
    }
}

/// The message given for a line that names no command.
pub fn unknown_command() -> (m: &'static str)
    ensures
        m@ == unknown_command_message(),
{
    let m = "Unknown command";
    proof {
        reveal_strlit("Unknown command");
    }
    assert(m@ == unknown_command_message());
    m
}

/// Reads the command that `command` names by its first character.
pub fn parse_command(command: &str) -> (op: Operation)
    ensures
        op@ == read_command(command@),
{
    let name = first_char_or_space(command);
    if name == 'q' || name == 'Q' {
        Operation::Quit
    } else if name == 'P' {
        Operation::TogglePrompt
    } else if name == 'i' {
        Operation::Insert
    } else if name == 'a' {
        Operation::Append
    } else if name == 'w' {
        let n = command.unicode_len();
        Operation::Write(command.substring_char(1, n).to_owned())
    } else if name == 'H' {
        Operation::ToggleVerbose
    } else if name == 'p' {
        Operation::Print
    } else {
        Operation::Error(unknown_command())
    }
}

} // verus!

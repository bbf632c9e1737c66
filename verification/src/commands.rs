//! The commands that the program answers besides caption requests.

use vstd::prelude::*;

verus! {

/// A command, as told apart by its name.
#[derive(Clone, Copy, Debug, PartialEq, Eq, Structural)]
pub enum Command {
    /// How to write a request.
    Help,
    /// Who and what made this program possible.
    Credits,
    /// Searching formats, which is not offered yet.
    SearchMemes,
    /// What is known of one format.
    MemeInfo,
    /// The identifiers of all formats.
    ListMemes,
}

/// The command that a name stands for.
pub open spec fn command_named(name: Seq<char>) -> Option<Command> {
    if name == "help"@ {
        Some(Command::Help)
    } else if name == "credits"@ {
        Some(Command::Credits)
    } else if name == "searchmemes"@ {
        Some(Command::SearchMemes)
    } else if name == "memeinfo"@ {
        Some(Command::MemeInfo)
    } else if name == "listmemes"@ {
        Some(Command::ListMemes)
    } else {
        None
    }
}

/// Tells whether two texts are the same.
pub fn same_text(a: &str, b: &str) -> (same: bool)
    ensures
        same == (a@ == b@),
{
    a.to_owned() == b.to_owned()
}

impl Command {
    /// Tells a command by its name; an unknown name gives none.
    pub fn from_name(name: &str) -> (command: Option<Command>)
        ensures
            command == command_named(name@),
    {
        if same_text(name, "help") {
            Some(Command::Help)
        } else if same_text(name, "credits") {
            Some(Command::Credits)
        } else if same_text(name, "searchmemes") {
            Some(Command::SearchMemes)
        } else if same_text(name, "memeinfo") {
            Some(Command::MemeInfo)
        } else if same_text(name, "listmemes") {
            Some(Command::ListMemes)
        } else {
            None
        }
    }
}

} // verus!

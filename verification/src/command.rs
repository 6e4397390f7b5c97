//! The command line: which command the arguments ask for, and with what.

use vstd::prelude::*;
use vstd::string::*;
use crate::error::AppError;
use crate::list::texts;

verus! {

/// What a command line asks for.
pub enum Request {
    /// Append these texts to the list.
    Add(Seq<Seq<char>>),
    /// Take the entries that these arguments name out of the list.
    Done(Seq<Seq<char>>),
    /// Show the list.
    List,
    /// Show how the program is used.
    Help,
}

/// What the command line `args` asks for. `args[0]` is the name the program
/// was called by, `args[1]` the command, and the arguments of the command
/// follow. `add` and `done` need at least one argument; `list` and the three
/// spellings of `help` take none and pass over any that are given.
pub open spec fn request(args: Seq<Seq<char>>) -> Result<Request, AppError> {
    if args.len() < 2 {
        Err(AppError::MissingCommand)
    } else if args[1] == "add"@ {
        if args.len() == 2 {
            Err(AppError::MissingArgs)
        } else {
            Ok(Request::Add(args.skip(2)))
        }
    } else if args[1] == "done"@ {
        if args.len() == 2 {
            Err(AppError::MissingArgs)
        } else {
            Ok(Request::Done(args.skip(2)))
        }
    } else if args[1] == "list"@ {
        Ok(Request::List)
    } else if args[1] == "help"@ || args[1] == "--help"@ || args[1] == "-h"@ {
        Ok(Request::Help)
    } else {
        Err(AppError::InvalidCommand)
    }
}

/// A command with its arguments.
#[derive(Debug)]
pub enum Command {
    /// Append these texts to the list.
    Add(Vec<String>),
    /// Take the entries that these arguments name out of the list.
    Done(Vec<String>),
    /// Show the list.
    List,
    /// Show how the program is used.
    Help,
}

impl View for Command {
    type V = Request;

    open spec fn view(&self) -> Request {
        match self {
            Command::Add(new) => Request::Add(texts(new@)),
            Command::Done(names) => Request::Done(texts(names@)),
            Command::List => Request::List,
            Command::Help => Request::Help,
        }
    }
}

/// Whether `s` is the word `word`.
fn is_word(s: &String, word: &str) -> (r: bool)
    ensures
        r == (s@ == word@),
{
    let w = String::from_str(word);
    s.eq(&w)
}

/// Copies the arguments of a command: those from the third on.
fn command_arguments(args: &Vec<String>) -> (r: Vec<String>)
    requires
        args@.len() >= 2,
    ensures
        texts(r@) == texts(args@).skip(2),
{
    let mut r: Vec<String> = Vec::new();
    let mut i: usize = 2;
    while i < args.len()
        invariant
            2 <= i <= args@.len(),
            texts(r@) == texts(args@).subrange(2, i as int),
        decreases args@.len() - i,
    {
        let copy = args[i].clone();
        assert(texts(r@.push(copy)) =~= texts(r@).push(copy@));
        assert(texts(args@).subrange(2, i + 1) =~= texts(args@).subrange(2, i as int).push(
            args@[i as int]@,
        ));
        r.push(copy);
        i = i + 1;
    }
    assert(texts(args@).subrange(2, i as int) =~= texts(args@).skip(2));
    r
}

/// Reads the command line `args`, the program's name first.
pub fn parse_command(args: &Vec<String>) -> (r: Result<Command, AppError>)
    ensures
        match r {
            Ok(command) => request(texts(args@)) == Ok::<Request, AppError>(command@),
            Err(e) => request(texts(args@)) == Err::<Request, AppError>(e),
        },
{
    if args.len() < 2 {
        return Err(AppError::MissingCommand);
    }
    let word = &args[1];
    assert(texts(args@)[1] == word@);
    if is_word(word, "add") {
        if args.len() == 2 {
            Err(AppError::MissingArgs)
        } else {
            Ok(Command::Add(command_arguments(args)))
        }
    } else if is_word(word, "done") {
        if args.len() == 2 {
            Err(AppError::MissingArgs)
        } else {
            Ok(Command::Done(command_arguments(args)))
        }
    } else if is_word(word, "list") {
        Ok(Command::List)
    } else if is_word(word, "help") || is_word(word, "--help") || is_word(word, "-h") {
        Ok(Command::Help)
    } else {
        Err(AppError::InvalidCommand)
    }
}

} // verus!

//! One run of the program, as a step from the list and the command line to
//! the list afterwards, the text to print, and what the caller does next.
//! Reading and writing the file and the streams is left to the caller.

use vstd::prelude::*;
use vstd::string::*;
use crate::command::{parse_command, request, Command, Request};
use crate::done::{first_out_of_range, removal_order, unreadable};
use crate::error::AppError;
use crate::list::{removable_count, taken, texts, without, TodoList};
use crate::listing::listing;
use crate::storage::joined;

verus! {

/// The text that tells how the program is used.
pub open spec fn usage_text() -> Seq<char> {
    "Usage: todo [COMMAND] [ARGS]...\nCommands:\n  add TODOS...    Add to todo list\n  done INDICES... Remove indices from list\n  list            Print the list\n  help            Print this text\n"@
}

/// The lines that report the entries `removed`, one line for each, in their order.
pub open spec fn done_lines(removed: Seq<Seq<char>>) -> Seq<char>
    decreases removed.len(),
{
    if removed.len() == 0 {
        Seq::empty()
    } else {
        done_lines(removed.drop_last()) + "DONE!: "@ + removed.last() + seq!['\n']
    }
}

/// The lines that report the arguments `rejected`, which name no entry, one
/// line for each, in their order.
pub open spec fn rejection_lines(rejected: Seq<Seq<char>>) -> Seq<char>
    decreases rejected.len(),
{
    if rejected.len() == 0 {
        Seq::empty()
    } else {
        rejection_lines(rejected.drop_last()) + rejected.last()
            + " could not be parsed into a positive integer\n"@
    }
}

/// What the caller does when a run has been worked out.
#[derive(Debug)]
pub enum Next {
    /// Replace the content of the file by this text, and end with success.
    Save(String),
    /// Leave the file as it is, and end with success.
    Finish,
    /// Leave the file as it is, and end with this failure.
    Fail(AppError),
    /// Leave the file as it is, and abort: the entry at `position` was to be
    /// taken out of a list of only `len` entries.
    Abort { position: usize, len: usize },
}

/// What a run brings about outside the list.
#[derive(Debug)]
pub struct Outcome {
    /// The text for the output stream.
    pub output: String,
    /// The text for the error stream.
    pub diagnostics: String,
    /// What the caller does next.
    pub next: Next,
}

/// The text that tells how the program is used.
pub fn usage() -> (text: &'static str)
    ensures
        text@ == usage_text(),
{
    "Usage: todo [COMMAND] [ARGS]...\nCommands:\n  add TODOS...    Add to todo list\n  done INDICES... Remove indices from list\n  list            Print the list\n  help            Print this text\n"
}

/// The lines that report the entries `removed`.
pub fn report_done(removed: &Vec<String>) -> (text: String)
    ensures
        text@ == done_lines(texts(removed@)),
{
    let mut text = String::new();
    let mut i: usize = 0;
    let ghost all = texts(removed@);
    assert(all.take(0) =~= Seq::<Seq<char>>::empty());
    while i < removed.len()
        invariant
            0 <= i <= removed@.len(),
            all == texts(removed@),
            text@ == done_lines(all.take(i as int)),
        decreases removed@.len() - i,
    {
        proof {
            reveal_strlit("\n");
            assert("\n"@ =~= seq!['\n']);
            assert(all.take(i + 1).drop_last() =~= all.take(i as int));
            assert(all.take(i + 1).last() == removed@[i as int]@);
        }
        text.append("DONE!: ");
        text.append(removed[i].as_str());
        text.append("\n");
        i = i + 1;
    }
    assert(all.take(i as int) =~= all);
    text
}

/// The lines that report the arguments `rejected`, which name no entry.
pub fn report_rejected(rejected: &Vec<String>) -> (text: String)
    ensures
        text@ == rejection_lines(texts(rejected@)),
{
    let mut text = String::new();
    let mut i: usize = 0;
    let ghost all = texts(rejected@);
    assert(all.take(0) =~= Seq::<Seq<char>>::empty());
    while i < rejected.len()
        invariant
            0 <= i <= rejected@.len(),
            all == texts(rejected@),
            text@ == rejection_lines(all.take(i as int)),
        decreases rejected@.len() - i,
    {
        proof {
            assert(all.take(i + 1).drop_last() =~= all.take(i as int));
            assert(all.take(i + 1).last() == rejected@[i as int]@);
        }
        text.append(rejected[i].as_str());
        text.append(" could not be parsed into a positive integer\n");
        i = i + 1;
    }
    assert(all.take(i as int) =~= all);
    text
}

/// Whether `outcome` is what the run of `args` on the list `before` brings
/// about, the list being `after` when the run is over.
///
/// A command line that asks for nothing the program can do puts the usage
/// text on the error stream and fails. `help` puts it there too, and ends
/// with success. `list` puts the listing on the output stream. None of the
/// three touches the list or the file. `add` appends its arguments and
/// saves. `done` reports on the error stream the arguments that name no
/// entry and on the output stream the entries that it takes out; it saves
/// if every named position could be taken out, and aborts at the first that
/// could not.
pub open spec fn is_outcome(
    before: Seq<Seq<char>>,
    args: Seq<Seq<char>>,
    after: Seq<Seq<char>>,
    outcome: Outcome,
) -> bool {
    match request(args) {
        Err(e) => {
            &&& after == before
            &&& outcome.output@ == Seq::<char>::empty()
            &&& outcome.diagnostics@ == usage_text()
            &&& outcome.next == Next::Fail(e)
        },
        Ok(Request::Help) => {
            &&& after == before
            &&& outcome.output@ == Seq::<char>::empty()
            &&& outcome.diagnostics@ == usage_text()
            &&& outcome.next == Next::Finish
        },
        Ok(Request::List) => {
            &&& after == before
            &&& outcome.output@ == listing(before)
            &&& outcome.diagnostics@ == Seq::<char>::empty()
            &&& outcome.next == Next::Finish
        },
        Ok(Request::Add(new)) => {
            &&& after == before + new
            &&& outcome.output@ == Seq::<char>::empty()
            &&& outcome.diagnostics@ == Seq::<char>::empty()
            &&& outcome.next matches Next::Save(content)
            &&& content@ == joined(after)
        },
        Ok(Request::Done(names)) => {
            let order = removal_order(names);
            let k = removable_count(before.len(), order) as int;
            &&& after == without(before, order.take(k))
            &&& outcome.output@ == done_lines(taken(before, order.take(k)))
            &&& outcome.diagnostics@ == rejection_lines(unreadable(names))
            &&& match first_out_of_range(before.len(), order) {
                Some(position) => outcome.next == (Next::Abort { position, len: after.len() as usize }),
                None => outcome.next matches Next::Save(content) && content@ == joined(after),
            }
        },
    }
}

/// Whether the command line asks for a command that changes the list: `add`
/// or `done` with at least one argument.
pub open spec fn is_mutating(args: Seq<Seq<char>>) -> bool {
    request(args) matches Ok(r) && (r is Add || r is Done)
}

/// Only `add` and `done` touch the list or the file: any other run, be it
/// `list`, `help` or one that fails, leaves the list as it was and ends
/// without saving.
pub proof fn lemma_only_mutating_runs_save(
    before: Seq<Seq<char>>,
    args: Seq<Seq<char>>,
    after: Seq<Seq<char>>,
    outcome: Outcome,
)
    requires
        is_outcome(before, args, after, outcome),
        !is_mutating(args),
    ensures
        after == before,
        !(outcome.next is Save),
{
}

/// A run that saves stores the list as the run has left it.
pub proof fn lemma_saved_is_current(
    before: Seq<Seq<char>>,
    args: Seq<Seq<char>>,
    after: Seq<Seq<char>>,
    outcome: Outcome,
)
    requires
        is_outcome(before, args, after, outcome),
    ensures
        outcome.next matches Next::Save(content) ==> content@ == joined(after),
{
}

/// Works out one run: carries out on `list` what the command line `args`
/// asks for, and returns what to print and what to do next.
pub fn execute(list: &mut TodoList, args: &Vec<String>) -> (outcome: Outcome)
    ensures
        is_outcome(old(list)@, texts(args@), final(list)@, outcome),
{
    match parse_command(args) {
        Err(e) => Outcome {
            output: String::new(),
            diagnostics: String::from_str(usage()),
            next: Next::Fail(e),
        },
        Ok(Command::Help) => Outcome {
            output: String::new(),
            diagnostics: String::from_str(usage()),
            next: Next::Finish,
        },
        Ok(Command::List) => Outcome {
            output: list.listing(),
            diagnostics: String::new(),
            next: Next::Finish,
        },
        Ok(Command::Add(new)) => {
            list.add(new);
            Outcome {
                output: String::new(),
                diagnostics: String::new(),
                next: Next::Save(list.content()),
            }
        },
        Ok(Command::Done(names)) => {
            let report = list.done(&names);
            let next = match report.out_of_range {
                Some(position) => Next::Abort { position, len: list.len() },
                None => Next::Save(list.content()),
            };
            Outcome {
                output: report_done(&report.removed),
                diagnostics: report_rejected(&report.rejected),
                next,
            }
        },
    }
}

} // verus!

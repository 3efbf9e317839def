//! What a line typed at the calculator means.
//!
//! A line that writes a number pushes that number; reading numbers is the
//! caller's business, as the arithmetic is. Any other line is taken in lower
//! case and looked up among the names of the operations.

use crate::stack::Operation;
use crate::text::{chars_of, spells};
use vstd::prelude::*;
use vstd::string::StringExecFns;

verus! {

/// What `str::to_lowercase` makes of a text.
pub uninterp spec fn lowercase(s: Seq<char>) -> Seq<char>;

/// `str::to_lowercase` of the standard library: the result depends on the
/// characters of `s` alone. Nothing more is said of it here.
pub assume_specification[ str::to_lowercase ](s: &str) -> (lowered: String)
    ensures
        lowered@ == lowercase(s@),
;

/// What the loop around the calculator handles itself.
#[derive(Debug, Clone, Copy, PartialEq, Eq, Structural)]
pub enum Meta {
    /// Leave.
    Quit,
    /// Show the commands.
    Help,
    /// Show all numbers.
    Stack,
}

/// A line that is neither a number nor the name of an operation.
#[derive(Debug, Clone, PartialEq, Eq)]
pub struct UnknownCommand {
    /// The line as it was typed.
    pub input: String,
}

impl UnknownCommand {
    /// The words in which the error is reported.
    pub open spec fn text(self) -> Seq<char> {
        "unknown command: "@ + self.input@
    }

    /// The words in which the error is reported: they name the line.
    pub fn message(&self) -> (words: String)
        ensures
            words@ == self.text(),
    {
        let mut words = "unknown command: ".to_owned();
        words.append(self.input.as_str());
        words
    }
}

/// The meta-command that `line` writes, if it writes one. Capitals count.
pub open spec fn meta_of(line: Seq<char>) -> Option<Meta> {
    if line == "quit"@ || line == "exit"@ {
        Some(Meta::Quit)
    } else if line == "help"@ {
        Some(Meta::Help)
    } else if line == "stack"@ {
        Some(Meta::Stack)
    } else {
        None
    }
}

/// The operation that goes by the name `word`, if there is one.
pub open spec fn operation_of<T>(word: Seq<char>) -> Option<Operation<T>> {
    if word == "+"@ || word == "add"@ {
        Some(Operation::Add)
    } else if word == "-"@ || word == "sub"@ {
        Some(Operation::Sub)
    } else if word == "*"@ || word == "mul"@ {
        Some(Operation::Mul)
    } else if word == "/"@ || word == "div"@ {
        Some(Operation::Div)
    } else if word == "pop"@ {
        Some(Operation::Pop)
    } else if word == "dup"@ {
        Some(Operation::Dup)
    } else if word == "swap"@ {
        Some(Operation::Swap)
    } else if word == "print"@ || word == "."@ {
        Some(Operation::Print)
    } else if word == "clear"@ || word == "cls"@ {
        Some(Operation::Clear)
    } else {
        None
    }
}

/// What `line` means, given the number that it writes, if it writes one.
pub open spec fn parsed<T>(line: Seq<char>, number: Option<T>) -> Option<Operation<T>> {
    match number {
        Some(value) => Some(Operation::Push(value)),
        None => operation_of(lowercase(line)),
    }
}

/// The meta-command that `line` writes, if it writes one.
pub fn meta_command(line: &str) -> (meta: Option<Meta>)
    ensures
        meta == meta_of(line@),
{
    let chars = chars_of(line);
    let word = chars.as_slice();
    if spells(word, "quit") || spells(word, "exit") {
        Some(Meta::Quit)
    } else if spells(word, "help") {
        Some(Meta::Help)
    } else if spells(word, "stack") {
        Some(Meta::Stack)
    } else {
        None
    }
}

/// The operation that goes by the name `word`, if there is one. The name
/// is taken as it stands: capitals count.
pub fn operation_named<T>(word: &str) -> (op: Option<Operation<T>>)
    ensures
        op == operation_of::<T>(word@),
{
    let chars = chars_of(word);
    let w = chars.as_slice();
    if spells(w, "+") || spells(w, "add") {
        Some(Operation::Add)
    } else if spells(w, "-") || spells(w, "sub") {
        Some(Operation::Sub)
    } else if spells(w, "*") || spells(w, "mul") {
        Some(Operation::Mul)
    } else if spells(w, "/") || spells(w, "div") {
        Some(Operation::Div)
    } else if spells(w, "pop") {
        Some(Operation::Pop)
    } else if spells(w, "dup") {
        Some(Operation::Dup)
    } else if spells(w, "swap") {
        Some(Operation::Swap)
    } else if spells(w, "print") || spells(w, ".") {
        Some(Operation::Print)
    } else if spells(w, "clear") || spells(w, "cls") {
        Some(Operation::Clear)
    } else {
        None
    }
}

/// What `line` asks of the machine. `number` is the number that the whole
/// line writes, if it writes one: such a line pushes it. Any other line is
/// looked up in lower case among the names of the operations, and one that
/// is not found comes back in the error.
pub fn parse_operation<T>(line: &str, number: Option<T>) -> (r: Result<
    Operation<T>,
    UnknownCommand,
>)
    ensures
        match parsed(line@, number) {
            Some(op) => r == Ok::<Operation<T>, UnknownCommand>(op),
            None => r is Err && r->Err_0.input@ == line@,
        },
{
    match number {
        Some(value) => Ok(Operation::Push(value)),
        None => {
            let lowered = line.to_lowercase();
            match operation_named(lowered.as_str()) {
                Some(op) => Ok(op),
                None => Err(UnknownCommand { input: line.to_owned() }),
            }
        },
    }
}

} // verus!

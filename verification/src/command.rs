//! The commands of the task list, and how a line of input is read as one.

use crate::text::{
    chars_of, is_word, join, lemma_join_first, lemma_words_join, nonempty, parse_usize, pieces,
    push_chars, spells, split_words, usize_of, views, words, Delimiter,
};
use vstd::prelude::*;

verus! {

/// The longest description that `add` accepts, in characters.
pub const MAX_DESCRIPTION: usize = 500;

/// What the user asks for.
#[derive(Debug, Clone, PartialEq, Eq)]
pub enum Command {
    /// Add a task with this description.
    Add(String),
    /// Show the tasks.
    List,
    /// Mark the task with this identifier as completed.
    Done(usize),
    /// Remove the task with this identifier.
    Delete(usize),
    /// Show the commands.
    Help,
    /// Leave.
    Exit,
    /// Anything that is none of the above.
    Unknown,
}

/// What a `Command` holds.
pub enum CommandView {
    Add(Seq<char>),
    List,
    Done(usize),
    Delete(usize),
    Help,
    Exit,
    Unknown,
}

impl View for Command {
    type V = CommandView;

    open spec fn view(&self) -> CommandView {
        match self {
            Command::Add(description) => CommandView::Add(description@),
            Command::List => CommandView::List,
            Command::Done(id) => CommandView::Done(*id),
            Command::Delete(id) => CommandView::Delete(*id),
            Command::Help => CommandView::Help,
            Command::Exit => CommandView::Exit,
            Command::Unknown => CommandView::Unknown,
        }
    }
}

/// The identifier that follows the command word: there must be exactly one
/// further word, and it must write a number.
pub open spec fn identifier_of(w: Seq<Seq<char>>) -> Option<usize> {
    if w.len() == 2 {
        usize_of(w[1])
    } else {
        None
    }
}

/// The command that `line` writes.
///
/// The first word decides, and capitals count. After `add`, the words that
/// follow, with one space between neighbours, are the description; there
/// must be at least one, and no more than `MAX_DESCRIPTION` characters in
/// all. After `list`, `help` and `exit`, further words are not looked at.
pub open spec fn command_of(line: Seq<char>) -> CommandView {
    let w = words(line);
    if w.len() == 0 {
        CommandView::Unknown
    } else if w[0] == "add"@ {
        let description = join(w.skip(1), ' ');
        if w.len() > 1 && description.len() <= MAX_DESCRIPTION {
            CommandView::Add(description)
        } else {
            CommandView::Unknown
        }
    } else if w[0] == "list"@ {
        CommandView::List
    } else if w[0] == "done"@ {
        match identifier_of(w) {
            Some(id) => CommandView::Done(id),
            None => CommandView::Unknown,
        }
    } else if w[0] == "delete"@ {
        match identifier_of(w) {
            Some(id) => CommandView::Delete(id),
            None => CommandView::Unknown,
        }
    } else if w[0] == "help"@ {
        CommandView::Help
    } else if w[0] == "exit"@ {
        CommandView::Exit
    } else {
        CommandView::Unknown
    }
}

/// Joining more parts gives a text that is no shorter.
pub proof fn lemma_join_len_prefix(parts: Seq<Seq<char>>, k: int, sep: char)
    requires
        0 <= k <= parts.len(),
    ensures
        join(parts.take(k), sep).len() <= join(parts, sep).len(),
    decreases parts.len(),
{
    if k < parts.len() {
        lemma_join_len_prefix(parts.drop_last(), k, sep);
        assert(parts.drop_last().take(k) =~= parts.take(k));
    } else {
        assert(parts.take(k) =~= parts);
    }
}

/// Every word holds at least one character.
pub proof fn lemma_nonempty_members(parts: Seq<Seq<char>>)
    ensures
        forall|i: int| 0 <= i < nonempty(parts).len() ==> (#[trigger] nonempty(parts)[i]).len() > 0,
    decreases parts.len(),
{
    if parts.len() > 0 {
        let before = nonempty(parts.drop_last());
        lemma_nonempty_members(parts.drop_last());
        assert forall|i: int| 0 <= i < nonempty(parts).len() implies (#[trigger] nonempty(
            parts,
        )[i]).len() > 0 by {
            if i < before.len() {
                assert(nonempty(parts)[i] == before[i]);
            }
        }
    }
}

/// The description of an `add` command is never empty and never longer
/// than `MAX_DESCRIPTION` characters.
pub proof fn lemma_description_bounds(line: Seq<char>)
    ensures
        command_of(line) matches CommandView::Add(description) ==> 1 <= description.len()
            <= MAX_DESCRIPTION,
{
    let w = words(line);
    if w.len() > 1 {
        lemma_nonempty_members(pieces(line, Delimiter::Whitespace));
        let rest = w.skip(1);
        assert(rest[0] == w[1]);
        lemma_join_len_prefix(rest, 1, ' ');
        assert(rest.take(1) =~= seq![rest[0]]);
    }
}

/// What `add` makes of a description: one of up to `MAX_DESCRIPTION`
/// characters is accepted as it stands, and a longer one is rejected. The
/// description is one or more words with single spaces between them.
pub proof fn lemma_add_limit(parts: Seq<Seq<char>>)
    requires
        parts.len() >= 1,
        forall|i: int| 0 <= i < parts.len() ==> is_word(#[trigger] parts[i]),
    ensures
        ({
            let description = join(parts, ' ');
            command_of("add "@ + description) == if description.len() <= MAX_DESCRIPTION {
                CommandView::Add(description)
            } else {
                CommandView::Unknown
            }
        }),
{
    reveal_strlit("add");
    reveal_strlit("add ");
    let all = seq!["add"@] + parts;
    assert(is_word("add"@));
    assert forall|i: int| 0 <= i < all.len() implies is_word(#[trigger] all[i]) by {
        if i > 0 {
            assert(all[i] == parts[i - 1]);
        }
    }
    lemma_words_join(all);
    lemma_join_first("add"@, parts, ' ');
    assert("add"@.push(' ') =~= "add "@);
    assert(all.skip(1) =~= parts);
}

/// The words from the second on, with one space between neighbours, unless
/// that is longer than `MAX_DESCRIPTION` characters.
fn description_of(parts: &Vec<Vec<char>>) -> (description: Option<String>)
    requires
        parts.len() >= 1,
    ensures
        match description {
            Some(text) => text@ == join(views(parts@).skip(1), ' ') && text@.len()
                <= MAX_DESCRIPTION,
            None => join(views(parts@).skip(1), ' ').len() > MAX_DESCRIPTION,
        },
{
    let ghost rest = views(parts@).skip(1);
    let mut text = String::new();
    let mut length: usize = 0;
    let mut k: usize = 1;
    assert(rest.take(0) =~= Seq::empty());
    while k < parts.len()
        invariant
            1 <= k <= parts.len(),
            rest == views(parts@).skip(1),
            text@ == join(rest.take(k - 1), ' '),
            length == text@.len(),
            length <= MAX_DESCRIPTION,
        decreases parts.len() - k,
    {
        let part = &parts[k];
        let gap: usize = if k > 1 {
            1
        } else {
            0
        };
        assert(rest.take(k as int).drop_last() =~= rest.take(k - 1));
        assert(rest.take(k as int).last() == part@);
        if part.len() > MAX_DESCRIPTION - length || part.len() + gap > MAX_DESCRIPTION - length {
            proof {
                lemma_join_len_prefix(rest, k as int, ' ');
            }
            return None;
        }
        if k > 1 {
            text.push(' ');
        }
        push_chars(&mut text, part.as_slice());
        length = length + gap + part.len();
        k += 1;
    }
    assert(rest.take(k - 1) =~= rest);
    Some(text)
}

/// The identifier that follows the command word, if exactly one word
/// follows and it writes a number.
fn identifier(parts: &Vec<Vec<char>>) -> (id: Option<usize>)
    ensures
        id == identifier_of(views(parts@)),
{
    if parts.len() == 2 {
        parse_usize(parts[1].as_slice())
    } else {
        None
    }
}

/// Reads a line of input as a command.
pub fn parse_command(input: &str) -> (command: Command)
    ensures
        command@ == command_of(input@),
        command@ matches CommandView::Add(description) ==> 1 <= description.len()
            <= MAX_DESCRIPTION,
{
    proof {
        lemma_description_bounds(input@);
    }
    let chars = chars_of(input);
    let parts = split_words(chars.as_slice());
    if parts.len() == 0 {
        return Command::Unknown;
    }
    let head = parts[0].as_slice();
    assert(head@ == words(input@)[0]);
    if spells(head, "add") {
        if parts.len() > 1 {
            match description_of(&parts) {
                Some(description) => Command::Add(description),
                None => Command::Unknown,
            }
        } else {
            Command::Unknown
        }
    } else if spells(head, "list") {
        Command::List
    } else if spells(head, "done") {
        match identifier(&parts) {
            Some(id) => Command::Done(id),
            None => Command::Unknown,
        }
    } else if spells(head, "delete") {
        match identifier(&parts) {
            Some(id) => Command::Delete(id),
            None => Command::Unknown,
        }
    } else if spells(head, "help") {
        Command::Help
    } else if spells(head, "exit") {
        Command::Exit
    } else {
        Command::Unknown
    }
}

} // verus!

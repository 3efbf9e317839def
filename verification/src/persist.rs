//! The text in which a task list is kept between runs.
//!
//! The first line is the next identifier. Each further line is one task:
//! identifier, description, `true` or `false` for completed, and time of
//! creation, with `|` between them. Nothing is escaped, so a description or
//! a time that holds `|` or a line break is not read back as it was written.

use crate::store::{task_views, StoreView, TaskView, Todo, TodoList};
use crate::text::{
    chars_of, decimal, free_of, join, lemma_decimal, lemma_digits_free, lemma_join_free,
    lemma_join_push, lemma_pieces_nonempty, lemma_split_join, lemma_split_plain,
    lemma_usize_of_decimal, parse_usize, push_decimal, spells, split, split_on, string_of,
    usize_of, views, Delimiter,
};
use vstd::prelude::*;

verus! {

/// How the completed flag is written.
pub open spec fn flag_text(completed: bool) -> Seq<char> {
    if completed {
        "true"@
    } else {
        "false"@
    }
}

/// The four fields of the line that keeps `task`.
pub open spec fn task_fields(task: TaskView) -> Seq<Seq<char>> {
    seq![decimal(task.id), task.description, flag_text(task.completed), task.created_at]
}

/// The line that keeps `task`, without its line break.
pub open spec fn task_line(task: TaskView) -> Seq<char> {
    join(task_fields(task), '|')
}

/// The lines that keep `tasks`, one for each.
pub open spec fn task_lines(tasks: Seq<TaskView>) -> Seq<Seq<char>> {
    Seq::new(tasks.len(), |i: int| task_line(tasks[i]))
}

/// The lines that keep `store`: the next identifier, then the tasks.
pub open spec fn store_lines(store: StoreView) -> Seq<Seq<char>> {
    seq![decimal(store.next_id)] + task_lines(store.tasks)
}

/// The text that keeps `store`: its lines, each closed by a line break.
pub open spec fn written(store: StoreView) -> Seq<char> {
    join(store_lines(store), '\n').push('\n')
}

/// The task that `line` keeps, if it keeps one: it must have exactly four
/// fields, the first of which writes a number. The task counts as completed
/// only where the third field is `true`.
pub open spec fn task_of_line(line: Seq<char>) -> Option<TaskView> {
    let fields = split(line, '|');
    if fields.len() == 4 && usize_of(fields[0]) is Some {
        Some(
            TaskView {
                id: usize_of(fields[0])->0 as nat,
                description: fields[1],
                completed: fields[2] == "true"@,
                created_at: fields[3],
            },
        )
    } else {
        None
    }
}

/// The tasks that `lines` keep, in order; a line that keeps none is passed
/// over.
pub open spec fn tasks_of_lines(lines: Seq<Seq<char>>) -> Seq<TaskView>
    decreases lines.len(),
{
    if lines.len() == 0 {
        Seq::empty()
    } else {
        match task_of_line(lines.last()) {
            Some(task) => tasks_of_lines(lines.drop_last()).push(task),
            None => tasks_of_lines(lines.drop_last()),
        }
    }
}

/// The store that `text` keeps.
///
/// The text is cut into lines at each line break, and nothing is taken away
/// from any of them. The next identifier is what the first line writes, or 1
/// where it writes no number. Every further line that keeps a task gives
/// that task; what follows the last line break is a line like the others.
pub open spec fn read(text: Seq<char>) -> StoreView {
    let lines = split(text, '\n');
    StoreView {
        tasks: tasks_of_lines(lines.skip(1)),
        next_id: match usize_of(lines[0]) {
            Some(n) => n as nat,
            None => 1,
        },
    }
}

/// A task's line is its four fields with a `|` after each but the last.
pub proof fn lemma_task_line(task: TaskView)
    ensures
        task_line(task) == decimal(task.id).push('|') + task.description + seq!['|'] + flag_text(
            task.completed,
        ) + seq!['|'] + task.created_at,
{
    let f = task_fields(task);
    let one = seq![f[0]];
    lemma_join_push(one, f[1], '|');
    lemma_join_push(one.push(f[1]), f[2], '|');
    lemma_join_push(one.push(f[1]).push(f[2]), f[3], '|');
    assert(one.push(f[1]).push(f[2]).push(f[3]) =~= f);
    assert(task_line(task) =~= decimal(task.id).push('|') + task.description + seq!['|']
        + flag_text(task.completed) + seq!['|'] + task.created_at);
}

/// The text that keeps `list`.
pub fn serialize(list: &TodoList) -> (text: String)
    ensures
        text@ == written(list@),
{
    let mut text = String::new();
    push_decimal(&mut text, list.next_id);
    text.push('\n');
    let ghost tasks = list@.tasks;
    let ghost first = seq![decimal(list.next_id as nat)];
    let mut i: usize = 0;
    assert(first + task_lines(tasks.take(0)) =~= first);
    assert(text@ =~= join(first, '\n').push('\n'));
    while i < list.todos.len()
        invariant
            i <= list.todos.len(),
            tasks == list@.tasks,
            first == seq![decimal(list.next_id as nat)],
            text@ == join(first + task_lines(tasks.take(i as int)), '\n').push('\n'),
        decreases list.todos.len() - i,
    {
        let todo = &list.todos[i];
        let ghost before = text@;
        let ghost lines = first + task_lines(tasks.take(i as int));
        let ghost fields = task_fields(todo@);
        push_decimal(&mut text, todo.id);
        text.push('|');
        text.append(todo.description.as_str());
        text.push('|');
        if todo.completed {
            text.append("true");
        } else {
            text.append("false");
        }
        text.push('|');
        text.append(todo.created_at.as_str());
        text.push('\n');
        proof {
            lemma_task_line(todo@);
            assert(text@ =~= (before + task_line(todo@)).push('\n'));
            let next = first + task_lines(tasks.take(i as int + 1));
            assert(next.drop_last() =~= lines);
            assert(next.last() == task_line(todo@));
            assert(join(next, '\n') =~= before + task_line(todo@));
        }
        i += 1;
    }
    assert(tasks.take(i as int) =~= tasks);
    text
}

/// The list that `text` keeps.
pub fn deserialize(text: &str) -> (list: TodoList)
    ensures
        list@ == read(text@),
{
    let chars = chars_of(text);
    let lines = split_on(chars.as_slice(), '\n');
    proof {
        lemma_pieces_nonempty(text@, Delimiter::Char('\n'));
    }
    let next_id: usize = match parse_usize(lines[0].as_slice()) {
        Some(n) => n,
        None => 1,
    };
    let ghost rest = views(lines@).skip(1);
    let mut todos: Vec<Todo> = Vec::new();
    let mut k: usize = 1;
    assert(rest.take(0) =~= Seq::empty());
    assert(task_views(todos@) =~= Seq::empty());
    while k < lines.len()
        invariant
            1 <= k <= lines.len(),
            rest == views(lines@).skip(1),
            task_views(todos@) == tasks_of_lines(rest.take(k - 1)),
        decreases lines.len() - k,
    {
        let line = &lines[k];
        let ghost done = task_views(todos@);
        assert(rest.take(k as int).drop_last() =~= rest.take(k - 1));
        assert(rest.take(k as int).last() == line@);
        let fields = split_on(line.as_slice(), '|');
        if fields.len() == 4 {
            match parse_usize(fields[0].as_slice()) {
                Some(id) => {
                    let todo = Todo {
                        id,
                        description: string_of(fields[1].as_slice()),
                        completed: spells(fields[2].as_slice(), "true"),
                        created_at: string_of(fields[3].as_slice()),
                    };
                    todos.push(todo);
                    assert(task_views(todos@) =~= done.push(task_of_line(line@)->0));
                },
                None => {},
            }
        }
        k += 1;
    }
    assert(rest.take(k - 1) =~= rest);
    TodoList { todos, next_id }
}

/// The list to start from: the one that the kept text holds, or an empty
/// one where no text could be had.
pub fn load(contents: Option<&str>) -> (list: TodoList)
    ensures
        list@ == match contents {
            Some(text) => read(text@),
            None => StoreView::empty(),
        },
{
    match contents {
        Some(text) => deserialize(text),
        None => TodoList::new(),
    }
}

/// Whether `s` holds neither a `|` nor a line break.
pub open spec fn plain(s: Seq<char>) -> bool {
    free_of(s, '|') && free_of(s, '\n')
}

/// Whether no description and no time of creation in `store` holds a `|`
/// or a line break.
pub open spec fn all_plain(store: StoreView) -> bool {
    forall|i: int|
        0 <= i < store.tasks.len() ==> plain((#[trigger] store.tasks[i]).description) && plain(
            store.tasks[i].created_at,
        )
}

/// A line that was written for a task without `|` or line break in its
/// texts keeps that task and holds no line break.
pub proof fn lemma_task_of_line(task: TaskView)
    requires
        task.id <= usize::MAX,
        plain(task.description),
        plain(task.created_at),
    ensures
        task_of_line(task_line(task)) == Some(task),
        free_of(task_line(task), '\n'),
{
    let fields = task_fields(task);
    reveal_strlit("true");
    reveal_strlit("false");
    lemma_decimal(task.id);
    lemma_digits_free(decimal(task.id), '|');
    lemma_digits_free(decimal(task.id), '\n');
    assert(free_of(flag_text(task.completed), '|'));
    assert(free_of(flag_text(task.completed), '\n'));
    assert forall|i: int| 0 <= i < fields.len() implies free_of(#[trigger] fields[i], '|') by {}
    assert forall|i: int| 0 <= i < fields.len() implies free_of(#[trigger] fields[i], '\n') by {}
    lemma_split_join(fields, '|');
    lemma_join_free(fields, '|', '\n');
    lemma_usize_of_decimal(task.id as usize);
    assert(flag_text(task.completed) == "true"@ <==> task.completed) by {
        assert("true"@.len() != "false"@.len());
    }
}

/// Lines that were written for tasks without `|` or line break in their
/// texts keep those tasks, in the same order.
pub proof fn lemma_tasks_of_lines(tasks: Seq<TaskView>)
    requires
        forall|i: int|
            0 <= i < tasks.len() ==> (#[trigger] tasks[i]).id <= usize::MAX && plain(
                tasks[i].description,
            ) && plain(tasks[i].created_at),
    ensures
        tasks_of_lines(task_lines(tasks)) == tasks,
    decreases tasks.len(),
{
    if tasks.len() == 0 {
        assert(tasks_of_lines(task_lines(tasks)) =~= tasks);
    } else {
        let init = tasks.drop_last();
        assert forall|i: int| 0 <= i < init.len() implies (#[trigger] init[i]).id <= usize::MAX
            && plain(init[i].description) && plain(init[i].created_at) by {
            assert(init[i] == tasks[i]);
        }
        lemma_tasks_of_lines(init);
        lemma_task_of_line(tasks.last());
        assert(task_lines(tasks).drop_last() =~= task_lines(init));
        assert(task_lines(tasks).last() == task_line(tasks.last()));
        assert(init.push(tasks.last()) =~= tasks);
    }
}

/// A line without characters keeps no task.
pub proof fn lemma_empty_line()
    ensures
        task_of_line(Seq::empty()) is None,
{
    lemma_split_plain(Seq::empty(), '|');
}

/// Writing a list and reading the text gives the list back, the same tasks
/// in the same order and the same next identifier, wherever no description
/// and no time of creation holds a `|` or a line break.
pub proof fn lemma_read_written(list: TodoList)
    requires
        all_plain(list@),
    ensures
        read(written(list@)) == list@,
{
    let store = list@;
    let lines = store_lines(store);
    let body = join(lines, '\n');
    let text = written(store);
    lemma_decimal(store.next_id);
    lemma_digits_free(decimal(store.next_id), '\n');
    assert forall|i: int| 0 <= i < store.tasks.len() implies (#[trigger] store.tasks[i]).id
        <= usize::MAX by {}
    lemma_tasks_of_lines(store.tasks);
    assert forall|i: int| 0 <= i < lines.len() implies free_of(#[trigger] lines[i], '\n') by {
        if i > 0 {
            assert(lines[i] == task_line(store.tasks[i - 1]));
            lemma_task_of_line(store.tasks[i - 1]);
        }
    }
    lemma_split_join(lines, '\n');
    assert(text.drop_last() =~= body);
    assert(split(text, '\n') == lines.push(Seq::empty()));
    lemma_usize_of_decimal(list.next_id);
    let rest = split(text, '\n').skip(1);
    assert(rest =~= task_lines(store.tasks).push(Seq::empty()));
    assert(rest.drop_last() =~= task_lines(store.tasks));
    lemma_empty_line();
    assert(read(text).tasks == store.tasks);
}

} // verus!

//! The task list: tasks in the order they were added, each under an
//! identifier that is handed out once and never again.

use crate::text::{decimal, push_decimal};
use vstd::prelude::*;

verus! {

/// One task.
#[derive(Debug, Clone, PartialEq, Eq)]
pub struct Todo {
    pub id: usize,
    pub description: String,
    pub completed: bool,
    pub created_at: String,
}

/// The tasks, oldest first, and the identifier that the next one will get.
#[derive(Debug, Clone, PartialEq, Eq)]
pub struct TodoList {
    pub todos: Vec<Todo>,
    pub next_id: usize,
}

/// What a `Todo` holds.
pub struct TaskView {
    pub id: nat,
    pub description: Seq<char>,
    pub completed: bool,
    pub created_at: Seq<char>,
}

/// What a `TodoList` holds.
pub struct StoreView {
    pub tasks: Seq<TaskView>,
    pub next_id: nat,
}

impl View for Todo {
    type V = TaskView;

    open spec fn view(&self) -> TaskView {
        TaskView {
            id: self.id as nat,
            description: self.description@,
            completed: self.completed,
            created_at: self.created_at@,
        }
    }
}

/// What each of `todos` holds.
pub open spec fn task_views(todos: Seq<Todo>) -> Seq<TaskView> {
    Seq::new(todos.len(), |i: int| todos[i]@)
}

impl View for TodoList {
    type V = StoreView;

    open spec fn view(&self) -> StoreView {
        StoreView { tasks: task_views(self.todos@), next_id: self.next_id as nat }
    }
}

/// The label that every new task gets as its time of creation.
pub open spec fn time_label() -> Seq<char> {
    "2024-01-20 12:00"@
}

/// What is reported when no task has the identifier `id`.
pub open spec fn not_found_text(id: nat) -> Seq<char> {
    "Task with ID "@ + decimal(id) + " not found!"@
}

/// What is reported when the task `id` was completed before.
pub open spec fn already_completed_text(id: nat) -> Seq<char> {
    "Task "@ + decimal(id) + " is already completed!"@
}

/// Where the first task with identifier `id` stands in `tasks`; their number
/// if there is none.
pub open spec fn position(tasks: Seq<TaskView>, id: nat) -> int
    decreases tasks.len(),
{
    if tasks.len() == 0 {
        0
    } else if tasks.first().id == id {
        0
    } else {
        1 + position(tasks.drop_first(), id)
    }
}

impl StoreView {
    /// The store that holds nothing yet.
    pub open spec fn empty() -> StoreView {
        StoreView { tasks: Seq::empty(), next_id: 1 }
    }

    /// Identifiers start at 1, grow along the list, and stay below the one
    /// that comes next.
    pub open spec fn well_formed(self) -> bool {
        &&& self.next_id >= 1
        &&& forall|i: int| 0 <= i < self.tasks.len() ==> 1 <= #[trigger] self.tasks[i].id < self.next_id
        &&& forall|i: int, j: int|
            0 <= i < j < self.tasks.len() ==> #[trigger] self.tasks[i].id < #[trigger] self.tasks[j].id
    }

    /// Whether some task has the identifier `id`.
    pub open spec fn has(self, id: nat) -> bool {
        exists|i: int| 0 <= i < self.tasks.len() && #[trigger] self.tasks[i].id == id
    }

    /// The store after a task with `description` was added at `created_at`.
    pub open spec fn add(self, description: Seq<char>, created_at: Seq<char>) -> StoreView {
        StoreView {
            tasks: self.tasks.push(
                TaskView { id: self.next_id, description, completed: false, created_at },
            ),
            next_id: self.next_id + 1,
        }
    }

    /// The store after the task at position `i` was marked as completed.
    pub open spec fn marked(self, i: int) -> StoreView {
        StoreView {
            tasks: self.tasks.update(i, TaskView { completed: true, ..self.tasks[i] }),
            next_id: self.next_id,
        }
    }

    /// The store once the first task with identifier `id` is completed, or
    /// the reason why it cannot be.
    pub open spec fn complete(self, id: nat) -> Result<StoreView, Seq<char>> {
        let i = position(self.tasks, id);
        if i >= self.tasks.len() {
            Err(not_found_text(id))
        } else if self.tasks[i].completed {
            Err(already_completed_text(id))
        } else {
            Ok(self.marked(i))
        }
    }

    /// The store without the first task with identifier `id`, or the reason
    /// why nothing can be removed.
    pub open spec fn delete(self, id: nat) -> Result<StoreView, Seq<char>> {
        let i = position(self.tasks, id);
        if i >= self.tasks.len() {
            Err(not_found_text(id))
        } else {
            Ok(StoreView { tasks: self.tasks.remove(i), next_id: self.next_id })
        }
    }
}

/// `position` finds the first task with the identifier, and only misses
/// where there is none.
pub proof fn lemma_position(tasks: Seq<TaskView>, id: nat)
    ensures
        0 <= position(tasks, id) <= tasks.len(),
        position(tasks, id) < tasks.len() ==> tasks[position(tasks, id)].id == id,
        forall|j: int| 0 <= j < position(tasks, id) ==> tasks[j].id != id,
    decreases tasks.len(),
{
    if tasks.len() > 0 && tasks.first().id != id {
        let rest = tasks.drop_first();
        lemma_position(rest, id);
        assert forall|j: int| 0 <= j < position(tasks, id) implies tasks[j].id != id by {
            if j > 0 {
                assert(rest[j - 1] == tasks[j]);
            }
        }
    }
}

/// A task has the identifier exactly where `position` finds one.
pub proof fn lemma_position_has(s: StoreView, id: nat)
    ensures
        s.has(id) <==> position(s.tasks, id) < s.tasks.len(),
{
    lemma_position(s.tasks, id);
    if s.has(id) {
        let i = choose|i: int| 0 <= i < s.tasks.len() && #[trigger] s.tasks[i].id == id;
        assert(s.tasks[i].id == id);
    }
}

/// The first position at which the identifier stands is what `position`
/// gives.
pub proof fn lemma_position_is(tasks: Seq<TaskView>, id: nat, i: int)
    requires
        0 <= i <= tasks.len(),
        i < tasks.len() ==> tasks[i].id == id,
        forall|j: int| 0 <= j < i ==> tasks[j].id != id,
    ensures
        position(tasks, id) == i,
{
    lemma_position(tasks, id);
}

impl TodoList {
    /// A list without tasks, whose first task will get the identifier 1.
    pub fn new() -> (list: TodoList)
        ensures
            list@ == StoreView::empty(),
            list@.well_formed(),
    {
        let list = TodoList { todos: Vec::new(), next_id: 1 };
        assert(list@.tasks =~= Seq::empty());
        list
    }
}

/// The label for the time at which a task is created.
pub fn get_current_time() -> (label: String)
    ensures
        label@ == time_label(),
{
    "2024-01-20 12:00".to_owned()
}

fn not_found_message(id: usize) -> (message: String)
    ensures
        message@ == not_found_text(id as nat),
{
    let mut message = "Task with ID ".to_owned();
    push_decimal(&mut message, id);
    message.append(" not found!");
    message
}

fn already_completed_message(id: usize) -> (message: String)
    ensures
        message@ == already_completed_text(id as nat),
{
    let mut message = "Task ".to_owned();
    push_decimal(&mut message, id);
    message.append(" is already completed!");
    message
}

/// Where the first task with identifier `id` stands in the list, if there
/// is one.
fn find(list: &TodoList, id: usize) -> (found: Option<usize>)
    ensures
        match found {
            Some(i) => i < list.todos.len() && i == position(list@.tasks, id as nat),
            None => position(list@.tasks, id as nat) >= list@.tasks.len(),
        },
{
    let mut i: usize = 0;
    while i < list.todos.len()
        invariant
            i <= list.todos.len(),
            forall|j: int| 0 <= j < i ==> list@.tasks[j].id != id as nat,
        decreases list.todos.len() - i,
    {
        if list.todos[i].id == id {
            proof {
                lemma_position_is(list@.tasks, id as nat, i as int);
            }
            return Some(i);
        }
        i += 1;
    }
    proof {
        lemma_position_is(list@.tasks, id as nat, i as int);
    }
    None
}

/// Adds a task with `description`, not yet completed, under the next
/// identifier, and returns that identifier.
pub fn add_todo(list: &mut TodoList, description: String) -> (id: usize)
    requires
        old(list).next_id < usize::MAX,
    ensures
        id == old(list).next_id,
        final(list)@ == old(list)@.add(description@, time_label()),
        old(list)@.well_formed() ==> final(list)@.well_formed(),
{
    let id = list.next_id;
    let todo = Todo { id, description, completed: false, created_at: get_current_time() };
    list.todos.push(todo);
    list.next_id += 1;
    assert(list@.tasks =~= old(list)@.add(description@, time_label()).tasks);
    proof {
        if old(list)@.well_formed() {
            lemma_add_well_formed(old(list)@, description@, time_label());
        }
    }
    id
}

/// Marks the first task with identifier `id` as completed. Fails, and
/// leaves the list as it was, where no task has that identifier or the task
/// was completed before.
pub fn complete_todo(list: &mut TodoList, id: usize) -> (r: Result<(), String>)
    ensures
        match old(list)@.complete(id as nat) {
            Ok(after) => r is Ok && final(list)@ == after,
            Err(text) => r is Err && r->Err_0@ == text && final(list)@ == old(list)@,
        },
        old(list)@.well_formed() ==> final(list)@.well_formed(),
{
    match find(list, id) {
        Some(i) => {
            if list.todos[i].completed {
                Err(already_completed_message(id))
            } else {
                list.todos[i].completed = true;
                assert(list@.tasks =~= old(list)@.marked(i as int).tasks);
                proof {
                    if old(list)@.well_formed() {
                        lemma_marked_well_formed(old(list)@, i as int);
                    }
                }
                Ok(())
            }
        },
        None => Err(not_found_message(id)),
    }
}

/// Removes the first task with identifier `id`; the others keep their
/// order. Fails, and leaves the list as it was, where no task has that
/// identifier.
pub fn delete_todo(list: &mut TodoList, id: usize) -> (r: Result<(), String>)
    ensures
        match old(list)@.delete(id as nat) {
            Ok(after) => r is Ok && final(list)@ == after,
            Err(text) => r is Err && r->Err_0@ == text && final(list)@ == old(list)@,
        },
        !old(list)@.has(id as nat) ==> r is Err && r->Err_0@ == not_found_text(id as nat)
            && final(list)@ == old(list)@,
        old(list)@.well_formed() ==> final(list)@.well_formed(),
{
    proof {
        lemma_position_has(old(list)@, id as nat);
    }
    match find(list, id) {
        Some(i) => {
            list.todos.remove(i);
            assert(list@.tasks =~= old(list)@.tasks.remove(i as int));
            proof {
                if old(list)@.well_formed() {
                    lemma_delete_well_formed(old(list)@, id as nat);
                }
            }
            Ok(())
        },
        None => Err(not_found_message(id)),
    }
}

/// Adding a task keeps the identifiers in order.
pub proof fn lemma_add_well_formed(s: StoreView, description: Seq<char>, created_at: Seq<char>)
    requires
        s.well_formed(),
    ensures
        s.add(description, created_at).well_formed(),
{
}

/// Marking a task as completed keeps the identifiers in order.
pub proof fn lemma_marked_well_formed(s: StoreView, i: int)
    requires
        s.well_formed(),
        0 <= i < s.tasks.len(),
    ensures
        s.marked(i).well_formed(),
{
}

/// Removing a task keeps the identifiers in order.
pub proof fn lemma_delete_well_formed(s: StoreView, id: nat)
    requires
        s.well_formed(),
    ensures
        s.delete(id) is Ok ==> s.delete(id)->Ok_0.well_formed(),
{
    lemma_position(s.tasks, id);
}

/// How a listing shows one task: identifier, a box that is ticked once the
/// task is completed, description, and the time of creation in brackets.
pub open spec fn entry_text(task: TaskView) -> Seq<char> {
    decimal(task.id) + " "@ + (if task.completed {
        "[\u{2713}]"@
    } else {
        "[ ]"@
    }) + " "@ + task.description + " ("@ + task.created_at + ")"@
}

/// How many of `tasks` are completed.
pub open spec fn completed_count(tasks: Seq<TaskView>) -> nat
    decreases tasks.len(),
{
    if tasks.len() == 0 {
        0
    } else {
        completed_count(tasks.drop_last()) + if tasks.last().completed {
            1nat
        } else {
            0nat
        }
    }
}

/// A list as it is shown: one entry for each task, oldest first, and how
/// many tasks are completed and how many are not.
#[derive(Debug, Clone, PartialEq, Eq)]
pub struct Listing {
    pub entries: Vec<String>,
    pub completed: usize,
    pub pending: usize,
}

fn entry(todo: &Todo) -> (line: String)
    ensures
        line@ == entry_text(todo@),
{
    let mut line = String::new();
    push_decimal(&mut line, todo.id);
    line.append(" ");
    if todo.completed {
        line.append("[\u{2713}]");
    } else {
        line.append("[ ]");
    }
    line.append(" ");
    line.append(todo.description.as_str());
    line.append(" (");
    line.append(todo.created_at.as_str());
    line.append(")");
    assert(line@ =~= entry_text(todo@));
    line
}

/// The listing of `list`, or nothing where the list holds no task.
pub fn list_todos(list: &TodoList) -> (listing: Option<Listing>)
    ensures
        listing is None <==> list@.tasks.len() == 0,
        listing matches Some(shown) ==> {
            &&& shown.entries.len() == list@.tasks.len()
            &&& forall|i: int|
                0 <= i < list@.tasks.len() ==> (#[trigger] shown.entries[i])@ == entry_text(
                    list@.tasks[i],
                )
            &&& shown.completed == completed_count(list@.tasks)
            &&& shown.pending == list@.tasks.len() - completed_count(list@.tasks)
        },
{
    if list.todos.len() == 0 {
        return None;
    }
    let mut entries: Vec<String> = Vec::new();
    let mut completed: usize = 0;
    let mut pending: usize = 0;
    let mut i: usize = 0;
    assert(list@.tasks.take(0) =~= Seq::empty());
    while i < list.todos.len()
        invariant
            i <= list.todos.len(),
            entries.len() == i,
            forall|j: int| 0 <= j < i ==> (#[trigger] entries[j])@ == entry_text(list@.tasks[j]),
            completed == completed_count(list@.tasks.take(i as int)),
            completed + pending == i,
        decreases list.todos.len() - i,
    {
        let todo = &list.todos[i];
        entries.push(entry(todo));
        assert(list@.tasks.take(i as int + 1).drop_last() =~= list@.tasks.take(i as int));
        if todo.completed {
            completed += 1;
        } else {
            pending += 1;
        }
        i += 1;
    }
    assert(list@.tasks.take(i as int) =~= list@.tasks);
    Some(Listing { entries, completed, pending })
}

/// The store after one task was added for each of `descriptions`, in order.
pub open spec fn add_all(
    s: StoreView,
    descriptions: Seq<Seq<char>>,
    created_at: Seq<char>,
) -> StoreView
    decreases descriptions.len(),
{
    if descriptions.len() == 0 {
        s
    } else {
        add_all(s, descriptions.drop_last(), created_at).add(descriptions.last(), created_at)
    }
}

/// Tasks added to an empty store stand in the order in which they were
/// added, none of them completed, under the identifiers 1, 2, 3 and so on.
pub proof fn lemma_add_all_sequential(descriptions: Seq<Seq<char>>, created_at: Seq<char>)
    ensures
        ({
            let s = add_all(StoreView::empty(), descriptions, created_at);
            &&& s.well_formed()
            &&& s.tasks.len() == descriptions.len()
            &&& s.next_id == descriptions.len() + 1
            &&& forall|i: int|
                0 <= i < descriptions.len() ==> #[trigger] s.tasks[i] == (TaskView {
                    id: (i + 1) as nat,
                    description: descriptions[i],
                    completed: false,
                    created_at,
                })
        }),
    decreases descriptions.len(),
{
    if descriptions.len() > 0 {
        lemma_add_all_sequential(descriptions.drop_last(), created_at);
    }
}

/// The store as an attempt to complete the task `id` leaves it.
pub open spec fn after_complete(s: StoreView, id: nat) -> StoreView {
    match s.complete(id) {
        Ok(after) => after,
        Err(_) => s,
    }
}

/// Once a task was asked to be completed, asking again fails: with "already
/// completed" where the task exists, and its flag stays set.
pub proof fn lemma_complete_twice(s: StoreView, id: nat)
    ensures
        after_complete(s, id).complete(id) is Err,
        after_complete(after_complete(s, id), id) == after_complete(s, id),
        s.has(id) ==> {
            let after = after_complete(s, id);
            &&& after.complete(id) == Err::<StoreView, Seq<char>>(already_completed_text(id))
            &&& position(after.tasks, id) == position(s.tasks, id)
            &&& after.tasks[position(s.tasks, id)].completed
        },
{
    lemma_position(s.tasks, id);
    lemma_position_has(s, id);
    let i = position(s.tasks, id);
    if i < s.tasks.len() {
        lemma_position_is(after_complete(s, id).tasks, id, i);
    }
}

/// Removing a task whose identifier no task has changes nothing.
pub proof fn lemma_delete_absent(s: StoreView, id: nat)
    requires
        !s.has(id),
    ensures
        s.delete(id) == Err::<StoreView, Seq<char>>(not_found_text(id)),
{
    lemma_position_has(s, id);
}

} // verus!

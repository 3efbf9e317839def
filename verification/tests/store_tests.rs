use todo_calc::store::{
    add_todo, complete_todo, delete_todo, get_current_time, list_todos, Todo, TodoList,
};

fn list_of(descriptions: &[&str]) -> TodoList {
    let mut list = TodoList::new();
    for d in descriptions {
        add_todo(&mut list, d.to_string());
    }
    list
}

#[test]
fn new_list_is_empty_and_starts_at_one() {
    let list = TodoList::new();
    assert!(list.todos.is_empty());
    assert_eq!(list.next_id, 1);
}

#[test]
fn current_time_is_the_fixed_label() {
    assert_eq!(get_current_time(), "2024-01-20 12:00");
}

#[test]
fn add_returns_the_identifier_it_assigned() {
    let mut list = TodoList::new();
    assert_eq!(add_todo(&mut list, "first".to_string()), 1);
    assert_eq!(add_todo(&mut list, "second".to_string()), 2);
    assert_eq!(list.next_id, 3);
    assert_eq!(
        list.todos[1],
        Todo {
            id: 2,
            description: "second".to_string(),
            completed: false,
            created_at: "2024-01-20 12:00".to_string(),
        }
    );
}

#[test]
fn adding_n_tasks_lists_n_entries_in_order() {
    let names = ["a", "b", "c", "d", "e"];
    let list = list_of(&names);
    let shown = list_todos(&list).unwrap();
    assert_eq!(shown.entries.len(), 5);
    for (i, name) in names.iter().enumerate() {
        assert_eq!(list.todos[i].id, i + 1);
        assert_eq!(list.todos[i].description, *name);
        assert_eq!(
            shown.entries[i],
            format!("{} [ ] {} (2024-01-20 12:00)", i + 1, name)
        );
    }
    assert_eq!(shown.completed, 0);
    assert_eq!(shown.pending, 5);
}

#[test]
fn listing_an_empty_list_gives_nothing() {
    assert_eq!(list_todos(&TodoList::new()), None);
}

#[test]
fn listing_counts_completed_and_pending() {
    let mut list = list_of(&["a", "b", "c"]);
    complete_todo(&mut list, 2).unwrap();
    let shown = list_todos(&list).unwrap();
    assert_eq!(shown.completed, 1);
    assert_eq!(shown.pending, 2);
    assert_eq!(shown.entries[1], "2 [\u{2713}] b (2024-01-20 12:00)");
    assert_eq!(shown.entries[0], "1 [ ] a (2024-01-20 12:00)");
}

#[test]
fn completing_twice_fails_the_second_time() {
    let mut list = list_of(&["a", "b"]);
    assert_eq!(complete_todo(&mut list, 2), Ok(()));
    assert!(list.todos[1].completed);
    let before = list.clone();
    assert_eq!(
        complete_todo(&mut list, 2),
        Err("Task 2 is already completed!".to_string())
    );
    assert!(list.todos[1].completed);
    assert_eq!(list, before);
}

#[test]
fn completing_touches_no_other_task() {
    let mut list = list_of(&["a", "b", "c"]);
    complete_todo(&mut list, 2).unwrap();
    assert!(!list.todos[0].completed);
    assert!(!list.todos[2].completed);
    assert_eq!(list.todos.len(), 3);
    assert_eq!(list.next_id, 4);
}

#[test]
fn completing_a_missing_task_is_not_found() {
    let mut list = list_of(&["a"]);
    let before = list.clone();
    assert_eq!(
        complete_todo(&mut list, 12),
        Err("Task with ID 12 not found!".to_string())
    );
    assert_eq!(list, before);
}

#[test]
fn deleting_a_missing_task_is_not_found_and_changes_nothing() {
    let mut list = list_of(&["a", "b"]);
    let before = list.clone();
    assert_eq!(
        delete_todo(&mut list, 7),
        Err("Task with ID 7 not found!".to_string())
    );
    assert_eq!(list, before);
    assert_eq!(
        delete_todo(&mut list, 0),
        Err("Task with ID 0 not found!".to_string())
    );
    assert_eq!(list, before);
}

#[test]
fn deleting_keeps_the_order_of_the_rest() {
    let mut list = list_of(&["a", "b", "c", "d"]);
    assert_eq!(delete_todo(&mut list, 2), Ok(()));
    let ids: Vec<usize> = list.todos.iter().map(|t| t.id).collect();
    assert_eq!(ids, vec![1, 3, 4]);
    assert_eq!(list.todos[1].description, "c");
}

#[test]
fn identifiers_are_not_reused_after_a_delete() {
    let mut list = list_of(&["a", "b"]);
    delete_todo(&mut list, 2).unwrap();
    assert_eq!(list.next_id, 3);
    assert_eq!(add_todo(&mut list, "c".to_string()), 3);
    let ids: Vec<usize> = list.todos.iter().map(|t| t.id).collect();
    assert_eq!(ids, vec![1, 3]);
}

#[test]
fn the_first_of_two_tasks_with_one_identifier_is_taken() {
    let task = |id: usize, d: &str| Todo {
        id,
        description: d.to_string(),
        completed: false,
        created_at: "t".to_string(),
    };
    let mut list = TodoList { todos: vec![task(5, "x"), task(5, "y")], next_id: 1 };
    complete_todo(&mut list, 5).unwrap();
    assert!(list.todos[0].completed);
    assert!(!list.todos[1].completed);
    delete_todo(&mut list, 5).unwrap();
    assert_eq!(list.todos.len(), 1);
    assert_eq!(list.todos[0].description, "y");
}

#[test]
fn messages_write_large_identifiers_in_full() {
    let mut list = TodoList::new();
    assert_eq!(
        delete_todo(&mut list, 1234567890),
        Err("Task with ID 1234567890 not found!".to_string())
    );
}

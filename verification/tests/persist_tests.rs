use todo_calc::persist::{deserialize, load, serialize};
use todo_calc::store::{add_todo, complete_todo, delete_todo, Todo, TodoList};

fn task(id: usize, description: &str, completed: bool, created_at: &str) -> Todo {
    Todo {
        id,
        description: description.to_string(),
        completed,
        created_at: created_at.to_string(),
    }
}

#[test]
fn an_empty_list_is_written_as_its_counter() {
    assert_eq!(serialize(&TodoList::new()), "1\n");
}

#[test]
fn tasks_are_written_one_to_a_line() {
    let list = TodoList {
        todos: vec![task(1, "buy milk", false, "t1"), task(3, "call", true, "t2")],
        next_id: 4,
    };
    assert_eq!(serialize(&list), "4\n1|buy milk|false|t1\n3|call|true|t2\n");
}

#[test]
fn write_then_read_gives_the_list_back() {
    let mut list = TodoList::new();
    add_todo(&mut list, "buy milk".to_string());
    add_todo(&mut list, "call home".to_string());
    add_todo(&mut list, "sleep".to_string());
    complete_todo(&mut list, 2).unwrap();
    delete_todo(&mut list, 1).unwrap();
    let text = serialize(&list);
    assert_eq!(deserialize(&text), list);
    assert_eq!(serialize(&deserialize(&text)), text);
}

#[test]
fn write_then_read_keeps_an_empty_list() {
    let list = TodoList { todos: vec![], next_id: 9 };
    assert_eq!(deserialize(&serialize(&list)), list);
}

#[test]
fn write_then_read_keeps_empty_fields_and_large_numbers() {
    let list = TodoList {
        todos: vec![task(usize::MAX, "", false, ""), task(0, " x ", true, "")],
        next_id: usize::MAX,
    };
    assert_eq!(deserialize(&serialize(&list)), list);
}

#[test]
fn a_description_with_a_bar_is_not_read_back() {
    let list = TodoList { todos: vec![task(1, "a|b", false, "t")], next_id: 2 };
    let back = deserialize(&serialize(&list));
    assert_eq!(back, TodoList { todos: vec![], next_id: 2 });
}

#[test]
fn a_time_that_ends_with_whitespace_is_read_back() {
    let list = TodoList { todos: vec![task(1, "a", false, "t ")], next_id: 2 };
    let text = serialize(&list);
    assert_eq!(text, "2\n1|a|false|t \n");
    assert_eq!(deserialize(&text), list);
    assert_eq!(load(Some(&text)).todos[0].created_at, "t ");
}

#[test]
fn whitespace_at_either_end_of_a_field_is_read_back() {
    let list = TodoList {
        todos: vec![
            task(1, " a ", false, "\t"),
            task(2, "\u{a0}b", true, " t \r"),
            task(3, "c  ", false, "  "),
        ],
        next_id: 4,
    };
    assert_eq!(deserialize(&serialize(&list)), list);
}

#[test]
fn missing_text_gives_an_empty_list() {
    assert_eq!(load(None), TodoList::new());
    assert_eq!(load(Some("7\n2|x|true|t\n")), deserialize("7\n2|x|true|t\n"));
}

#[test]
fn empty_text_gives_counter_one() {
    assert_eq!(deserialize(""), TodoList::new());
    assert_eq!(deserialize("  \n \n"), TodoList::new());
}

#[test]
fn a_counter_that_is_no_number_defaults_to_one() {
    let list = deserialize("abc\n1|x|false|t");
    assert_eq!(list.next_id, 1);
    assert_eq!(list.todos, vec![task(1, "x", false, "t")]);
    assert_eq!(deserialize("-3\n").next_id, 1);
    assert_eq!(deserialize("+3\n").next_id, 3);
}

#[test]
fn lines_without_four_fields_are_skipped() {
    let text = "5\n1|a|false|t\nrubbish\n2|b|true\n3|c|true|t|more\n\n4|d|true|t\n";
    let list = deserialize(text);
    assert_eq!(list.next_id, 5);
    assert_eq!(list.todos, vec![task(1, "a", false, "t"), task(4, "d", true, "t")]);
}

#[test]
fn lines_whose_identifier_is_no_number_are_skipped() {
    let list = deserialize("5\nx|a|false|t\n 1|a|false|t\n2|b|false|t\n");
    assert_eq!(list.todos, vec![task(2, "b", false, "t")]);
}

#[test]
fn only_the_word_true_counts_as_completed() {
    let list = deserialize("1\n1|a|true|t\n2|b|TRUE|t\n3|c|yes|t\n4|d||t\n5|e|true |t");
    let flags: Vec<bool> = list.todos.iter().map(|t| t.completed).collect();
    assert_eq!(flags, vec![true, false, false, false, false]);
}

#[test]
fn nothing_is_taken_away_from_a_line() {
    let list = deserialize("3 \n1|a|false|t \n");
    assert_eq!(list.next_id, 1);
    assert_eq!(list.todos, vec![task(1, "a", false, "t ")]);
    let list = deserialize(" 3\n1|a|false| t");
    assert_eq!(list.next_id, 1);
    assert_eq!(list.todos, vec![task(1, "a", false, " t")]);
}

#[test]
fn the_counter_is_on_the_first_line_even_if_that_is_empty() {
    let list = deserialize("\n3\n1|a|false|t\n");
    assert_eq!(list.next_id, 1);
    assert_eq!(list.todos, vec![task(1, "a", false, "t")]);
}

#[test]
fn empty_lines_keep_no_task() {
    let list = deserialize("3\n\n1|a|false|t\n\n\n2|b|true|u\n\n");
    assert_eq!(list.next_id, 3);
    assert_eq!(list.todos, vec![task(1, "a", false, "t"), task(2, "b", true, "u")]);
}

#[test]
fn the_last_line_needs_no_line_break() {
    let list = deserialize("3\n1|a|false|t\n2|b|true|u ");
    assert_eq!(list.todos, vec![task(1, "a", false, "t"), task(2, "b", true, "u ")]);
    assert_eq!(deserialize("12").next_id, 12);
    assert!(deserialize("12").todos.is_empty());
}

#[test]
fn carriage_returns_stay_in_the_fields() {
    let list = deserialize("2\r\n1|a|false|t\r\n2|b|false|t\r\n");
    assert_eq!(list.next_id, 1);
    assert_eq!(list.todos, vec![task(1, "a", false, "t\r"), task(2, "b", false, "t\r")]);
}

#[test]
fn reading_does_not_check_the_identifiers() {
    let list = deserialize("1\n9|a|false|t\n9|b|false|t\n");
    assert_eq!(list.next_id, 1);
    assert_eq!(list.todos.len(), 2);
}

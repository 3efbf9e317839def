use todo_calc::calc::{meta_command, operation_named, parse_operation, Meta, UnknownCommand};
use todo_calc::stack::Operation;

fn parse(line: &str) -> Result<Operation<f64>, UnknownCommand> {
    parse_operation(line, line.parse::<f64>().ok())
}

#[test]
fn a_number_is_pushed() {
    assert_eq!(parse("3"), Ok(Operation::Push(3.0)));
    assert_eq!(parse("-2.5"), Ok(Operation::Push(-2.5)));
    assert_eq!(parse("1e3"), Ok(Operation::Push(1000.0)));
}

#[test]
fn each_operation_has_its_names() {
    assert_eq!(parse("+"), Ok(Operation::Add));
    assert_eq!(parse("add"), Ok(Operation::Add));
    assert_eq!(parse("-"), Ok(Operation::Sub));
    assert_eq!(parse("sub"), Ok(Operation::Sub));
    assert_eq!(parse("*"), Ok(Operation::Mul));
    assert_eq!(parse("mul"), Ok(Operation::Mul));
    assert_eq!(parse("/"), Ok(Operation::Div));
    assert_eq!(parse("div"), Ok(Operation::Div));
    assert_eq!(parse("pop"), Ok(Operation::Pop));
    assert_eq!(parse("dup"), Ok(Operation::Dup));
    assert_eq!(parse("swap"), Ok(Operation::Swap));
    assert_eq!(parse("print"), Ok(Operation::Print));
    assert_eq!(parse("."), Ok(Operation::Print));
    assert_eq!(parse("clear"), Ok(Operation::Clear));
    assert_eq!(parse("cls"), Ok(Operation::Clear));
}

#[test]
fn names_are_taken_in_lower_case() {
    assert_eq!(parse("ADD"), Ok(Operation::Add));
    assert_eq!(parse("Swap"), Ok(Operation::Swap));
    assert_eq!(parse("cLs"), Ok(Operation::Clear));
}

#[test]
fn a_name_looked_up_as_it_stands_is_case_sensitive() {
    assert_eq!(operation_named::<f64>("add"), Some(Operation::Add));
    assert_eq!(operation_named::<f64>("ADD"), None);
    assert_eq!(operation_named::<f64>(""), None);
}

#[test]
fn anything_else_is_an_unknown_command_that_names_the_input() {
    let err = parse("Frobnicate").unwrap_err();
    assert_eq!(err, UnknownCommand { input: "Frobnicate".to_string() });
    assert_eq!(err.message(), "unknown command: Frobnicate");
    assert!(parse("").is_err());
    assert!(parse("add 1").is_err());
    assert!(parse("++").is_err());
}

#[test]
fn the_number_wins_over_the_name() {
    assert_eq!(parse_operation("add", Some(1.5)), Ok(Operation::Push(1.5)));
}

#[test]
fn meta_commands_are_literal() {
    assert_eq!(meta_command("quit"), Some(Meta::Quit));
    assert_eq!(meta_command("exit"), Some(Meta::Quit));
    assert_eq!(meta_command("help"), Some(Meta::Help));
    assert_eq!(meta_command("stack"), Some(Meta::Stack));
    assert_eq!(meta_command("QUIT"), None);
    assert_eq!(meta_command("quit "), None);
    assert_eq!(meta_command("add"), None);
    assert_eq!(meta_command(""), None);
}

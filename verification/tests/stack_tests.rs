use todo_calc::stack::{Arithmetic, Machine, Operation, Shown, StackError};

fn arith(kind: Arithmetic, a: f64, b: f64) -> f64 {
    match kind {
        Arithmetic::Add => a + b,
        Arithmetic::Sub => a - b,
        Arithmetic::Mul => a * b,
        Arithmetic::Div => a / b,
    }
}

fn is_zero(x: f64) -> bool {
    x == 0.0
}

fn run(m: &mut Machine<f64>, op: Operation<f64>) -> Result<Shown<f64>, StackError> {
    m.execute(op, &arith, &is_zero)
}

fn machine_of(values: &[f64]) -> Machine<f64> {
    let mut m = Machine::new();
    for v in values {
        assert_eq!(run(&mut m, Operation::Push(*v)), Ok(Shown::Nothing));
    }
    m
}

#[test]
fn push_3_push_4_add_leaves_7() {
    let mut m = Machine::new();
    run(&mut m, Operation::Push(3.0)).unwrap();
    run(&mut m, Operation::Push(4.0)).unwrap();
    assert_eq!(run(&mut m, Operation::Add), Ok(Shown::Nothing));
    assert_eq!(m.values, vec![7.0]);
}

#[test]
fn div_by_zero_fails_and_leaves_10_0() {
    let mut m = machine_of(&[10.0, 0.0]);
    assert_eq!(run(&mut m, Operation::Div), Err(StackError::DivisionByZero));
    assert_eq!(m.values, vec![10.0, 0.0]);
}

#[test]
fn div_by_negative_zero_fails_too() {
    let mut m = machine_of(&[1.0, -0.0]);
    assert_eq!(run(&mut m, Operation::Div), Err(StackError::DivisionByZero));
    assert_eq!(m.values.len(), 2);
}

#[test]
fn operands_are_taken_in_the_order_they_were_pushed() {
    let mut m = machine_of(&[10.0, 4.0]);
    run(&mut m, Operation::Sub).unwrap();
    assert_eq!(m.values, vec![6.0]);
    let mut m = machine_of(&[1.0, 10.0, 4.0]);
    run(&mut m, Operation::Div).unwrap();
    assert_eq!(m.values, vec![1.0, 2.5]);
    let mut m = machine_of(&[3.0, 5.0]);
    run(&mut m, Operation::Mul).unwrap();
    assert_eq!(m.values, vec![15.0]);
}

#[test]
fn arithmetic_needs_two_values() {
    for op in [Operation::Add, Operation::Sub, Operation::Mul, Operation::Div] {
        let mut m = machine_of(&[]);
        assert_eq!(run(&mut m, op), Err(StackError::NotEnoughValues));
        assert!(m.values.is_empty());
        let mut m = machine_of(&[5.0]);
        assert_eq!(run(&mut m, op), Err(StackError::NotEnoughValues));
        assert_eq!(m.values, vec![5.0]);
    }
}

#[test]
fn div_with_one_zero_reports_too_few_values() {
    let mut m = machine_of(&[0.0]);
    assert_eq!(run(&mut m, Operation::Div), Err(StackError::NotEnoughValues));
    assert_eq!(m.values, vec![0.0]);
}

#[test]
fn pop_discards_the_top() {
    let mut m = machine_of(&[1.0, 2.0]);
    assert_eq!(run(&mut m, Operation::Pop), Ok(Shown::Nothing));
    assert_eq!(m.values, vec![1.0]);
    run(&mut m, Operation::Pop).unwrap();
    assert_eq!(run(&mut m, Operation::Pop), Err(StackError::StackEmpty));
    assert!(m.values.is_empty());
}

#[test]
fn dup_copies_the_top() {
    let mut m = machine_of(&[1.0, 2.0]);
    run(&mut m, Operation::Dup).unwrap();
    assert_eq!(m.values, vec![1.0, 2.0, 2.0]);
    let mut m = machine_of(&[]);
    assert_eq!(run(&mut m, Operation::Dup), Err(StackError::StackEmpty));
}

#[test]
fn swap_exchanges_the_top_two() {
    let mut m = machine_of(&[1.0, 2.0, 3.0]);
    run(&mut m, Operation::Swap).unwrap();
    assert_eq!(m.values, vec![1.0, 3.0, 2.0]);
    let mut m = machine_of(&[1.0]);
    assert_eq!(run(&mut m, Operation::Swap), Err(StackError::NeedTwoValues));
    assert_eq!(m.values, vec![1.0]);
    let mut m = machine_of(&[]);
    assert_eq!(run(&mut m, Operation::Swap), Err(StackError::NeedTwoValues));
}

#[test]
fn print_shows_the_top_and_changes_nothing() {
    let mut m = machine_of(&[1.0, 2.0]);
    assert_eq!(run(&mut m, Operation::Print), Ok(Shown::Top(2.0)));
    assert_eq!(m.values, vec![1.0, 2.0]);
    let mut m = machine_of(&[]);
    assert_eq!(run(&mut m, Operation::Print), Ok(Shown::Empty));
}

#[test]
fn clear_discards_everything() {
    let mut m = machine_of(&[1.0, 2.0, 3.0]);
    assert_eq!(run(&mut m, Operation::Clear), Ok(Shown::Nothing));
    assert!(m.values.is_empty());
    assert_eq!(run(&mut m, Operation::Clear), Ok(Shown::Nothing));
}

#[test]
fn errors_have_their_words() {
    assert_eq!(StackError::NotEnoughValues.message(), "not enough values");
    assert_eq!(StackError::DivisionByZero.message(), "division by zero");
    assert_eq!(StackError::StackEmpty.message(), "stack is empty");
    assert_eq!(StackError::NeedTwoValues.message(), "need at least 2 values");
}

#[test]
fn the_machine_works_on_other_numbers() {
    let mut m: Machine<i64> = Machine::new();
    let add = |_: Arithmetic, a: i64, b: i64| a + b;
    let zero = |x: i64| x == 0;
    m.execute(Operation::Push(2), &add, &zero).unwrap();
    m.execute(Operation::Push(40), &add, &zero).unwrap();
    m.execute(Operation::Add, &add, &zero).unwrap();
    assert_eq!(m.values, vec![42]);
}

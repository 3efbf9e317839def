//! The stack of a calculator that takes its operands before the operator.
//!
//! The machine keeps the order of the numbers and decides when an operation
//! can be carried out. What a number is, and how two of them are added or
//! divided, is the caller's business: the arithmetic comes in as functions.

use vstd::prelude::*;

verus! {

/// The four operations that take two numbers and leave one.
#[derive(Debug, Clone, Copy, PartialEq, Eq, Structural)]
pub enum Arithmetic {
    Add,
    Sub,
    Mul,
    Div,
}

/// What the machine can be asked to do.
#[derive(Debug, Clone, Copy, PartialEq)]
pub enum Operation<T> {
    /// Put a number on top.
    Push(T),
    /// Replace the two numbers on top by their sum.
    Add,
    /// Replace the two numbers on top by their difference.
    Sub,
    /// Replace the two numbers on top by their product.
    Mul,
    /// Replace the two numbers on top by their quotient.
    Div,
    /// Take the top number away.
    Pop,
    /// Put a copy of the top number on top.
    Dup,
    /// Exchange the two numbers on top.
    Swap,
    /// Show the top number.
    Print,
    /// Take all numbers away.
    Clear,
}

/// Why an operation was not carried out.
#[derive(Debug, Clone, Copy, PartialEq, Eq, Structural)]
pub enum StackError {
    /// An arithmetic operation found fewer than two numbers.
    NotEnoughValues,
    /// The number on top, by which to divide, is zero.
    DivisionByZero,
    /// `Pop` or `Dup` found no number.
    StackEmpty,
    /// `Swap` found fewer than two numbers.
    NeedTwoValues,
}

/// What an operation that was carried out leaves to be shown.
#[derive(Debug, Clone, Copy, PartialEq)]
pub enum Shown<T> {
    /// Nothing.
    Nothing,
    /// The number on top.
    Top(T),
    /// That there is no number.
    Empty,
}

/// The numbers, the last of them on top.
#[derive(Debug, Clone, PartialEq)]
pub struct Machine<T> {
    pub values: Vec<T>,
}

impl<T> View for Machine<T> {
    type V = Seq<T>;

    open spec fn view(&self) -> Seq<T> {
        self.values@
    }
}

/// `before` without its two top numbers, and `result` in their place.
pub open spec fn combined<T>(before: Seq<T>, result: T) -> Seq<T> {
    before.take(before.len() - 2).push(result)
}

/// `before` with its two top numbers in each other's place.
pub open spec fn swapped<T>(before: Seq<T>) -> Seq<T> {
    before.take(before.len() - 2).push(before[before.len() - 1]).push(before[before.len() - 2])
}

impl StackError {
    /// The words in which the error is reported.
    pub open spec fn text(self) -> Seq<char> {
        match self {
            StackError::NotEnoughValues => "not enough values"@,
            StackError::DivisionByZero => "division by zero"@,
            StackError::StackEmpty => "stack is empty"@,
            StackError::NeedTwoValues => "need at least 2 values"@,
        }
    }

    /// The words in which the error is reported.
    pub fn message(&self) -> (words: String)
        ensures
            words@ == self.text(),
    {
        match self {
            StackError::NotEnoughValues => "not enough values".to_owned(),
            StackError::DivisionByZero => "division by zero".to_owned(),
            StackError::StackEmpty => "stack is empty".to_owned(),
            StackError::NeedTwoValues => "need at least 2 values".to_owned(),
        }
    }
}

impl<T: Copy> Machine<T> {
    /// A machine without numbers.
    pub fn new() -> (machine: Machine<T>)
        ensures
            machine@ == Seq::<T>::empty(),
    {
        Machine { values: Vec::new() }
    }

    /// Carries out `op`, or says why not.
    ///
    /// The arithmetic is the caller's: `arith` gives the result of an
    /// operation on the second number from the top and the number on top,
    /// and `is_zero` says whether a divisor is zero. An operation that fails
    /// leaves the numbers as they were.
    pub fn execute<F: Fn(Arithmetic, T, T) -> T, Z: Fn(T) -> bool>(
        &mut self,
        op: Operation<T>,
        arith: &F,
        is_zero: &Z,
    ) -> (r: Result<Shown<T>, StackError>)
        requires
            forall|k: Arithmetic, a: T, b: T| call_requires(arith, (k, a, b)),
            forall|x: T| call_requires(is_zero, (x,)),
        ensures
            step(old(self)@, op, arith, is_zero, final(self)@, r),
            r is Err ==> final(self)@ == old(self)@,
    {
        let n = self.values.len();
        match op {
            Operation::Push(value) => {
                self.values.push(value);
                Ok(Shown::Nothing)
            },
            Operation::Add => self.combine(Arithmetic::Add, arith, is_zero),
            Operation::Sub => self.combine(Arithmetic::Sub, arith, is_zero),
            Operation::Mul => self.combine(Arithmetic::Mul, arith, is_zero),
            Operation::Div => self.combine(Arithmetic::Div, arith, is_zero),
            Operation::Pop => {
                if n == 0 {
                    Err(StackError::StackEmpty)
                } else {
                    self.values.pop();
                    Ok(Shown::Nothing)
                }
            },
            Operation::Dup => {
                if n == 0 {
                    Err(StackError::StackEmpty)
                } else {
                    let top = self.values[n - 1];
                    self.values.push(top);
                    Ok(Shown::Nothing)
                }
            },
            Operation::Swap => {
                if n < 2 {
                    Err(StackError::NeedTwoValues)
                } else {
                    let b = self.values[n - 1];
                    let a = self.values[n - 2];
                    self.values.set(n - 2, b);
                    self.values.set(n - 1, a);
                    assert(self@ =~= swapped(old(self)@));
                    Ok(Shown::Nothing)
                }
            },
            Operation::Print => {
                if n == 0 {
                    Ok(Shown::Empty)
                } else {
                    Ok(Shown::Top(self.values[n - 1]))
                }
            },
            Operation::Clear => {
                self.values.clear();
                Ok(Shown::Nothing)
            },
        }
    }

    /// Replaces the two numbers on top by what `arith` makes of them. For a
    /// division, `is_zero` is first asked about the number on top, and
    /// nothing changes where it says yes.
    fn combine<F: Fn(Arithmetic, T, T) -> T, Z: Fn(T) -> bool>(
        &mut self,
        kind: Arithmetic,
        arith: &F,
        is_zero: &Z,
    ) -> (r: Result<Shown<T>, StackError>)
        requires
            forall|k: Arithmetic, a: T, b: T| call_requires(arith, (k, a, b)),
            forall|x: T| call_requires(is_zero, (x,)),
        ensures
            binary_step(old(self)@, kind, arith, is_zero, final(self)@, r),
    {
        let n = self.values.len();
        if n < 2 {
            return Err(StackError::NotEnoughValues);
        }
        let b = self.values[n - 1];
        self.values.pop();
        if kind == Arithmetic::Div {
            let zero = is_zero(b);
            if zero {
                self.values.push(b);
                assert(self@ =~= old(self)@);
                return Err(StackError::DivisionByZero);
            }
        }
        let a = self.values[n - 2];
        self.values.pop();
        let result = arith(kind, a, b);
        self.values.push(result);
        assert(self@ =~= combined(old(self)@, result));
        Ok(Shown::Nothing)
    }
}

/// What an arithmetic operation makes of the numbers `before`.
///
/// With fewer than two numbers it fails and changes nothing. A division
/// whose divisor, the number on top, is zero fails too and changes nothing.
/// Otherwise the two numbers on top give way to one result of `arith` on the
/// second number from the top and the number on top, in this order.
pub open spec fn binary_step<T, F: Fn(Arithmetic, T, T) -> T, Z: Fn(T) -> bool>(
    before: Seq<T>,
    kind: Arithmetic,
    arith: &F,
    is_zero: &Z,
    after: Seq<T>,
    r: Result<Shown<T>, StackError>,
) -> bool {
    if before.len() < 2 {
        r == Err::<Shown<T>, StackError>(StackError::NotEnoughValues) && after == before
    } else {
        let a = before[before.len() - 2];
        let b = before[before.len() - 1];
        ||| {
            &&& kind == Arithmetic::Div
            &&& call_ensures(is_zero, (b,), true)
            &&& r == Err::<Shown<T>, StackError>(StackError::DivisionByZero)
            &&& after == before
        }
        ||| {
            &&& kind == Arithmetic::Div ==> call_ensures(is_zero, (b,), false)
            &&& r == Ok::<Shown<T>, StackError>(Shown::Nothing)
            &&& after.len() == before.len() - 1
            &&& after == combined(before, after.last())
            &&& call_ensures(arith, (kind, a, b), after.last())
        }
    }
}

/// Which arithmetic an operation asks for, if any.
pub open spec fn arithmetic_of<T>(op: Operation<T>) -> Option<Arithmetic> {
    match op {
        Operation::Add => Some(Arithmetic::Add),
        Operation::Sub => Some(Arithmetic::Sub),
        Operation::Mul => Some(Arithmetic::Mul),
        Operation::Div => Some(Arithmetic::Div),
        _ => None,
    }
}

/// What `op` makes of the numbers `before`: the numbers `after` and the
/// answer `r`.
pub open spec fn step<T, F: Fn(Arithmetic, T, T) -> T, Z: Fn(T) -> bool>(
    before: Seq<T>,
    op: Operation<T>,
    arith: &F,
    is_zero: &Z,
    after: Seq<T>,
    r: Result<Shown<T>, StackError>,
) -> bool {
    let done = Ok::<Shown<T>, StackError>(Shown::Nothing);
    match op {
        Operation::Push(value) => r == done && after == before.push(value),
        Operation::Add | Operation::Sub | Operation::Mul | Operation::Div => binary_step(
            before,
            arithmetic_of(op)->0,
            arith,
            is_zero,
            after,
            r,
        ),
        Operation::Pop => if before.len() == 0 {
            r == Err::<Shown<T>, StackError>(StackError::StackEmpty) && after == before
        } else {
            r == done && after == before.drop_last()
        },
        Operation::Dup => if before.len() == 0 {
            r == Err::<Shown<T>, StackError>(StackError::StackEmpty) && after == before
        } else {
            r == done && after == before.push(before.last())
        },
        Operation::Swap => if before.len() < 2 {
            r == Err::<Shown<T>, StackError>(StackError::NeedTwoValues) && after == before
        } else {
            r == done && after == swapped(before)
        },
        Operation::Print => after == before && r == Ok::<Shown<T>, StackError>(
            if before.len() == 0 {
                Shown::Empty
            } else {
                Shown::Top(before.last())
            },
        ),
        Operation::Clear => r == done && after == Seq::<T>::empty(),
    }
}

/// Two numbers pushed one after the other and then combined leave one
/// number above what was there before: what `arith` makes of the number
/// pushed first and the number pushed second, in this order. Pushed onto an
/// empty stack and added, they leave their sum and nothing else. A division
/// is meant here with a divisor that `is_zero` never calls zero.
pub proof fn lemma_push_push_combine<T, F: Fn(Arithmetic, T, T) -> T, Z: Fn(T) -> bool>(
    start: Seq<T>,
    x: T,
    y: T,
    op: Operation<T>,
    arith: &F,
    is_zero: &Z,
    first: (Seq<T>, Result<Shown<T>, StackError>),
    second: (Seq<T>, Result<Shown<T>, StackError>),
    third: (Seq<T>, Result<Shown<T>, StackError>),
)
    requires
        arithmetic_of(op) is Some,
        op is Div ==> !call_ensures(is_zero, (y,), true),
        step(start, Operation::Push(x), arith, is_zero, first.0, first.1),
        step(first.0, Operation::Push(y), arith, is_zero, second.0, second.1),
        step(second.0, op, arith, is_zero, third.0, third.1),
    ensures
        first.1 is Ok && second.1 is Ok && third.1 is Ok,
        third.0.len() == start.len() + 1,
        third.0 == start.push(third.0.last()),
        call_ensures(arith, (arithmetic_of(op)->0, x, y), third.0.last()),
{
    let two = start.push(x).push(y);
    assert(two.take(two.len() - 2) =~= start);
}

/// A division by a number that `is_zero` calls zero, and never anything
/// else, fails with `DivisionByZero` and leaves every number where it was,
/// the divisor on top and the number under it too.
pub proof fn lemma_division_by_zero<T, F: Fn(Arithmetic, T, T) -> T, Z: Fn(T) -> bool>(
    before: Seq<T>,
    arith: &F,
    is_zero: &Z,
    after: Seq<T>,
    r: Result<Shown<T>, StackError>,
)
    requires
        before.len() >= 2,
        !call_ensures(is_zero, (before.last(),), false),
        step(before, Operation::Div, arith, is_zero, after, r),
    ensures
        r == Err::<Shown<T>, StackError>(StackError::DivisionByZero),
        after == before,
{
}

/// An operation that fails changes nothing, and which operations fail is
/// decided by the number of values alone, but for a division.
pub proof fn lemma_failure<T, F: Fn(Arithmetic, T, T) -> T, Z: Fn(T) -> bool>(
    before: Seq<T>,
    op: Operation<T>,
    arith: &F,
    is_zero: &Z,
    after: Seq<T>,
    r: Result<Shown<T>, StackError>,
)
    requires
        step(before, op, arith, is_zero, after, r),
    ensures
        r is Err ==> after == before,
        r == Err::<Shown<T>, StackError>(StackError::NotEnoughValues) <==> arithmetic_of(op) is Some
            && before.len() < 2,
        r == Err::<Shown<T>, StackError>(StackError::NeedTwoValues) <==> op is Swap && before.len()
            < 2,
        r == Err::<Shown<T>, StackError>(StackError::StackEmpty) <==> (op is Pop || op is Dup)
            && before.len() == 0,
        r == Err::<Shown<T>, StackError>(StackError::DivisionByZero) ==> op is Div && before.len()
            >= 2 && call_ensures(is_zero, (before.last(),), true),
{
}

} // verus!

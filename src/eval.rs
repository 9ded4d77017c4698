use vstd::prelude::*;
use vstd::string::StringExecFns;
use crate::grammar::{lift, EvalError, Op, Step};
use crate::program::{height_after, lemma_height_bound, lemma_height_concat, lemma_sum_stack, Program};

verus! {

/// What a run asks of the host that holds the values.
#[derive(Clone, Copy, Debug, PartialEq, Eq, Structural)]
pub enum Request {
    /// Push the value of the literal `text[start..end]`.
    Literal { start: usize, end: usize },
    /// Replace the two topmost values (the lower one is the left operand)
    /// by `left op right`; there are at least two.
    Combine(Op),
    /// All instructions are done and the parse completed: the one value on
    /// the stack is the result.
    Done,
    /// All instructions are done and the parse stopped with this error.
    Stopped(EvalError),
}

/// How far a run of a program has come: the next instruction, and how many
/// values the host's stack holds.
#[derive(Clone, Copy, Debug, PartialEq, Eq, Structural)]
pub struct Run {
    pub next: usize,
    pub height: usize,
}

/// The request for instruction `next` of `steps`, or the final one.
pub open spec fn request_at(steps: Seq<Step>, end: Result<int, EvalError>, next: int) -> Request {
    if next < steps.len() {
        match steps[next] {
            Step::Number { start, end } => Request::Literal { start, end },
            Step::Apply(op) => Request::Combine(op),
        }
    } else {
        match end {
            Ok(_) => Request::Done,
            Err(e) => Request::Stopped(e),
        }
    }
}

/// The error that ends a run where instruction `step` failed: a literal
/// that is not a number, or a division whose divisor is exactly zero.
pub open spec fn failure(step: Step) -> Option<EvalError> {
    match step {
        Step::Number { .. } => Some(EvalError::NumberParseFailure),
        Step::Apply(op) => if op == Op::Div {
            Some(EvalError::DivisionByZero)
        } else {
            None
        },
    }
}

impl Program {
    /// `run` is a point that performing this program's instructions reaches.
    pub open spec fn reached(&self, run: Run) -> bool {
        &&& run.next <= self.steps@.len()
        &&& height_after(self.steps@.take(run.next as int), 0) == Some(run.height as int)
    }

    /// The run before the first instruction.
    pub fn start(&self) -> (r: Run)
        requires
            self.well_formed(),
        ensures
            r == (Run { next: 0, height: 0 }),
            self.reached(r),
    {
        proof {
            assert(self.steps@.take(0) =~= Seq::<Step>::empty());
        }
        Run { next: 0, height: 0 }
    }

    /// What instruction `run.next` asks of the host, or how the run ends
    /// once all are done. An operator always finds two values, and a
    /// complete parse leaves exactly one.
    pub fn request(&self, run: Run) -> (r: Request)
        requires
            self.well_formed(),
            self.reached(run),
        ensures
            r == request_at(self.steps@, lift(self.end), run.next as int),
            r is Combine ==> run.height >= 2,
            r == Request::Done ==> run.height == 1,
    {
        let ghost steps = self.steps@;
        proof {
            lemma_sum_stack(self.text@, 0, 0);
            let j = run.next as int;
            if j < steps.len() {
                lemma_height_concat(steps.take(j + 1), steps.skip(j + 1), 0);
                assert(steps.take(j + 1) + steps.skip(j + 1) =~= steps);
                assert(steps.take(j + 1).drop_last() =~= steps.take(j));
                assert(steps.take(j + 1).last() == steps[j]);
            } else {
                assert(steps.take(j) =~= steps);
            }
        }
        if run.next < self.steps.len() {
            match self.steps[run.next] {
                Step::Number { start, end } => Request::Literal { start, end },
                Step::Apply(op) => Request::Combine(op),
            }
        } else {
            match self.end {
                Ok(_) => Request::Done,
                Err(e) => Request::Stopped(e),
            }
        }
    }

    /// Goes past instruction `run.next`, given whether the host found it
    /// failed: a literal whose text did not convert, or a division whose
    /// divisor was exactly zero. A failure ends the run with its error;
    /// otherwise the run moves on, with one value more after a literal
    /// and one less after an operator. `failed` means nothing for `+`,
    /// `-` and `*`.
    pub fn advance(&self, run: Run, failed: bool) -> (r: Result<Run, EvalError>)
        requires
            self.well_formed(),
            self.reached(run),
            run.next < self.steps@.len(),
        ensures
            failed && failure(self.steps@[run.next as int]) is Some ==> r == Err::<Run, EvalError>(
                failure(self.steps@[run.next as int])->0,
            ),
            !(failed && failure(self.steps@[run.next as int]) is Some) ==> r == Ok::<Run, EvalError>(
                Run {
                    next: (run.next + 1) as usize,
                    height: (if self.steps@[run.next as int] is Number {
                        run.height + 1
                    } else {
                        run.height - 1
                    }) as usize,
                },
            ),
            r matches Ok(next) ==> self.reached(next),
    {
        let ghost steps = self.steps@;
        proof {
            lemma_sum_stack(self.text@, 0, 0);
            let j = run.next as int;
            lemma_height_concat(steps.take(j + 1), steps.skip(j + 1), 0);
            assert(steps.take(j + 1) + steps.skip(j + 1) =~= steps);
            assert(steps.take(j + 1).drop_last() =~= steps.take(j));
            assert(steps.take(j + 1).last() == steps[j]);
            lemma_height_bound(steps.take(j), 0);
        }
        // the length of a vector fits in `usize`, so the next index does too
        let count: usize = self.steps.len();
        assert(run.next < count);
        match self.steps[run.next] {
            Step::Number { .. } => {
                if failed {
                    return Err(EvalError::NumberParseFailure);
                }
                Ok(Run { next: run.next + 1, height: run.height + 1 })
            },
            Step::Apply(op) => {
                if failed && op == Op::Div {
                    return Err(EvalError::DivisionByZero);
                }
                Ok(Run { next: run.next + 1, height: run.height - 1 })
            },
        }
    }
}

impl EvalError {
    /// What went wrong, in words.
    pub open spec fn spec_cause(&self) -> Seq<char> {
        match self {
            EvalError::UnexpectedEnd => "Unexpected end of expression"@,
            EvalError::MissingCloseParen => "Missing closing parenthesis"@,
            EvalError::DivisionByZero => "Division by zero"@,
            EvalError::InvalidNumber => "Invalid number"@,
            EvalError::NumberParseFailure => "Failed to parse number"@,
        }
    }

    /// What went wrong, in words.
    pub fn cause(&self) -> (r: &'static str)
        ensures
            r@ == self.spec_cause(),
    {
        match self {
            EvalError::UnexpectedEnd => "Unexpected end of expression",
            EvalError::MissingCloseParen => "Missing closing parenthesis",
            EvalError::DivisionByZero => "Division by zero",
            EvalError::InvalidNumber => "Invalid number",
            EvalError::NumberParseFailure => "Failed to parse number",
        }
    }

    /// The message shown to a user: `Error: ` and the cause.
    pub fn message(&self) -> (r: String)
        ensures
            r@ == "Error: "@ + self.spec_cause(),
    {
        let mut r = String::from_str("Error: ");
        r.append(self.cause());
        r
    }
}

} // verus!

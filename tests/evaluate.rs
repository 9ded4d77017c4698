use calculator::eval::{Request, Run};
use calculator::grammar::{EvalError, Op, Step};
use calculator::program::compile;
use calculator::text::strip_whitespace;

fn evaluate(expression: &str) -> Result<f64, EvalError> {
    let program = compile(expression);
    let mut values: Vec<f64> = Vec::new();
    let mut run = program.start();
    loop {
        match program.request(run) {
            Request::Literal { start, end } => {
                let value = program
                    .text
                    .get(start..end)
                    .and_then(|t| t.iter().collect::<String>().parse::<f64>().ok());
                run = program.advance(run, value.is_none())?;
                values.extend(value);
            }
            Request::Combine(op) => {
                let right = values.pop().expect("an operator finds two values");
                let left = values.pop().expect("an operator finds two values");
                run = program.advance(run, right == 0.0)?;
                values.push(match op {
                    Op::Add => left + right,
                    Op::Sub => left - right,
                    Op::Mul => left * right,
                    Op::Div => left / right,
                });
            }
            Request::Done => return Ok(values.pop().expect("a complete run leaves one value")),
            Request::Stopped(e) => return Err(e),
        }
    }
}

fn eval(expression: &str) -> Result<f64, EvalError> {
    evaluate(expression)
}

#[test]
fn precedence() {
    assert_eq!(eval("2+3*4"), Ok(14.0));
    assert_eq!(eval("(2+3)*4"), Ok(20.0));
}

#[test]
fn left_associativity() {
    assert_eq!(eval("10-3-2"), Ok(5.0));
    assert_eq!(eval("20/2/5"), Ok(2.0));
}

#[test]
fn division_by_zero() {
    assert_eq!(eval("5/0"), Err(EvalError::DivisionByZero));
    assert_eq!(EvalError::DivisionByZero.message(), "Error: Division by zero");
    assert_eq!(eval("5/(1-1)"), Err(EvalError::DivisionByZero));
    assert_eq!(eval("5/0.0"), Err(EvalError::DivisionByZero));
}

#[test]
fn division_by_zero_comes_before_a_later_parse_error() {
    assert_eq!(eval("5/0+("), Err(EvalError::DivisionByZero));
    assert_eq!(eval("5/1+("), Err(EvalError::UnexpectedEnd));
}

#[test]
fn unmatched_parenthesis() {
    assert_eq!(eval("(1+2"), Err(EvalError::MissingCloseParen));
    assert_eq!(eval("1+2)"), Ok(3.0));
}

#[test]
fn trailing_input_is_ignored() {
    assert_eq!(eval("2x"), Ok(2.0));
    assert_eq!(eval("4*2)(+"), Ok(8.0));
    let program = compile("1+2)");
    assert_eq!(program.end, Ok(3));
}

#[test]
fn white_space_is_ignored_everywhere() {
    assert_eq!(eval("1 2 + 3"), eval("12+3"));
    assert_eq!(eval("1 2 + 3"), Ok(15.0));
    assert_eq!(eval(" \t1\n+\u{3000}2 \u{a0}"), Ok(3.0));
}

#[test]
fn strip_whitespace_removes_every_kind() {
    let stripped = strip_whitespace(" 1\t2\r\n.\u{2003}5\u{85} ");
    assert_eq!(stripped, vec!['1', '2', '.', '5']);
    assert_eq!(strip_whitespace("(1+2)"), vec!['(', '1', '+', '2', ')']);
    assert_eq!(strip_whitespace("   "), Vec::<char>::new());
}

#[test]
fn negative_numbers() {
    assert_eq!(eval("-5+3"), Ok(-2.0));
    assert_eq!(eval("3*-2"), Ok(-6.0));
    assert_eq!(eval("3--2"), Ok(5.0));
}

#[test]
fn unary_minus_only_on_literals() {
    assert_eq!(eval("-(2)"), Err(EvalError::InvalidNumber));
    assert_eq!(eval("--5"), Err(EvalError::InvalidNumber));
}

#[test]
fn decimal_literals() {
    assert_eq!(eval("1.5*2"), Ok(3.0));
    assert_eq!(eval("5."), Ok(5.0));
    assert_eq!(eval("-0.25*4"), Ok(-1.0));
    assert_eq!(eval("-7."), Ok(-7.0));
}

#[test]
fn empty_or_malformed_input() {
    assert_eq!(eval(""), Err(EvalError::UnexpectedEnd));
    assert_eq!(eval("+"), Err(EvalError::InvalidNumber));
    assert_eq!(eval("()"), Err(EvalError::InvalidNumber));
    assert_eq!(eval("1+"), Err(EvalError::UnexpectedEnd));
    assert_eq!(eval("("), Err(EvalError::UnexpectedEnd));
    assert_eq!(eval("-"), Err(EvalError::InvalidNumber));
    assert_eq!(eval("abc"), Err(EvalError::InvalidNumber));
}

#[test]
fn point_without_digits_is_not_a_number() {
    assert_eq!(eval("."), Err(EvalError::InvalidNumber));
    assert_eq!(eval("-."), Err(EvalError::InvalidNumber));
    assert_eq!(eval("1+.*2"), Err(EvalError::InvalidNumber));
}

#[test]
fn literal_needs_a_digit_before_its_point() {
    assert_eq!(eval(".5+1"), Err(EvalError::InvalidNumber));
    assert_eq!(eval("-.25*4"), Err(EvalError::InvalidNumber));
    assert_eq!(compile("2*.5").end, Err(EvalError::InvalidNumber));
}

#[test]
fn repeated_evaluation_is_identical() {
    let first = eval("(1.5+2)*3-4/8");
    for _ in 0..10 {
        assert_eq!(eval("(1.5+2)*3-4/8"), first);
    }
    assert_eq!(first, Ok(10.0));
    let a = compile("7/(2-2)");
    let b = compile("7/(2-2)");
    assert_eq!(a.steps, b.steps);
    assert_eq!(a.end, b.end);
    assert_eq!(eval("7/(2-2)"), eval("7/(2-2)"));
}

#[test]
fn nested_expressions() {
    assert_eq!(eval("((2))"), Ok(2.0));
    assert_eq!(eval("2*(3+4)-5/2"), Ok(11.5));
    assert_eq!(eval("((1+2)*(3+4))/7"), Ok(3.0));
}

#[test]
fn compiled_steps_follow_precedence() {
    let program = compile("2+3*4");
    assert_eq!(program.text, vec!['2', '+', '3', '*', '4']);
    assert_eq!(
        program.steps,
        vec![
            Step::Number { start: 0, end: 1 },
            Step::Number { start: 2, end: 3 },
            Step::Number { start: 4, end: 5 },
            Step::Apply(Op::Mul),
            Step::Apply(Op::Add),
        ]
    );
    assert_eq!(program.end, Ok(5));
}

#[test]
fn compiled_steps_group_to_the_left() {
    let program = compile("10-3-2");
    assert_eq!(
        program.steps,
        vec![
            Step::Number { start: 0, end: 2 },
            Step::Number { start: 3, end: 4 },
            Step::Apply(Op::Sub),
            Step::Number { start: 5, end: 6 },
            Step::Apply(Op::Sub),
        ]
    );
}

#[test]
fn compiled_steps_stop_at_the_error() {
    let program = compile("1*2+(3");
    assert_eq!(
        program.steps,
        vec![
            Step::Number { start: 0, end: 1 },
            Step::Number { start: 2, end: 3 },
            Step::Apply(Op::Mul),
            Step::Number { start: 5, end: 6 },
        ]
    );
    assert_eq!(program.end, Err(EvalError::MissingCloseParen));
    assert_eq!(eval("1*2+(3"), Err(EvalError::MissingCloseParen));
}

#[test]
fn error_messages() {
    assert_eq!(EvalError::UnexpectedEnd.message(), "Error: Unexpected end of expression");
    assert_eq!(EvalError::MissingCloseParen.message(), "Error: Missing closing parenthesis");
    assert_eq!(EvalError::InvalidNumber.message(), "Error: Invalid number");
    assert_eq!(EvalError::NumberParseFailure.message(), "Error: Failed to parse number");
    assert_eq!(EvalError::DivisionByZero.cause(), "Division by zero");
}

#[test]
fn values_follow_standard_precedence() {
    assert_eq!(eval("1+2*3-4/2"), Ok(5.0));
    assert_eq!(eval("2*3+4*5-6/3"), Ok(24.0));
    assert_eq!(eval("8-(3-1)"), Ok(6.0));
    assert_eq!(eval("8/(4/2)"), Ok(4.0));
    assert_eq!(eval("0.1+0.2"), Ok(0.1 + 0.2));
    assert_eq!(eval("1/3"), Ok(1.0 / 3.0));
}

#[test]
fn run_requests_follow_the_steps() {
    let program = compile("6/0");
    let run = program.start();
    assert_eq!(run, Run { next: 0, height: 0 });
    assert_eq!(program.request(run), Request::Literal { start: 0, end: 1 });
    let run = program.advance(run, false).unwrap();
    assert_eq!(run, Run { next: 1, height: 1 });
    assert_eq!(program.request(run), Request::Literal { start: 2, end: 3 });
    let run = program.advance(run, false).unwrap();
    assert_eq!(program.request(run), Request::Combine(Op::Div));
    assert_eq!(program.advance(run, true), Err(EvalError::DivisionByZero));
    let run = program.advance(run, false).unwrap();
    assert_eq!(run, Run { next: 3, height: 1 });
    assert_eq!(program.request(run), Request::Done);
}

#[test]
fn run_failures_by_instruction() {
    let program = compile("2*3+(");
    let run = program.start();
    assert_eq!(program.advance(run, true), Err(EvalError::NumberParseFailure));
    let run = program.advance(run, false).unwrap();
    let run = program.advance(run, false).unwrap();
    assert_eq!(program.request(run), Request::Combine(Op::Mul));
    let run = program.advance(run, true).unwrap();
    assert_eq!(run, Run { next: 3, height: 1 });
    assert_eq!(program.request(run), Request::Stopped(EvalError::UnexpectedEnd));
}

#[test]
fn trailing_text_after_white_space_is_ignored() {
    assert_eq!(eval("2*(1+2) )x"), Ok(6.0));
    assert_eq!(compile("2*(1+2) )x").steps, compile("2*(1+2)").steps);
    assert_eq!(compile("2*(1+2) )x").end, compile("2*(1+2)").end);
}

#[test]
fn redundant_parentheses_and_signed_literals() {
    assert_eq!(eval("((2))*(-3)"), Ok(-6.0));
    assert_eq!(eval("(1+2)+(3*4)"), Ok(15.0));
    assert_eq!(eval("-1.5--2.5"), Ok(1.0));
}

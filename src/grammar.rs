use vstd::prelude::*;

verus! {

/// The four binary operators of the grammar.
#[derive(Clone, Copy, Debug, PartialEq, Eq, Structural)]
pub enum Op {
    Add,
    Sub,
    Mul,
    Div,
}

/// Why an evaluation failed.
#[derive(Clone, Copy, Debug, PartialEq, Eq, Structural)]
pub enum EvalError {
    /// The input ended where a term was expected.
    UnexpectedEnd,
    /// A parenthesised sub-expression was not followed by `)`.
    MissingCloseParen,
    /// A divisor was exactly zero.
    DivisionByZero,
    /// A literal consumed nothing, or only its sign.
    InvalidNumber,
    /// A literal's text did not convert to a number. The grammar admits
    /// only literals that convert, so this comes only from a host whose
    /// conversion refuses one.
    NumberParseFailure,
}

/// One instruction of a compiled expression, in postfix order: a literal,
/// which pushes its value, or an operator, which replaces the two topmost
/// values by its result (the lower one is the left operand).
#[derive(Clone, Copy, Debug, PartialEq, Eq, Structural)]
pub enum Step {
    /// The literal that occupies `text[start..end]`.
    Number { start: usize, end: usize },
    Apply(Op),
}

/// What parsing from a position yields: the instructions emitted, in the
/// order in which the evaluation performs them, and either the position
/// after the parsed part or the error that stopped it.
pub struct Parsed {
    pub steps: Seq<Step>,
    pub end: Result<int, EvalError>,
}

pub open spec fn is_digit(c: char) -> bool {
    '0' <= c && c <= '9'
}

/// The first position at or after `i` that does not hold a digit.
pub open spec fn digits_end(s: Seq<char>, i: int) -> int
    decreases s.len() - i,
{
    if 0 <= i < s.len() && is_digit(s[i]) {
        digits_end(s, i + 1)
    } else {
        i
    }
}

/// A literal: an optional `-`, one or more digits, then optionally `.` and
/// zero or more digits. Without a digit after the sign it is
/// `InvalidNumber`.
pub open spec fn parse_number(s: Seq<char>, p: int) -> Parsed {
    let a = if 0 <= p < s.len() && s[p] == '-' { p + 1 } else { p };
    let b = digits_end(s, a);
    let c = if 0 <= b < s.len() && s[b] == '.' { digits_end(s, b + 1) } else { b };
    if b == a {
        Parsed { steps: Seq::empty(), end: Err(EvalError::InvalidNumber) }
    } else {
        Parsed { steps: seq![Step::Number { start: p as usize, end: c as usize }], end: Ok(c) }
    }
}

/// A parenthesised sum, or else a literal.
pub open spec fn parse_factor(s: Seq<char>, p: int) -> Parsed
    decreases s.len() - p, 0nat,
{
    if !(0 <= p < s.len()) {
        Parsed { steps: Seq::empty(), end: Err(EvalError::UnexpectedEnd) }
    } else if s[p] == '(' {
        let r = parse_sum(s, p + 1);
        match r.end {
            Ok(q) => if 0 <= q < s.len() && s[q] == ')' {
                Parsed { steps: r.steps, end: Ok(q + 1) }
            } else {
                Parsed { steps: r.steps, end: Err(EvalError::MissingCloseParen) }
            },
            Err(_) => r,
        }
    } else {
        parse_number(s, p)
    }
}

/// Factors joined by `*` and `/`, grouped to the left.
pub open spec fn parse_term(s: Seq<char>, p: int) -> Parsed
    decreases s.len() - p, 1nat,
{
    let f = parse_factor(s, p);
    match f.end {
        // a successful parse moves forward (`laws::lemma_sum_end`), so only
        // the first branch is ever taken
        Ok(q) => if p < q <= s.len() { term_tail(s, f.steps, q) } else { f },
        Err(_) => f,
    }
}

/// The rest of a term from `q`, after the instructions `acc` of its start.
pub open spec fn term_tail(s: Seq<char>, acc: Seq<Step>, q: int) -> Parsed
    decreases s.len() - q, 0nat,
{
    if 0 <= q < s.len() && (s[q] == '*' || s[q] == '/') {
        let op = if s[q] == '*' { Op::Mul } else { Op::Div };
        let r = parse_factor(s, q + 1);
        match r.end {
            // a factor or term always moves forward, so only the first
            // branch is ever taken
            Ok(e) => if q < e <= s.len() {
                term_tail(s, acc + r.steps.push(Step::Apply(op)), e)
            } else {
                Parsed { steps: acc, end: Ok(q) }
            },
            Err(err) => Parsed { steps: acc + r.steps, end: Err(err) },
        }
    } else {
        Parsed { steps: acc, end: Ok(q) }
    }
}

/// Terms joined by `+` and `-`, grouped to the left.
pub open spec fn parse_sum(s: Seq<char>, p: int) -> Parsed
    decreases s.len() - p, 2nat,
{
    let t = parse_term(s, p);
    match t.end {
        // as in `parse_term`, only the first branch is ever taken
        Ok(q) => if p < q <= s.len() { sum_tail(s, t.steps, q) } else { t },
        Err(_) => t,
    }
}

/// The rest of a sum from `q`, after the instructions `acc` of its start.
pub open spec fn sum_tail(s: Seq<char>, acc: Seq<Step>, q: int) -> Parsed
    decreases s.len() - q, 0nat,
{
    if 0 <= q < s.len() && (s[q] == '+' || s[q] == '-') {
        let op = if s[q] == '+' { Op::Add } else { Op::Sub };
        let r = parse_term(s, q + 1);
        match r.end {
            // a factor or term always moves forward, so only the first
            // branch is ever taken
            Ok(e) => if q < e <= s.len() {
                sum_tail(s, acc + r.steps.push(Step::Apply(op)), e)
            } else {
                Parsed { steps: acc, end: Ok(q) }
            },
            Err(err) => Parsed { steps: acc + r.steps, end: Err(err) },
        }
    } else {
        Parsed { steps: acc, end: Ok(q) }
    }
}

pub open spec fn lift(r: Result<usize, EvalError>) -> Result<int, EvalError> {
    match r {
        Ok(q) => Ok(q as int),
        Err(e) => Err(e),
    }
}

fn scan_digits(s: &[char], i: usize) -> (r: usize)
    requires
        i <= s@.len(),
    ensures
        r as int == digits_end(s@, i as int),
        i <= r <= s@.len(),
{
    let mut j = i;
    while j < s.len() && '0' <= s[j] && s[j] <= '9'
        invariant
            i <= j <= s@.len(),
            digits_end(s@, j as int) == digits_end(s@, i as int),
        decreases s@.len() - j,
    {
        j = j + 1;
    }
    j
}

fn number(s: &[char], p: usize, out: &mut Vec<Step>) -> (r: Result<usize, EvalError>)
    requires
        p <= s@.len(),
    ensures
        final(out)@ == old(out)@ + parse_number(s@, p as int).steps,
        lift(r) == parse_number(s@, p as int).end,
        r matches Ok(q) ==> p < q <= s@.len(),
{
    let a = if p < s.len() && s[p] == '-' { p + 1 } else { p };
    let b = scan_digits(s, a);
    if b == a {
        Err(EvalError::InvalidNumber)
    } else {
        let c = if b < s.len() && s[b] == '.' { scan_digits(s, b + 1) } else { b };
        out.push(Step::Number { start: p, end: c });
        proof {
            assert(out@ =~= old(out)@ + parse_number(s@, p as int).steps);
        }
        Ok(c)
    }
}

fn factor(s: &[char], p: usize, out: &mut Vec<Step>) -> (r: Result<usize, EvalError>)
    requires
        p <= s@.len(),
    ensures
        final(out)@ == old(out)@ + parse_factor(s@, p as int).steps,
        lift(r) == parse_factor(s@, p as int).end,
        r matches Ok(q) ==> p < q <= s@.len(),
    decreases s@.len() - p, 0nat,
{
    if p >= s.len() {
        proof {
            assert(out@ =~= old(out)@ + parse_factor(s@, p as int).steps);
        }
        return Err(EvalError::UnexpectedEnd);
    }
    if s[p] == '(' {
        let r = sum(s, p + 1, out);
        match r {
            Ok(q) => {
                if q >= s.len() || s[q] != ')' {
                    return Err(EvalError::MissingCloseParen);
                }
                Ok(q + 1)
            },
            Err(e) => Err(e),
        }
    } else {
        number(s, p, out)
    }
}

fn term(s: &[char], p: usize, out: &mut Vec<Step>) -> (r: Result<usize, EvalError>)
    requires
        p <= s@.len(),
    ensures
        final(out)@ == old(out)@ + parse_term(s@, p as int).steps,
        lift(r) == parse_term(s@, p as int).end,
        r matches Ok(q) ==> p < q <= s@.len(),
    decreases s@.len() - p, 1nat,
{
    let ghost base = out@;
    let mut q = match factor(s, p, out) {
        Ok(q) => q,
        Err(e) => return Err(e),
    };
    proof {
        assert(out@.skip(base.len() as int) =~= parse_factor(s@, p as int).steps);
        assert(out@.take(base.len() as int) =~= base);
    }
    while q < s.len() && (s[q] == '*' || s[q] == '/')
        invariant
            p < q <= s@.len(),
            base == old(out)@,
            base.len() <= out@.len(),
            out@.take(base.len() as int) == base,
            term_tail(s@, out@.skip(base.len() as int), q as int) == parse_term(s@, p as int),
        decreases s@.len() - q,
    {
        let op = if s[q] == '*' { Op::Mul } else { Op::Div };
        let ghost acc = out@.skip(base.len() as int);
        let r = factor(s, q + 1, out);
        match r {
            Ok(e) => {
                out.push(Step::Apply(op));
                proof {
                    let rs = parse_factor(s@, q + 1);
                    assert(out@.skip(base.len() as int) =~= acc + rs.steps.push(Step::Apply(op)));
                    assert(out@.take(base.len() as int) =~= base);
                }
                q = e;
            },
            Err(e) => {
                proof {
                    let rs = parse_factor(s@, q + 1);
                    assert(term_tail(s@, acc, q as int) == parse_term(s@, p as int));
                    assert(parse_term(s@, p as int).steps == acc + rs.steps);
                    assert(out@ =~= base + (acc + rs.steps));
                }
                return Err(e);
            },
        }
    }
    proof {
        assert(out@ =~= base + out@.skip(base.len() as int));
    }
    Ok(q)
}

fn sum(s: &[char], p: usize, out: &mut Vec<Step>) -> (r: Result<usize, EvalError>)
    requires
        p <= s@.len(),
    ensures
        final(out)@ == old(out)@ + parse_sum(s@, p as int).steps,
        lift(r) == parse_sum(s@, p as int).end,
        r matches Ok(q) ==> p < q <= s@.len(),
    decreases s@.len() - p, 2nat,
{
    let ghost base = out@;
    let mut q = match term(s, p, out) {
        Ok(q) => q,
        Err(e) => return Err(e),
    };
    proof {
        assert(out@.skip(base.len() as int) =~= parse_term(s@, p as int).steps);
        assert(out@.take(base.len() as int) =~= base);
    }
    while q < s.len() && (s[q] == '+' || s[q] == '-')
        invariant
            p < q <= s@.len(),
            base == old(out)@,
            base.len() <= out@.len(),
            out@.take(base.len() as int) == base,
            sum_tail(s@, out@.skip(base.len() as int), q as int) == parse_sum(s@, p as int),
        decreases s@.len() - q,
    {
        let op = if s[q] == '+' { Op::Add } else { Op::Sub };
        let ghost acc = out@.skip(base.len() as int);
        let r = term(s, q + 1, out);
        match r {
            Ok(e) => {
                out.push(Step::Apply(op));
                proof {
                    let rs = parse_term(s@, q + 1);
                    assert(out@.skip(base.len() as int) =~= acc + rs.steps.push(Step::Apply(op)));
                    assert(out@.take(base.len() as int) =~= base);
                }
                q = e;
            },
            Err(e) => {
                proof {
                    let rs = parse_term(s@, q + 1);
                    assert(sum_tail(s@, acc, q as int) == parse_sum(s@, p as int));
                    assert(parse_sum(s@, p as int).steps == acc + rs.steps);
                    assert(out@ =~= base + (acc + rs.steps));
                }
                return Err(e);
            },
        }
    }
    proof {
        assert(out@ =~= base + out@.skip(base.len() as int));
    }
    Ok(q)
}

/// Parses a sum from the first character of `s`, appending its instructions
/// to `out`.
pub fn parse_text(s: &[char], out: &mut Vec<Step>) -> (r: Result<usize, EvalError>)
    ensures
        final(out)@ == old(out)@ + parse_sum(s@, 0).steps,
        lift(r) == parse_sum(s@, 0).end,
        r matches Ok(q) ==> 0 < q <= s@.len(),
{
    sum(s, 0, out)
}

} // verus!

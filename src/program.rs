use vstd::prelude::*;
use crate::grammar::{lift, parse_factor, parse_number, parse_sum, parse_term, sum_tail, term_tail, EvalError, Parsed, Step};
use crate::text::{strip_whitespace, without_white_space};

verus! {

/// An expression compiled to postfix instructions over its text with the
/// white space removed. `end` is the position where parsing stopped, or the
/// error that stopped it; the instructions are those performed before it.
pub struct Program {
    pub text: Vec<char>,
    pub steps: Vec<Step>,
    pub end: Result<usize, EvalError>,
}

impl Program {
    /// `self` is what parsing `text` from its start gives.
    pub open spec fn well_formed(&self) -> bool {
        &&& self.steps@ == parse_sum(self.text@, 0).steps
        &&& lift(self.end) == parse_sum(self.text@, 0).end
    }

    /// `self` is the compiled form of `expression`.
    pub open spec fn compiled_from(&self, expression: Seq<char>) -> bool {
        &&& self.text@ == without_white_space(expression)
        &&& self.well_formed()
    }
}

/// What parsing `expression` gives once its white space is removed.
pub open spec fn parse_expression(expression: Seq<char>) -> Parsed {
    parse_sum(without_white_space(expression), 0)
}

/// Compiles `expression`: removes its white space, then parses a sum from the
/// first character. Characters after the parsed sum are ignored.
pub fn compile(expression: &str) -> (r: Program)
    ensures
        r.compiled_from(expression@),
{
    let text = strip_whitespace(expression);
    let mut steps: Vec<Step> = Vec::new();
    let end = crate::grammar::parse_text(text.as_slice(), &mut steps);
    proof {
        assert(steps@ =~= Seq::<Step>::empty() + parse_sum(text@, 0).steps);
    }
    Program { text, steps, end }
}

/// The height of the value stack after performing `steps` on a stack of
/// height `d`, or `None` where an operator finds fewer than two values.
pub open spec fn height_after(steps: Seq<Step>, d: int) -> Option<int>
    decreases steps.len(),
{
    if steps.len() == 0 {
        Some(d)
    } else {
        match height_after(steps.drop_last(), d) {
            Some(k) => match steps.last() {
                Step::Number { .. } => Some(k + 1),
                Step::Apply(_) => if k >= 2 {
                    Some(k - 1)
                } else {
                    None
                },
            },
            None => None,
        }
    }
}

/// Performing the instructions of a parse on a stack of height `d` never
/// finds an operator short of operands; a complete parse adds exactly one
/// value, an interrupted one removes none.
pub open spec fn stack_safe(r: Parsed, d: int) -> bool {
    match r.end {
        Ok(_) => height_after(r.steps, d) == Some(d + 1),
        Err(_) => height_after(r.steps, d) matches Some(k) && k >= d,
    }
}

/// Performing `a` then `b` is performing `b` from where `a` left the stack.
pub proof fn lemma_height_concat(a: Seq<Step>, b: Seq<Step>, d: int)
    ensures
        height_after(a + b, d) == match height_after(a, d) {
            Some(k) => height_after(b, k),
            None => None,
        },
    decreases b.len(),
{
    if b.len() == 0 {
        assert(a + b =~= a);
    } else {
        lemma_height_concat(a, b.drop_last(), d);
        assert((a + b).drop_last() =~= a + b.drop_last());
        assert((a + b).last() == b.last());
    }
}

/// Each instruction adds at most one value.
pub proof fn lemma_height_bound(steps: Seq<Step>, d: int)
    ensures
        height_after(steps, d) matches Some(k) ==> k <= d + steps.len(),
    decreases steps.len(),
{
    if steps.len() > 0 {
        lemma_height_bound(steps.drop_last(), d);
    }
}

proof fn lemma_number_stack(s: Seq<char>, p: int, d: int)
    requires
        d >= 0,
    ensures
        stack_safe(parse_number(s, p), d),
{
    let r = parse_number(s, p);
    if r.end is Ok {
        assert(r.steps.drop_last() =~= Seq::<Step>::empty());
        assert(height_after(r.steps.drop_last(), d) == Some(d));
    }
}

proof fn lemma_factor_stack(s: Seq<char>, p: int, d: int)
    requires
        d >= 0,
    ensures
        stack_safe(parse_factor(s, p), d),
    decreases s.len() - p, 0nat,
{
    if 0 <= p < s.len() {
        if s[p] == '(' {
            lemma_sum_stack(s, p + 1, d);
        } else {
            lemma_number_stack(s, p, d);
        }
    }
}

proof fn lemma_term_tail_stack(s: Seq<char>, acc: Seq<Step>, q: int, d: int)
    requires
        d >= 0,
        height_after(acc, d) == Some(d + 1),
    ensures
        stack_safe(term_tail(s, acc, q), d),
    decreases s.len() - q, 0nat,
{
    if 0 <= q < s.len() && (s[q] == '*' || s[q] == '/') {
        let op = if s[q] == '*' { crate::grammar::Op::Mul } else { crate::grammar::Op::Div };
        let r = parse_factor(s, q + 1);
        lemma_factor_stack(s, q + 1, d + 1);
        lemma_height_concat(acc, r.steps, d);
        if let Ok(e) = r.end {
            if q < e <= s.len() {
                let next = acc + r.steps.push(Step::Apply(op));
                assert(next.drop_last() =~= acc + r.steps);
                lemma_term_tail_stack(s, next, e, d);
            }
        }
    }
}

proof fn lemma_term_stack(s: Seq<char>, p: int, d: int)
    requires
        d >= 0,
    ensures
        stack_safe(parse_term(s, p), d),
    decreases s.len() - p, 1nat,
{
    let f = parse_factor(s, p);
    lemma_factor_stack(s, p, d);
    if let Ok(q) = f.end {
        if p < q <= s.len() {
            lemma_term_tail_stack(s, f.steps, q, d);
        }
    }
}

proof fn lemma_sum_tail_stack(s: Seq<char>, acc: Seq<Step>, q: int, d: int)
    requires
        d >= 0,
        height_after(acc, d) == Some(d + 1),
    ensures
        stack_safe(sum_tail(s, acc, q), d),
    decreases s.len() - q, 0nat,
{
    if 0 <= q < s.len() && (s[q] == '+' || s[q] == '-') {
        let op = if s[q] == '+' { crate::grammar::Op::Add } else { crate::grammar::Op::Sub };
        let r = parse_term(s, q + 1);
        lemma_term_stack(s, q + 1, d + 1);
        lemma_height_concat(acc, r.steps, d);
        if let Ok(e) = r.end {
            if q < e <= s.len() {
                let next = acc + r.steps.push(Step::Apply(op));
                assert(next.drop_last() =~= acc + r.steps);
                lemma_sum_tail_stack(s, next, e, d);
            }
        }
    }
}

/// Parsing a sum from any position, on any stack height, yields instructions
/// that never run short of operands, and that leave one more value on the
/// stack when the parse completes.
pub proof fn lemma_sum_stack(s: Seq<char>, p: int, d: int)
    requires
        d >= 0,
    ensures
        stack_safe(parse_sum(s, p), d),
    decreases s.len() - p, 2nat,
{
    let t = parse_term(s, p);
    lemma_term_stack(s, p, d);
    if let Ok(q) = t.end {
        if p < q <= s.len() {
            lemma_sum_tail_stack(s, t.steps, q, d);
        }
    }
}

} // verus!

use vstd::prelude::*;
use crate::grammar::{
    digits_end, lift, parse_factor, parse_number, parse_sum, parse_term, sum_tail, term_tail, Op,
    Step,
};
use crate::trailing::lemma_digits_bound;
use crate::program::{parse_expression, Program};
use crate::text::{is_white_space, without_white_space};

verus! {

proof fn lemma_white_space_vanishes(w: Seq<char>)
    requires
        forall|i: int| 0 <= i < w.len() ==> is_white_space(w[i]),
    ensures
        without_white_space(w) == Seq::<char>::empty(),
    decreases w.len(),
{
    if w.len() > 0 {
        lemma_white_space_vanishes(w.drop_last());
        assert(is_white_space(w.last()));
        reveal_with_fuel(Seq::filter, 2);
        assert(without_white_space(w) =~= without_white_space(w.drop_last()));
    }
}

/// Inserting white space anywhere in an expression, also inside a number,
/// does not change what the expression compiles to.
pub proof fn lemma_white_space_insensitive(a: Seq<char>, w: Seq<char>, b: Seq<char>)
    requires
        forall|i: int| 0 <= i < w.len() ==> is_white_space(w[i]),
    ensures
        parse_expression(a + w + b) == parse_expression(a + b),
{
    let keep = |c: char| !is_white_space(c);
    lemma_white_space_vanishes(w);
    Seq::filter_distributes_over_add(a + w, b, keep);
    Seq::filter_distributes_over_add(a, w, keep);
    Seq::filter_distributes_over_add(a, b, keep);
    assert(without_white_space(a + w + b) =~= without_white_space(a + b));
}

/// Compiling the same expression twice gives the same program.
pub proof fn lemma_compile_repeatable(x: &Program, y: &Program, expression: Seq<char>)
    requires
        x.compiled_from(expression),
        y.compiled_from(expression),
    ensures
        x.text@ == y.text@,
        x.steps@ == y.steps@,
        x.end == y.end,
{
    assert(lift(x.end) == lift(y.end));
}

/// `q` ends a term: the text ends there or holds no `*` or `/`.
pub open spec fn ends_term_at(s: Seq<char>, q: int) -> bool {
    q == s.len() || (s[q] != '*' && s[q] != '/')
}

/// `q` ends a sum: the text ends there or holds none of `+ - * /`.
pub open spec fn ends_sum_at(s: Seq<char>, q: int) -> bool {
    ends_term_at(s, q) && (q == s.len() || (s[q] != '+' && s[q] != '-'))
}

proof fn lemma_number_end(s: Seq<char>, p: int)
    requires
        0 <= p <= s.len(),
    ensures
        parse_number(s, p).end matches Ok(q) ==> p < q <= s.len(),
{
    let a = if 0 <= p < s.len() && s[p] == '-' { p + 1 } else { p };
    lemma_digits_bound(s, a);
    let b = digits_end(s, a);
    if 0 <= b < s.len() && s[b] == '.' {
        lemma_digits_bound(s, b + 1);
    }
}

proof fn lemma_factor_end(s: Seq<char>, p: int)
    requires
        0 <= p <= s.len(),
    ensures
        parse_factor(s, p).end matches Ok(q) ==> p < q <= s.len(),
    decreases s.len() - p, 0nat,
{
    if p < s.len() {
        if s[p] == '(' {
            lemma_sum_end(s, p + 1);
        } else {
            lemma_number_end(s, p);
        }
    }
}

proof fn lemma_term_tail_end(s: Seq<char>, acc: Seq<Step>, q0: int)
    requires
        0 <= q0 <= s.len(),
    ensures
        term_tail(s, acc, q0).end matches Ok(q) ==> q0 <= q <= s.len() && ends_term_at(s, q),
    decreases s.len() - q0, 0nat,
{
    if q0 < s.len() && (s[q0] == '*' || s[q0] == '/') {
        let op = if s[q0] == '*' { Op::Mul } else { Op::Div };
        let r = parse_factor(s, q0 + 1);
        lemma_factor_end(s, q0 + 1);
        if let Ok(e) = r.end {
            lemma_term_tail_end(s, acc + r.steps.push(Step::Apply(op)), e);
        }
    }
}

proof fn lemma_term_end(s: Seq<char>, p: int)
    requires
        0 <= p <= s.len(),
    ensures
        parse_term(s, p).end matches Ok(q) ==> p < q <= s.len() && ends_term_at(s, q),
    decreases s.len() - p, 1nat,
{
    lemma_factor_end(s, p);
    if let Ok(q) = parse_factor(s, p).end {
        lemma_term_tail_end(s, parse_factor(s, p).steps, q);
    }
}

proof fn lemma_sum_tail_end(s: Seq<char>, acc: Seq<Step>, q0: int)
    requires
        0 <= q0 <= s.len(),
        ends_term_at(s, q0),
    ensures
        sum_tail(s, acc, q0).end matches Ok(q) ==> q0 <= q <= s.len() && ends_sum_at(s, q),
    decreases s.len() - q0, 0nat,
{
    if q0 < s.len() && (s[q0] == '+' || s[q0] == '-') {
        let op = if s[q0] == '+' { Op::Add } else { Op::Sub };
        let r = parse_term(s, q0 + 1);
        lemma_term_end(s, q0 + 1);
        if let Ok(e) = r.end {
            lemma_sum_tail_end(s, acc + r.steps.push(Step::Apply(op)), e);
        }
    }
}

/// A successful parse of a sum from `p` consumes at least one character
/// and stops at the end of the text or at a character that is none of
/// `+ - * /`: parsing never stops in front of an operator.
pub proof fn lemma_sum_end(s: Seq<char>, p: int)
    requires
        0 <= p <= s.len(),
    ensures
        parse_sum(s, p).end matches Ok(q) ==> p < q <= s.len() && ends_sum_at(s, q),
    decreases s.len() - p, 2nat,
{
    lemma_term_end(s, p);
    if let Ok(q) = parse_term(s, p).end {
        lemma_sum_tail_end(s, parse_term(s, p).steps, q);
    }
}

} // verus!

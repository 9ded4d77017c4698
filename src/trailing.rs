use vstd::prelude::*;
use crate::grammar::{
    digits_end, is_digit, parse_factor, parse_number, parse_sum, parse_term, sum_tail, term_tail,
    Step,
};
use crate::program::parse_expression;
use crate::text::{is_white_space, without_white_space};

verus! {

/// A character that continues neither a literal nor an operator chain.
pub open spec fn ends_expression(c: char) -> bool {
    !is_digit(c) && c != '.' && c != '+' && c != '-' && c != '*' && c != '/'
}

/// `s2` is `s` followed by at least one character, the first of which
/// ends an expression.
pub open spec fn extends(s: Seq<char>, s2: Seq<char>) -> bool {
    &&& s.len() < s2.len()
    &&& s2.subrange(0, s.len() as int) == s
    &&& ends_expression(s2[s.len() as int])
}

proof fn lemma_same_char(s: Seq<char>, s2: Seq<char>, k: int)
    requires
        extends(s, s2),
        0 <= k < s.len(),
    ensures
        s2[k] == s[k],
{
    assert(s2.subrange(0, s.len() as int)[k] == s2[k]);
}

proof fn lemma_digits_frame(s: Seq<char>, s2: Seq<char>, i: int)
    requires
        extends(s, s2),
        0 <= i <= s.len(),
    ensures
        digits_end(s2, i) == digits_end(s, i),
    decreases s.len() - i,
{
    if i < s.len() {
        lemma_same_char(s, s2, i);
        if is_digit(s[i]) {
            lemma_digits_frame(s, s2, i + 1);
        }
    }
}

proof fn lemma_number_frame(s: Seq<char>, s2: Seq<char>, p: int)
    requires
        extends(s, s2),
        0 <= p <= s.len(),
        parse_number(s, p).end is Ok,
    ensures
        parse_number(s2, p) == parse_number(s, p),
        parse_number(s, p).end matches Ok(q) && p < q <= s.len(),
{
    if p < s.len() {
        lemma_same_char(s, s2, p);
    }
    let a = if 0 <= p < s.len() && s[p] == '-' { p + 1 } else { p };
    lemma_digits_frame(s, s2, a);
    let b = digits_end(s, a);
    assert(a <= b <= s.len()) by {
        lemma_digits_bound(s, a);
    }
    if b < s.len() {
        lemma_same_char(s, s2, b);
        if s[b] == '.' {
            lemma_digits_frame(s, s2, b + 1);
            lemma_digits_bound(s, b + 1);
        }
    }
}

pub proof fn lemma_digits_bound(s: Seq<char>, i: int)
    requires
        0 <= i <= s.len(),
    ensures
        i <= digits_end(s, i) <= s.len(),
    decreases s.len() - i,
{
    if i < s.len() && is_digit(s[i]) {
        lemma_digits_bound(s, i + 1);
    }
}

proof fn lemma_factor_frame(s: Seq<char>, s2: Seq<char>, p: int)
    requires
        extends(s, s2),
        0 <= p <= s.len(),
        parse_factor(s, p).end is Ok,
    ensures
        parse_factor(s2, p) == parse_factor(s, p),
        parse_factor(s, p).end matches Ok(q) && p < q <= s.len(),
    decreases s.len() - p, 0nat,
{
    if p < s.len() {
        lemma_same_char(s, s2, p);
        if s[p] == '(' {
            lemma_sum_frame(s, s2, p + 1);
            if let Ok(q) = parse_sum(s, p + 1).end {
                if q < s.len() {
                    lemma_same_char(s, s2, q);
                }
            }
        } else {
            lemma_number_frame(s, s2, p);
        }
    }
}

proof fn lemma_term_tail_frame(s: Seq<char>, s2: Seq<char>, acc: Seq<Step>, q: int)
    requires
        extends(s, s2),
        0 <= q <= s.len(),
        term_tail(s, acc, q).end is Ok,
    ensures
        term_tail(s2, acc, q) == term_tail(s, acc, q),
        term_tail(s, acc, q).end matches Ok(e) && q <= e <= s.len(),
    decreases s.len() - q, 0nat,
{
    if q < s.len() {
        lemma_same_char(s, s2, q);
        if s[q] == '*' || s[q] == '/' {
            lemma_factor_frame(s, s2, q + 1);
            let op = if s[q] == '*' { crate::grammar::Op::Mul } else { crate::grammar::Op::Div };
            if let Ok(e) = parse_factor(s, q + 1).end {
                lemma_term_tail_frame(s, s2, acc + parse_factor(s, q + 1).steps.push(Step::Apply(op)), e);
            }
        }
    }
}

proof fn lemma_term_frame(s: Seq<char>, s2: Seq<char>, p: int)
    requires
        extends(s, s2),
        0 <= p <= s.len(),
        parse_term(s, p).end is Ok,
    ensures
        parse_term(s2, p) == parse_term(s, p),
        parse_term(s, p).end matches Ok(q) && p < q <= s.len(),
    decreases s.len() - p, 1nat,
{
    lemma_factor_frame(s, s2, p);
    if let Ok(q) = parse_factor(s, p).end {
        lemma_term_tail_frame(s, s2, parse_factor(s, p).steps, q);
    }
}

proof fn lemma_sum_tail_frame(s: Seq<char>, s2: Seq<char>, acc: Seq<Step>, q: int)
    requires
        extends(s, s2),
        0 <= q <= s.len(),
        sum_tail(s, acc, q).end is Ok,
    ensures
        sum_tail(s2, acc, q) == sum_tail(s, acc, q),
        sum_tail(s, acc, q).end matches Ok(e) && q <= e <= s.len(),
    decreases s.len() - q, 0nat,
{
    if q < s.len() {
        lemma_same_char(s, s2, q);
        if s[q] == '+' || s[q] == '-' {
            lemma_term_frame(s, s2, q + 1);
            let op = if s[q] == '+' { crate::grammar::Op::Add } else { crate::grammar::Op::Sub };
            if let Ok(e) = parse_term(s, q + 1).end {
                lemma_sum_tail_frame(s, s2, acc + parse_term(s, q + 1).steps.push(Step::Apply(op)), e);
            }
        }
    }
}

proof fn lemma_sum_frame(s: Seq<char>, s2: Seq<char>, p: int)
    requires
        extends(s, s2),
        0 <= p <= s.len(),
        parse_sum(s, p).end is Ok,
    ensures
        parse_sum(s2, p) == parse_sum(s, p),
        parse_sum(s, p).end matches Ok(q) && p < q <= s.len(),
    decreases s.len() - p, 2nat,
{
    lemma_term_frame(s, s2, p);
    if let Ok(q) = parse_term(s, p).end {
        lemma_sum_tail_frame(s, s2, parse_term(s, p).steps, q);
    }
}

/// Trailing input is ignored: where a text parses completely, appending
/// anything that starts with a character that cannot continue an
/// expression (such as `)` or a letter) leaves its instructions and its
/// end unchanged.
pub proof fn lemma_trailing_input_ignored(s: Seq<char>, t: Seq<char>)
    requires
        t.len() > 0,
        ends_expression(t[0]),
        parse_sum(s, 0).end is Ok,
    ensures
        parse_sum(s + t, 0) == parse_sum(s, 0),
{
    assert((s + t).subrange(0, s.len() as int) =~= s);
    assert((s + t)[s.len() as int] == t[0]);
    lemma_sum_frame(s, s + t, 0);
}

/// The same for the text as written: white space is removed first, so the
/// appended text must start with a character that is not white space.
pub proof fn lemma_trailing_text_ignored(s: Seq<char>, t: Seq<char>)
    requires
        t.len() > 0,
        !is_white_space(t[0]),
        ends_expression(t[0]),
        parse_expression(s).end is Ok,
    ensures
        parse_expression(s + t) == parse_expression(s),
{
    let keep = |c: char| !is_white_space(c);
    let head = seq![t[0]];
    let rest = t.skip(1);
    assert(head + rest =~= t);
    Seq::filter_distributes_over_add(s, t, keep);
    Seq::filter_distributes_over_add(head, rest, keep);
    assert(head.drop_last() =~= Seq::<char>::empty());
    reveal_with_fuel(Seq::filter, 2);
    assert(without_white_space(head) =~= head);
    let w = without_white_space(t);
    assert(w =~= head + without_white_space(rest));
    lemma_trailing_input_ignored(without_white_space(s), w);
}

} // verus!

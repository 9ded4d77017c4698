use vstd::prelude::*;
use crate::program::parse_expression;
use crate::text::{is_white_space, without_white_space};
use crate::grammar::{
    digits_end, is_digit, parse_factor, parse_number, parse_sum, parse_term, sum_tail, term_tail,
    EvalError, Op, Parsed, Step,
};

verus! {

/// An expression tree over decimal literals.
pub enum Expr {
    /// The literal `whole`, or `whole.frac` where there is a fraction,
    /// with a leading `-` where it is negative.
    Lit { negative: bool, whole: Seq<char>, frac: Option<Seq<char>> },
    Bin { op: Op, left: Box<Expr>, right: Box<Expr> },
    /// Parentheses written around `inner`, whether or not it needs them.
    Group { inner: Box<Expr> },
}

pub open spec fn size(x: Expr) -> nat
    decreases x,
{
    match x {
        Expr::Lit { .. } => 1,
        Expr::Group { inner } => 1 + size(*inner),
        Expr::Bin { left, right, .. } => 1 + size(*left) + size(*right),
    }
}

pub open spec fn is_add_sub(x: Expr) -> bool {
    x matches Expr::Bin { op, .. } && (op == Op::Add || op == Op::Sub)
}

pub open spec fn is_mul_div(x: Expr) -> bool {
    x matches Expr::Bin { op, .. } && (op == Op::Mul || op == Op::Div)
}

pub open spec fn all_digits(s: Seq<char>) -> bool {
    forall|i: int| 0 <= i < s.len() ==> is_digit(s[i])
}

/// Every literal has at least one digit before its point.
pub open spec fn valid(x: Expr) -> bool
    decreases x,
{
    match x {
        Expr::Group { inner } => valid(*inner),
        Expr::Lit { whole, frac, .. } => whole.len() > 0 && all_digits(whole) && match frac {
            Some(f) => all_digits(f),
            None => true,
        },
        Expr::Bin { left, right, .. } => valid(*left) && valid(*right),
    }
}

pub open spec fn op_char(op: Op) -> char {
    match op {
        Op::Add => '+',
        Op::Sub => '-',
        Op::Mul => '*',
        Op::Div => '/',
    }
}

pub open spec fn signed_text(negative: bool, whole: Seq<char>, frac: Option<Seq<char>>) -> Seq<
    char,
> {
    (if negative { seq!['-'] } else { Seq::empty() }) + lit_text(whole, frac)
}

pub open spec fn lit_text(whole: Seq<char>, frac: Option<Seq<char>>) -> Seq<char> {
    match frac {
        Some(f) => whole + seq!['.'] + f,
        None => whole,
    }
}

/// The ranks below order the three texts of one tree: a literal needs no
/// parentheses, and the text of anything else as a factor is its text as
/// a sum in parentheses.
pub open spec fn factor_rank(x: Expr) -> nat {
    if is_add_sub(x) { 1 } else if is_mul_div(x) { 8 } else { 4 }
}

pub open spec fn sum_rank(x: Expr) -> nat {
    if is_add_sub(x) { 0 } else { 7 }
}

/// `x` written where a factor stands.
pub open spec fn factor_text(x: Expr) -> Seq<char>
    decreases size(x), factor_rank(x),
{
    match x {
        Expr::Lit { negative, whole, frac } => signed_text(negative, whole, frac),
        Expr::Bin { .. } => seq!['('] + sum_text(x) + seq![')'],
        Expr::Group { inner } => seq!['('] + sum_text(*inner) + seq![')'],
    }
}

/// `x` written where a term stands: products and quotients chain to the
/// left without parentheses.
pub open spec fn term_text(x: Expr) -> Seq<char>
    decreases size(x), 5nat,
{
    match x {
        Expr::Bin { op, left, right } => if op == Op::Mul || op == Op::Div {
            term_text(*left) + seq![op_char(op)] + factor_text(*right)
        } else {
            factor_text(x)
        },
        _ => factor_text(x),
    }
}

/// `x` written with the parentheses that precedence and grouping to the
/// left need, besides those of its `Group` nodes.
pub open spec fn sum_text(x: Expr) -> Seq<char>
    decreases size(x), sum_rank(x),
{
    match x {
        Expr::Bin { op, left, right } => if op == Op::Add || op == Op::Sub {
            sum_text(*left) + seq![op_char(op)] + term_text(*right)
        } else {
            term_text(x)
        },
        _ => term_text(x),
    }
}

/// The postfix form of `x`, with `factor_text(x)` written from position `p`.
pub open spec fn factor_postfix(x: Expr, p: int) -> Seq<Step>
    decreases size(x), factor_rank(x),
{
    match x {
        Expr::Lit { negative, whole, frac } => seq![
            Step::Number {
                start: p as usize,
                end: (p + signed_text(negative, whole, frac).len()) as usize,
            },
        ],
        Expr::Bin { .. } => sum_postfix(x, p + 1),
        Expr::Group { inner } => sum_postfix(*inner, p + 1),
    }
}

/// The postfix form of `x`, with `term_text(x)` written from position `p`.
pub open spec fn term_postfix(x: Expr, p: int) -> Seq<Step>
    decreases size(x), 5nat,
{
    match x {
        Expr::Bin { op, left, right } => if op == Op::Mul || op == Op::Div {
            term_postfix(*left, p) + factor_postfix(*right, p + term_text(*left).len() + 1).push(
                Step::Apply(op),
            )
        } else {
            factor_postfix(x, p)
        },
        _ => factor_postfix(x, p),
    }
}

/// The postfix form of `x`, with `sum_text(x)` written from position `p`:
/// both operands' instructions, then the operator's.
pub open spec fn sum_postfix(x: Expr, p: int) -> Seq<Step>
    decreases size(x), sum_rank(x),
{
    match x {
        Expr::Bin { op, left, right } => if op == Op::Add || op == Op::Sub {
            sum_postfix(*left, p) + term_postfix(*right, p + sum_text(*left).len() + 1).push(
                Step::Apply(op),
            )
        } else {
            term_postfix(x, p)
        },
        _ => term_postfix(x, p),
    }
}

/// `s` holds `t` from position `p`.
pub open spec fn at(s: Seq<char>, p: int, t: Seq<char>) -> bool {
    0 <= p && p + t.len() <= s.len() && s.subrange(p, p + t.len()) == t
}

/// Position `q` does not continue a literal.
pub open spec fn ends_factor(s: Seq<char>, q: int) -> bool {
    q >= s.len() || (!is_digit(s[q]) && s[q] != '.')
}

/// Position `q` continues neither a literal nor a term.
pub open spec fn ends_sum(s: Seq<char>, q: int) -> bool {
    ends_factor(s, q) && (q >= s.len() || (s[q] != '*' && s[q] != '/'))
}

proof fn lemma_at_split(s: Seq<char>, p: int, a: Seq<char>, c: char, b: Seq<char>)
    requires
        at(s, p, a + seq![c] + b),
    ensures
        at(s, p, a),
        s[p + a.len()] == c,
        at(s, p + a.len() + 1, b),
{
    let t = a + seq![c] + b;
    let whole = s.subrange(p, p + t.len());
    assert(s.subrange(p, p + a.len()) =~= whole.subrange(0, a.len() as int));
    assert(whole.subrange(0, a.len() as int) =~= a);
    assert(whole[a.len() as int] == c);
    assert(s.subrange(p + a.len() + 1, p + t.len()) =~= whole.subrange(a.len() + 1int, t.len() as int));
    assert(whole.subrange(a.len() + 1int, t.len() as int) =~= b);
}

proof fn lemma_digits_end(s: Seq<char>, a: int, b: int)
    requires
        0 <= a <= b <= s.len(),
        forall|i: int| a <= i < b ==> is_digit(s[i]),
        b == s.len() || !is_digit(s[b]),
    ensures
        digits_end(s, a) == b,
    decreases b - a,
{
    if a < b {
        lemma_digits_end(s, a + 1, b);
    }
}

proof fn lemma_literal(
    negative: bool,
    whole: Seq<char>,
    frac: Option<Seq<char>>,
    s: Seq<char>,
    p: int,
)
    requires
        valid(Expr::Lit { negative, whole, frac }),
        at(s, p, signed_text(negative, whole, frac)),
        ends_factor(s, p + signed_text(negative, whole, frac).len()),
    ensures
        parse_factor(s, p) == (Parsed {
            steps: factor_postfix(Expr::Lit { negative, whole, frac }, p),
            end: Ok::<int, EvalError>(p + signed_text(negative, whole, frac).len()),
        }),
{
    let st = signed_text(negative, whole, frac);
    let t = lit_text(whole, frac);
    let u = if negative { p + 1 } else { p };
    assert(s.subrange(u, u + t.len()) =~= s.subrange(p, p + st.len()).subrange(u - p, st.len() as int));
    assert(st.subrange(u - p, st.len() as int) =~= t);
    assert(s.subrange(p, p + st.len())[0] == st[0]);
    let b = u + whole.len();
    assert(s.subrange(u, u + t.len())[0] == t[0]);
    assert(is_digit(s[u]));
    assert forall|i: int| u <= i < b implies is_digit(s[i]) by {
        assert(s.subrange(u, u + t.len())[i - u] == t[i - u]);
    }
    match frac {
        Some(f) => {
            lemma_at_split(s, u, whole, '.', f);
            lemma_digits_end(s, u, b);
            assert forall|i: int| b + 1 <= i < b + 1 + f.len() implies is_digit(s[i]) by {
                assert(s.subrange(b + 1, b + 1 + f.len())[i - b - 1] == f[i - b - 1]);
            }
            lemma_digits_end(s, b + 1, b + 1 + f.len());
        },
        None => {
            lemma_digits_end(s, u, b);
        },
    }
    assert(parse_number(s, p).steps == factor_postfix(Expr::Lit { negative, whole, frac }, p));
}

proof fn lemma_factor(x: Expr, s: Seq<char>, p: int)
    requires
        valid(x),
        at(s, p, factor_text(x)),
        ends_factor(s, p + factor_text(x).len()),
    ensures
        parse_factor(s, p) == (Parsed {
            steps: factor_postfix(x, p),
            end: Ok::<int, EvalError>(p + factor_text(x).len()),
        }),
    decreases size(x), factor_rank(x),
{
    match x {
        Expr::Lit { negative, whole, frac } => lemma_literal(negative, whole, frac, s, p),
        Expr::Bin { .. } => {
            assert(seq!['('] + sum_text(x) + seq![')'] =~= seq![] + seq!['('] + (sum_text(x)
                + seq![')']));
            lemma_at_split(s, p, seq![], '(', sum_text(x) + seq![')']);
            lemma_at_split(s, p + 1, sum_text(x), ')', seq![]);
            lemma_sum(x, s, p + 1);
        },
        Expr::Group { inner } => {
            let y = *inner;
            assert(seq!['('] + sum_text(y) + seq![')'] =~= seq![] + seq!['('] + (sum_text(y)
                + seq![')']));
            lemma_at_split(s, p, seq![], '(', sum_text(y) + seq![')']);
            lemma_at_split(s, p + 1, sum_text(y), ')', seq![]);
            lemma_sum(y, s, p + 1);
        },
    }
}

proof fn lemma_term(x: Expr, s: Seq<char>, p: int)
    requires
        valid(x),
        at(s, p, term_text(x)),
        ends_factor(s, p + term_text(x).len()),
    ensures
        parse_term(s, p) == term_tail(s, term_postfix(x, p), p + term_text(x).len()),
    decreases size(x), 5nat,
{
    match x {
        Expr::Bin { op, left, right } => {
            if op == Op::Mul || op == Op::Div {
                let l = *left;
                let r = *right;
                let q = p + term_text(l).len();
                lemma_at_split(s, p, term_text(l), op_char(op), factor_text(r));
                lemma_term(l, s, p);
                lemma_factor(r, s, q + 1);
            } else {
                lemma_factor(x, s, p);
            }
        },
        _ => lemma_factor(x, s, p),
    }
}

proof fn lemma_sum_of_term(x: Expr, s: Seq<char>, p: int)
    requires
        !is_add_sub(x),
        valid(x),
        at(s, p, sum_text(x)),
        ends_sum(s, p + sum_text(x).len()),
    ensures
        parse_sum(s, p) == sum_tail(s, sum_postfix(x, p), p + sum_text(x).len()),
    decreases size(x), 6nat,
{
    let e = p + term_text(x).len();
    assert(sum_text(x) == term_text(x));
    assert(sum_postfix(x, p) == term_postfix(x, p));
    lemma_term(x, s, p);
    assert(term_text(x).len() > 0) by {
        reveal_with_fuel(term_text, 2);
        reveal_with_fuel(factor_text, 2);
    }
    assert(term_tail(s, term_postfix(x, p), e) == (Parsed {
        steps: term_postfix(x, p),
        end: Ok::<int, EvalError>(e),
    }));
}

proof fn lemma_sum(x: Expr, s: Seq<char>, p: int)
    requires
        valid(x),
        at(s, p, sum_text(x)),
        ends_sum(s, p + sum_text(x).len()),
    ensures
        parse_sum(s, p) == sum_tail(s, sum_postfix(x, p), p + sum_text(x).len()),
    decreases size(x), sum_rank(x),
{
    match x {
        Expr::Bin { op, left, right } => {
            if op == Op::Add || op == Op::Sub {
                let l = *left;
                let r = *right;
                let q = p + sum_text(l).len();
                lemma_at_split(s, p, sum_text(l), op_char(op), term_text(r));
                lemma_sum(l, s, p);
                lemma_term(r, s, q + 1);
                let e = p + sum_text(x).len();
                assert(term_tail(s, term_postfix(r, q + 1), e) == (Parsed {
                    steps: term_postfix(r, q + 1),
                    end: Ok::<int, EvalError>(e),
                }));
            } else {
                lemma_sum_of_term(x, s, p);
            }
        },
        _ => lemma_sum_of_term(x, s, p),
    }
}

pub open spec fn no_white_space(t: Seq<char>) -> bool {
    forall|i: int| 0 <= i < t.len() ==> !is_white_space(t[i])
}

proof fn lemma_join(a: Seq<char>, c: char, b: Seq<char>)
    requires
        no_white_space(a),
        !is_white_space(c),
        no_white_space(b),
    ensures
        no_white_space(a + seq![c] + b),
{
    let t = a + seq![c] + b;
    assert forall|i: int| 0 <= i < t.len() implies !is_white_space(t[i]) by {
        if i < a.len() {
            assert(t[i] == a[i]);
        } else if i == a.len() {
            assert(t[i] == c);
        } else {
            assert(t[i] == b[i - a.len() - 1]);
        }
    }
}

proof fn lemma_texts_have_no_white_space(x: Expr)
    requires
        valid(x),
    ensures
        no_white_space(factor_text(x)),
        no_white_space(term_text(x)),
        no_white_space(sum_text(x)),
    decreases size(x),
{
    match x {
        Expr::Lit { negative, whole, frac } => {
            match frac {
                Some(f) => lemma_join(whole, '.', f),
                None => {},
            }
            if negative {
                lemma_join(seq![], '-', lit_text(whole, frac));
                assert(seq!['-'] + lit_text(whole, frac) =~= seq![] + seq!['-'] + lit_text(
                    whole,
                    frac,
                ));
            } else {
                assert(signed_text(negative, whole, frac) =~= lit_text(whole, frac));
            }
            assert(term_text(x) == factor_text(x));
            assert(sum_text(x) == term_text(x));
        },
        Expr::Bin { op, left, right } => {
            lemma_texts_have_no_white_space(*left);
            lemma_texts_have_no_white_space(*right);
            if op == Op::Add || op == Op::Sub {
                lemma_join(sum_text(*left), op_char(op), term_text(*right));
            } else {
                lemma_join(term_text(*left), op_char(op), factor_text(*right));
                assert(sum_text(x) == term_text(x));
            }
            assert(no_white_space(sum_text(x)));
            lemma_join(seq![], '(', sum_text(x));
            assert(seq!['('] + sum_text(x) =~= seq![] + seq!['('] + sum_text(x));
            lemma_join(seq!['('] + sum_text(x), ')', seq![]);
            assert(factor_text(x) =~= seq!['('] + sum_text(x) + seq![')'] + seq![]);
            if op == Op::Add || op == Op::Sub {
                assert(term_text(x) == factor_text(x));
            }
        },
        Expr::Group { inner } => {
            let y = *inner;
            lemma_texts_have_no_white_space(y);
            lemma_join(seq![], '(', sum_text(y));
            assert(seq!['('] + sum_text(y) =~= seq![] + seq!['('] + sum_text(y));
            lemma_join(seq!['('] + sum_text(y), ')', seq![]);
            assert(factor_text(x) =~= seq!['('] + sum_text(y) + seq![')'] + seq![]);
            assert(term_text(x) == factor_text(x));
            assert(sum_text(x) == term_text(x));
        },
    }
}

proof fn lemma_kept_whole(t: Seq<char>)
    requires
        no_white_space(t),
    ensures
        without_white_space(t) == t,
    decreases t.len(),
{
    if t.len() > 0 {
        assert(no_white_space(t.drop_last()));
        lemma_kept_whole(t.drop_last());
        assert(!is_white_space(t.last()));
        reveal_with_fuel(Seq::filter, 2);
        assert(t.drop_last().push(t.last()) =~= t);
    }
}

/// Precedence and grouping: an expression tree, written with the
/// parentheses that standard precedence needs and those that its `Group`
/// nodes add, compiles to the tree's postfix form, so `*` and `/` bind
/// tighter than `+` and `-`, operators of one level group to the left, a
/// `-` before a literal is its sign, and the whole text is consumed. Each
/// operator is thus applied to the values of exactly its two subtrees.
pub proof fn lemma_precedence(x: Expr)
    requires
        valid(x),
    ensures
        parse_expression(sum_text(x)) == (Parsed {
            steps: sum_postfix(x, 0),
            end: Ok::<int, EvalError>(sum_text(x).len() as int),
        }),
{
    let s = sum_text(x);
    assert(s.subrange(0, s.len() as int) =~= s);
    lemma_sum(x, s, 0);
    lemma_texts_have_no_white_space(x);
    lemma_kept_whole(s);
}

} // verus!

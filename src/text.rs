use vstd::prelude::*;

verus! {

/// The characters with the Unicode `White_Space` property.
pub open spec fn is_white_space(c: char) -> bool {
    ||| ('\u{9}' <= c && c <= '\u{d}')
    ||| c == ' '
    ||| c == '\u{85}'
    ||| c == '\u{a0}'
    ||| c == '\u{1680}'
    ||| ('\u{2000}' <= c && c <= '\u{200a}')
    ||| c == '\u{2028}'
    ||| c == '\u{2029}'
    ||| c == '\u{202f}'
    ||| c == '\u{205f}'
    ||| c == '\u{3000}'
}

/// The text with every white-space character removed, wherever it stands.
pub open spec fn without_white_space(s: Seq<char>) -> Seq<char> {
    s.filter(|c: char| !is_white_space(c))
}

/// Whether `c` is white space, as `char::is_whitespace` decides it.
fn char_is_whitespace(c: char) -> (r: bool)
    ensures
        r == is_white_space(c),
{
    ('\u{9}' <= c && c <= '\u{d}') || c == ' ' || c == '\u{85}' || c == '\u{a0}' || c == '\u{1680}'
        || ('\u{2000}' <= c && c <= '\u{200a}') || c == '\u{2028}' || c == '\u{2029}'
        || c == '\u{202f}' || c == '\u{205f}' || c == '\u{3000}'
}

/// Removes all white space from `expression`, also between digits, and
/// returns the remaining characters in order.
pub fn strip_whitespace(expression: &str) -> (r: Vec<char>)
    ensures
        r@ == without_white_space(expression@),
{
    let mut out: Vec<char> = Vec::new();
    for c in it: expression.chars()
        invariant
            it.seq() == expression@,
            out@ == without_white_space(expression@.take(it.index() as int)),
            it.index() == expression@.len() ==> expression@.take(it.index() as int)
                == expression@,
    {
        let ghost i = it.index() as int;
        proof {
            let s = expression@;
            assert(s.take(i + 1).drop_last() =~= s.take(i));
            assert(s.take(i + 1).last() == c);
            reveal_with_fuel(Seq::filter, 2);
        }
        if !char_is_whitespace(c) {
            out.push(c);
        }
        assert(out@ == without_white_space(expression@.take(i + 1)));
    }
    out
}

} // verus!

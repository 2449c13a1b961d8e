//! Terminal display-width measurement.
//!
//! Every wrapping and padding decision in this crate is made over display
//! columns, never storage bytes.  The width of a single codepoint is a pure
//! table lookup delegated to the `unicode_width` crate; the width of a string
//! is the verified sum of its characters' widths.

use vstd::prelude::*;

verus! {

/// Number of terminal columns a single codepoint occupies.
pub uninterp spec fn char_width(c: char) -> nat;

/// Number of terminal columns a sequence of codepoints occupies: the sum of
/// the widths of its characters.
pub open spec fn str_width(s: Seq<char>) -> nat
    decreases s.len(),
{
    if s.len() == 0 {
        0
    } else {
        char_width(s[0]) + str_width(s.drop_first())
    }
}

/// Relies on `unicode_width::UnicodeWidthChar::width`: the displayed width of
/// the character, a pure lookup in the crate's Unicode tables depending on the
/// codepoint alone; a control character (for which the crate returns `None`)
/// counts as zero columns.  The crate's width rules give the ASCII space and
/// brackets width 1, and give the half-block glyphs U+2584/U+2580 (East Asian
/// Ambiguous, not letters) width 1 outside a CJK context.
#[verifier::external_body]
pub fn char_display_width(c: char) -> (r: usize)
    ensures
        r == char_width(c),
        c == ' ' ==> r == 1,
        c == '[' ==> r == 1,
        c == ']' ==> r == 1,
        c == '\u{2584}' ==> r == 1,
        c == '\u{2580}' ==> r == 1,
{
    unicode_width::UnicodeWidthChar::width(c).unwrap_or(0)
}

/// The width of a concatenation is the sum of the widths.
pub proof fn lemma_str_width_concat(a: Seq<char>, b: Seq<char>)
    ensures
        str_width(a + b) == str_width(a) + str_width(b),
    decreases a.len(),
{
    if a.len() == 0 {
        assert(a + b =~= b);
    } else {
        assert((a + b).drop_first() =~= a.drop_first() + b);
        lemma_str_width_concat(a.drop_first(), b);
    }
}

/// The width of `n` copies of a one-column character is `n`.
pub proof fn lemma_str_width_uniform(c: char, n: nat)
    requires
        char_width(c) == 1,
    ensures
        str_width(Seq::new(n, |i: int| c)) == n,
    decreases n,
{
    let s = Seq::new(n, |i: int| c);
    if n == 0 {
    } else {
        lemma_str_width_uniform(c, (n - 1) as nat);
        assert(s.drop_first() =~= Seq::new((n - 1) as nat, |i: int| c));
    }
}

/// The width of a one-character sequence is that character's width.
pub proof fn lemma_str_width_single(c: char)
    ensures
        str_width(seq![c]) == char_width(c),
{
    let s = seq![c];
    assert(s.len() == 1 && s[0] == c);
    assert(s.drop_first() =~= Seq::<char>::empty());
    assert(str_width(s) == char_width(c) + str_width(s.drop_first()));
}

/// Displayed width of a string: the sum of its characters' widths, saturating
/// at `usize::MAX`.
pub fn display_width(s: &str) -> (r: usize)
    ensures
        r == if str_width(s@) > usize::MAX {
            usize::MAX as nat
        } else {
            str_width(s@)
        },
{
    let n = s.unicode_len();
    let mut i: usize = 0;
    let mut total: usize = 0;
    while i < n
        invariant
            n == s@.len(),
            i <= n,
            total == if str_width(s@.take(i as int)) > usize::MAX {
                usize::MAX as nat
            } else {
                str_width(s@.take(i as int))
            },
        decreases n - i,
    {
        let c = s.get_char(i);
        let w = char_display_width(c);
        proof {
            assert(s@.take(i + 1) =~= s@.take(i as int) + seq![c]);
            lemma_str_width_concat(s@.take(i as int), seq![c]);
            lemma_str_width_single(c);
        }
        total = saturating_add_usize(total, w);
        i = i + 1;
    }
    proof {
        assert(s@.take(n as int) =~= s@);
    }
    total
}

/// Adds two machine words, saturating at `usize::MAX`.
pub fn saturating_add_usize(a: usize, b: usize) -> (r: usize)
    ensures
        r == if a + b > usize::MAX {
            usize::MAX as int
        } else {
            a + b
        },
{
    if a > usize::MAX - b {
        usize::MAX
    } else {
        a + b
    }
}

} // verus!

//! ANSI escape sequences: building colored-output escapes and measuring the
//! visible part of an escaped string.
//!
//! A terminal row produced by this crate is a mix of escape sequences (which
//! occupy no columns) and visible text.  `strip_ansi` is the specification of
//! what remains visible; the escape builders below produce sequences that are
//! provably invisible.

use vstd::prelude::*;
use crate::colors::{spec_resolve_color, resolve_color};
use crate::width::{str_width, display_width};
use crate::strutil::push_char;

verus! {

/// Scanner state while walking an escaped string: ordinary text, just after
/// an escape character, or inside a control sequence.
pub enum AnsiMode {
    Norm,
    Esc,
    Csi,
}

/// One scanner step.
pub open spec fn ansi_step(m: AnsiMode, c: char) -> AnsiMode {
    match m {
        AnsiMode::Norm => if c == '\u{1b}' {
            AnsiMode::Esc
        } else {
            AnsiMode::Norm
        },
        AnsiMode::Esc => if c == '[' {
            AnsiMode::Csi
        } else {
            AnsiMode::Norm
        },
        AnsiMode::Csi => if 0x40 <= c as u32 && c as u32 <= 0x7e {
            AnsiMode::Norm
        } else {
            AnsiMode::Csi
        },
    }
}

/// A character is visible only in ordinary text, and the escape character
/// itself never is.
pub open spec fn ansi_keeps(m: AnsiMode, c: char) -> bool {
    m is Norm && c != '\u{1b}'
}

/// The scanner state after walking `s` from state `m`.
pub open spec fn mode_after(s: Seq<char>, m: AnsiMode) -> AnsiMode
    decreases s.len(),
{
    if s.len() == 0 {
        m
    } else {
        mode_after(s.drop_first(), ansi_step(m, s[0]))
    }
}

/// The visible characters of `s`, walking from state `m`.
pub open spec fn strip_from(s: Seq<char>, m: AnsiMode) -> Seq<char>
    decreases s.len(),
{
    if s.len() == 0 {
        Seq::empty()
    } else {
        let rest = strip_from(s.drop_first(), ansi_step(m, s[0]));
        if ansi_keeps(m, s[0]) {
            seq![s[0]] + rest
        } else {
            rest
        }
    }
}

/// The visible characters of an escaped string.
pub open spec fn strip_ansi(s: Seq<char>) -> Seq<char> {
    strip_from(s, AnsiMode::Norm)
}

/// The string leaves the scanner back in ordinary text: it contains no
/// dangling escape.
pub open spec fn ansi_closed(s: Seq<char>) -> bool {
    mode_after(s, AnsiMode::Norm) is Norm
}

/// The string is pure escape material: closed, with nothing visible.
pub open spec fn ansi_neutral(s: Seq<char>) -> bool {
    ansi_closed(s) && strip_ansi(s) == Seq::<char>::empty()
}

/// Stripping distributes over concatenation, threading the scanner state.
pub proof fn lemma_ansi_concat(a: Seq<char>, b: Seq<char>, m: AnsiMode)
    ensures
        mode_after(a + b, m) == mode_after(b, mode_after(a, m)),
        strip_from(a + b, m) == strip_from(a, m) + strip_from(b, mode_after(a, m)),
    decreases a.len(),
{
    if a.len() == 0 {
        assert(a + b =~= b);
        assert(strip_from(a, m) + strip_from(b, m) =~= strip_from(b, m));
    } else {
        assert((a + b).drop_first() =~= a.drop_first() + b);
        lemma_ansi_concat(a.drop_first(), b, ansi_step(m, a[0]));
        if ansi_keeps(m, a[0]) {
            assert(strip_from(a + b, m) =~= strip_from(a, m) + strip_from(
                b, mode_after(a, m)));
        }
    }
}

/// A string with no escape character is left intact by stripping.
pub proof fn lemma_ansi_plain(s: Seq<char>)
    requires
        forall|i: int| 0 <= i < s.len() ==> s[i] != '\u{1b}',
    ensures
        mode_after(s, AnsiMode::Norm) is Norm,
        strip_from(s, AnsiMode::Norm) == s,
    decreases s.len(),
{
    if s.len() == 0 {
    } else {
        lemma_ansi_plain(s.drop_first());
        assert(strip_from(s, AnsiMode::Norm) =~= s);
    }
}

/// No escape character occurs in the sequence.
pub open spec fn esc_free(s: Seq<char>) -> bool {
    forall|i: int| 0 <= i < s.len() ==> s[i] != '\u{1b}'
}

/// Appending anything to a closed string strips piecewise.
pub proof fn lemma_closed_append(a: Seq<char>, b: Seq<char>)
    requires
        ansi_closed(a),
    ensures
        strip_ansi(a + b) == strip_ansi(a) + strip_ansi(b),
        mode_after(a + b, AnsiMode::Norm) == mode_after(b, AnsiMode::Norm),
{
    lemma_ansi_concat(a, b, AnsiMode::Norm);
}

/// Appending pure escape material to a closed string leaves its visible
/// characters alone.
pub proof fn lemma_neutral_append(a: Seq<char>, e: Seq<char>)
    requires
        ansi_closed(a),
        ansi_neutral(e),
    ensures
        strip_ansi(a + e) == strip_ansi(a),
        ansi_closed(a + e),
{
    lemma_ansi_concat(a, e, AnsiMode::Norm);
    assert(strip_ansi(a) + strip_ansi(e) =~= strip_ansi(a));
}

/// Appending escape-free text to a closed string appends it visibly.
pub proof fn lemma_plain_append(a: Seq<char>, p: Seq<char>)
    requires
        ansi_closed(a),
        esc_free(p),
    ensures
        strip_ansi(a + p) == strip_ansi(a) + p,
        ansi_closed(a + p),
{
    lemma_ansi_plain(p);
    lemma_ansi_concat(a, p, AnsiMode::Norm);
}

/// A CSI parameter or intermediate character: it keeps the scanner inside the
/// control sequence.
pub open spec fn csi_param_char(c: char) -> bool {
    0x20 <= c as u32 && c as u32 <= 0x3f
}

/// Parameter characters inside a control sequence are invisible and keep the
/// scanner there.
pub proof fn lemma_csi_params(s: Seq<char>)
    requires
        forall|i: int| 0 <= i < s.len() ==> csi_param_char(s[i]),
    ensures
        mode_after(s, AnsiMode::Csi) is Csi,
        strip_from(s, AnsiMode::Csi) == Seq::<char>::empty(),
    decreases s.len(),
{
    if s.len() == 0 {
    } else {
        lemma_csi_params(s.drop_first());
    }
}

/// A full control sequence: escape, bracket, parameters, final byte.
pub open spec fn csi_seq(params: Seq<char>) -> Seq<char> {
    seq!['\u{1b}', '['] + params + seq!['m']
}

/// A control sequence built from parameter characters is pure escape
/// material.
pub proof fn lemma_csi_neutral(params: Seq<char>)
    requires
        forall|i: int| 0 <= i < params.len() ==> csi_param_char(params[i]),
    ensures
        ansi_neutral(csi_seq(params)),
{
    reveal_with_fuel(mode_after, 3);
    reveal_with_fuel(strip_from, 3);
    let head = seq!['\u{1b}', '['];
    let tail = params + seq!['m'];
    assert(head[0] == '\u{1b}' && head[1] == '[');
    assert(head.drop_first() =~= seq!['[']);
    assert(seq!['['].drop_first() =~= Seq::<char>::empty());
    assert(mode_after(head, AnsiMode::Norm) is Csi);
    assert(strip_from(head, AnsiMode::Norm) =~= Seq::<char>::empty());
    lemma_csi_params(params);
    assert(seq!['m'].drop_first() =~= Seq::<char>::empty());
    assert(mode_after(seq!['m'], AnsiMode::Csi) is Norm);
    assert(strip_from(seq!['m'], AnsiMode::Csi) =~= Seq::<char>::empty());
    lemma_ansi_concat(params, seq!['m'], AnsiMode::Csi);
    lemma_ansi_concat(head, tail, AnsiMode::Norm);
    assert(csi_seq(params) =~= head + tail);
    assert(strip_ansi(csi_seq(params)) =~= Seq::<char>::empty());
}

/// The decimal digit character for a value below ten.
pub open spec fn digit(d: nat) -> char {
    if d == 0 {
        '0'
    } else if d == 1 {
        '1'
    } else if d == 2 {
        '2'
    } else if d == 3 {
        '3'
    } else if d == 4 {
        '4'
    } else if d == 5 {
        '5'
    } else if d == 6 {
        '6'
    } else if d == 7 {
        '7'
    } else if d == 8 {
        '8'
    } else {
        '9'
    }
}

/// The decimal rendering of a byte value, without leading zeros.
pub open spec fn dec_byte_seq(n: nat) -> Seq<char> {
    if n < 10 {
        seq![digit(n)]
    } else if n < 100 {
        seq![digit(n / 10), digit(n % 10)]
    } else {
        seq![digit(n / 100), digit((n / 10) % 10), digit(n % 10)]
    }
}

proof fn lemma_digit_param(d: nat)
    ensures
        csi_param_char(digit(d)),
{
}

proof fn lemma_dec_byte_params(n: nat)
    ensures
        forall|i: int| 0 <= i < dec_byte_seq(n).len() ==> csi_param_char(dec_byte_seq(n)[i]),
{
    let s = dec_byte_seq(n);
    assert forall|i: int| 0 <= i < s.len() implies csi_param_char(s[i]) by {
        if n < 10 {
            lemma_digit_param(n);
        } else if n < 100 {
            lemma_digit_param(n / 10);
            lemma_digit_param(n % 10);
        } else {
            lemma_digit_param(n / 100);
            lemma_digit_param((n / 10) % 10);
            lemma_digit_param(n % 10);
        }
    }
}

fn digit_char(d: u8) -> (c: char)
    requires
        d < 10,
    ensures
        c == digit(d as nat),
{
    if d == 0 {
        '0'
    } else if d == 1 {
        '1'
    } else if d == 2 {
        '2'
    } else if d == 3 {
        '3'
    } else if d == 4 {
        '4'
    } else if d == 5 {
        '5'
    } else if d == 6 {
        '6'
    } else if d == 7 {
        '7'
    } else if d == 8 {
        '8'
    } else {
        '9'
    }
}

/// The value of a hexadecimal digit, or -1 for any other character.
pub open spec fn hex_val(c: char) -> int {
    let u = c as u32;
    if 0x30 <= u && u <= 0x39 {
        u - 0x30
    } else if 0x61 <= u && u <= 0x66 {
        u - 0x61 + 10
    } else if 0x41 <= u && u <= 0x46 {
        u - 0x41 + 10
    } else {
        -1
    }
}

/// A `#rrggbb` hex color, decoded into its three channels.
pub open spec fn spec_hex_color(s: Seq<char>) -> Option<(nat, nat, nat)> {
    if s.len() == 7 && s[0] == '#' && hex_val(s[1]) >= 0 && hex_val(s[2]) >= 0 && hex_val(s[3])
        >= 0 && hex_val(s[4]) >= 0 && hex_val(s[5]) >= 0 && hex_val(s[6]) >= 0 {
        Some(
            (
                (hex_val(s[1]) * 16 + hex_val(s[2])) as nat,
                (hex_val(s[3]) * 16 + hex_val(s[4])) as nat,
                (hex_val(s[5]) * 16 + hex_val(s[6])) as nat,
            ),
        )
    } else {
        None
    }
}

fn hex_digit(c: char) -> (r: Option<u8>)
    ensures
        r is Some <==> hex_val(c) >= 0,
        r is Some ==> r->0 == hex_val(c),
{
    let u = c as u32;
    if 0x30 <= u && u <= 0x39 {
        Some((u - 0x30) as u8)
    } else if 0x61 <= u && u <= 0x66 {
        Some((u - 0x61 + 10) as u8)
    } else if 0x41 <= u && u <= 0x46 {
        Some((u - 0x41 + 10) as u8)
    } else {
        None
    }
}

/// Decodes a `#rrggbb` string into its three channels.
pub fn parse_hex_color(s: &str) -> (r: Option<(u8, u8, u8)>)
    ensures
        r is Some <==> spec_hex_color(s@) is Some,
        r matches Some(t) ==> Some((t.0 as nat, t.1 as nat, t.2 as nat)) == spec_hex_color(s@),
{
    let n = s.unicode_len();
    if n != 7 {
        return None;
    }
    if s.get_char(0) != '#' {
        return None;
    }
    let d1 = hex_digit(s.get_char(1));
    let d2 = hex_digit(s.get_char(2));
    let d3 = hex_digit(s.get_char(3));
    let d4 = hex_digit(s.get_char(4));
    let d5 = hex_digit(s.get_char(5));
    let d6 = hex_digit(s.get_char(6));
    match (d1, d2, d3, d4, d5, d6) {
        (Some(h1), Some(l1), Some(h2), Some(l2), Some(h3), Some(l3)) => Some(
            (h1 * 16 + l1, h2 * 16 + l2, h3 * 16 + l3),
        ),
        _ => None,
    }
}

/// The escape selecting a 24-bit color: `code` is 38 for foreground, 48 for
/// background.
pub open spec fn sgr_truecolor_seq(code: nat, r: nat, g: nat, b: nat) -> Seq<char> {
    csi_seq(
        dec_byte_seq(code) + seq![';', '2', ';'] + dec_byte_seq(r) + seq![';'] + dec_byte_seq(g)
            + seq![';'] + dec_byte_seq(b),
    )
}

/// A truecolor escape is pure escape material.
pub proof fn lemma_sgr_neutral(code: nat, r: nat, g: nat, b: nat)
    ensures
        ansi_neutral(sgr_truecolor_seq(code, r, g, b)),
{
    let params = dec_byte_seq(code) + seq![';', '2', ';'] + dec_byte_seq(r) + seq![';']
        + dec_byte_seq(g) + seq![';'] + dec_byte_seq(b);
    lemma_dec_byte_params(code);
    lemma_dec_byte_params(r);
    lemma_dec_byte_params(g);
    lemma_dec_byte_params(b);
    assert(forall|i: int| 0 <= i < params.len() ==> csi_param_char(params[i]));
    lemma_csi_neutral(params);
}

/// What the foreground-color escape for a style color holds: the resolved
/// color's channels if it is a hex color, nothing otherwise.
pub open spec fn spec_fg_color(s: Seq<char>) -> Seq<char> {
    match spec_hex_color(spec_resolve_color(s)) {
        Some((r, g, b)) => sgr_truecolor_seq(38, r, g, b),
        None => Seq::empty(),
    }
}

/// What the background-color escape for a style color holds.
pub open spec fn spec_bg_color(s: Seq<char>) -> Seq<char> {
    match spec_hex_color(spec_resolve_color(s)) {
        Some((r, g, b)) => sgr_truecolor_seq(48, r, g, b),
        None => Seq::empty(),
    }
}

fn sgr_truecolor(code: u8, r: u8, g: u8, b: u8) -> (out: String)
    ensures
        out@ == sgr_truecolor_seq(code as nat, r as nat, g as nat, b as nat),
{
    let mut s = String::new();
    push_char(&mut s, '\u{1b}');
    push_char(&mut s, '[');
    push_dec_byte(&mut s, code);
    push_char(&mut s, ';');
    push_char(&mut s, '2');
    push_char(&mut s, ';');
    push_dec_byte(&mut s, r);
    push_char(&mut s, ';');
    push_dec_byte(&mut s, g);
    push_char(&mut s, ';');
    push_dec_byte(&mut s, b);
    push_char(&mut s, 'm');
    proof {
        assert(s@ =~= sgr_truecolor_seq(code as nat, r as nat, g as nat, b as nat));
    }
    s
}

/// The escape setting the terminal foreground to the given style color; empty
/// when the color resolves to nothing displayable.
pub fn fg_color(color: &str) -> (out: String)
    ensures
        out@ == spec_fg_color(color@),
        ansi_neutral(out@),
{
    let resolved = resolve_color(color);
    match parse_hex_color(resolved) {
        Some((r, g, b)) => {
            proof {
                lemma_sgr_neutral(38, r as nat, g as nat, b as nat);
            }
            sgr_truecolor(38, r, g, b)
        },
        None => String::new(),
    }
}

/// The escape setting the terminal background to the given style color; empty
/// when the color resolves to nothing displayable.
pub fn bg_color(color: &str) -> (out: String)
    ensures
        out@ == spec_bg_color(color@),
        ansi_neutral(out@),
{
    let resolved = resolve_color(color);
    match parse_hex_color(resolved) {
        Some((r, g, b)) => {
            proof {
                lemma_sgr_neutral(48, r as nat, g as nat, b as nat);
            }
            sgr_truecolor(48, r, g, b)
        },
        None => String::new(),
    }
}

/// The escape restoring the terminal's default attributes.
pub open spec fn reset_seq() -> Seq<char> {
    csi_seq(seq!['0'])
}

/// The reset escape is pure escape material.
pub proof fn lemma_reset_neutral()
    ensures
        ansi_neutral(reset_seq()),
{
    lemma_csi_neutral(seq!['0']);
}

/// Builds the escape restoring the terminal's default attributes.
pub fn reset_str() -> (out: String)
    ensures
        out@ == reset_seq(),
        ansi_neutral(out@),
{
    let mut s = String::new();
    push_char(&mut s, '\u{1b}');
    push_char(&mut s, '[');
    push_char(&mut s, '0');
    push_char(&mut s, 'm');
    proof {
        assert(s@ =~= reset_seq());
        lemma_reset_neutral();
    }
    s
}

/// The characters of an escaped string that a terminal displays.
pub fn visible(s: &str) -> (out: String)
    ensures
        out@ == strip_ansi(s@),
{
    let n = s.unicode_len();
    let mut out = String::new();
    let mut mode = AnsiMode::Norm;
    let mut i: usize = 0;
    proof {
        assert(s@.take(0) =~= Seq::<char>::empty());
    }
    while i < n
        invariant
            n == s@.len(),
            i <= n,
            mode == mode_after(s@.take(i as int), AnsiMode::Norm),
            out@ == strip_from(s@.take(i as int), AnsiMode::Norm),
        decreases n - i,
    {
        let c = s.get_char(i);
        let ghost m0 = mode;
        proof {
            assert(s@.take(i + 1) =~= s@.take(i as int) + seq![c]);
            lemma_ansi_concat(s@.take(i as int), seq![c], AnsiMode::Norm);
            reveal_with_fuel(mode_after, 2);
            reveal_with_fuel(strip_from, 2);
            assert(seq![c].len() == 1 && seq![c][0] == c);
            assert(seq![c].drop_first() =~= Seq::<char>::empty());
            assert(mode_after(seq![c], m0) == ansi_step(m0, c));
            assert(strip_from(seq![c], m0) == if ansi_keeps(m0, c) {
                seq![c]
            } else {
                Seq::<char>::empty()
            });
        }
        let keep = match mode {
            AnsiMode::Norm => {
                if c == '\u{1b}' {
                    mode = AnsiMode::Esc;
                    false
                } else {
                    true
                }
            },
            AnsiMode::Esc => {
                if c == '[' {
                    mode = AnsiMode::Csi;
                } else {
                    mode = AnsiMode::Norm;
                }
                false
            },
            AnsiMode::Csi => {
                let u = c as u32;
                if 0x40 <= u && u <= 0x7e {
                    mode = AnsiMode::Norm;
                }
                false
            },
        };
        if keep {
            push_char(&mut out, c);
        }
        proof {
            assert(mode == ansi_step(m0, c));
            assert(keep == ansi_keeps(m0, c));
            assert(out@ =~= strip_from(s@.take(i + 1), AnsiMode::Norm));
        }
        i = i + 1;
    }
    proof {
        assert(s@.take(n as int) =~= s@);
    }
    out
}

/// The displayed width of an escaped string: the width of its visible
/// characters, saturating at `usize::MAX`.
pub fn visible_width(s: &str) -> (r: usize)
    ensures
        r == if str_width(strip_ansi(s@)) > usize::MAX {
            usize::MAX as nat
        } else {
            str_width(strip_ansi(s@))
        },
{
    let stripped = visible(s);
    display_width(stripped.as_str())
}

/// Appends the decimal rendering of a byte.
fn push_dec_byte(s: &mut String, n: u8)
    ensures
        final(s)@ == old(s)@ + dec_byte_seq(n as nat),
{
    if n < 10 {
        push_char(s, digit_char(n));
        proof {
            assert(s@ =~= old(s)@ + dec_byte_seq(n as nat));
        }
    } else if n < 100 {
        push_char(s, digit_char(n / 10));
        push_char(s, digit_char(n % 10));
        proof {
            assert(s@ =~= old(s)@ + dec_byte_seq(n as nat));
        }
    } else {
        push_char(s, digit_char(n / 100));
        push_char(s, digit_char((n / 10) % 10));
        push_char(s, digit_char(n % 10));
        proof {
            assert(s@ =~= old(s)@ + dec_byte_seq(n as nat));
        }
    }
}

} // verus!

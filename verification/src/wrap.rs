//! Codepoint-exact wrapping of code lines.
//!
//! A code line that exceeds the configured width is split into consecutive
//! runs of codepoints; indexing is defined over codepoints, never storage
//! bytes, so a multi-byte character can never be torn apart.

use vstd::prelude::*;
use crate::strutil::{is_whitespace_char, char_is_whitespace, all_ws, is_all_whitespace};
use crate::ansi::esc_free;

verus! {

/// Count of leading whitespace codepoints.
pub open spec fn leading_ws(s: Seq<char>) -> int
    decreases s.len(),
{
    if s.len() == 0 {
        0
    } else if is_whitespace_char(s[0]) {
        1 + leading_ws(s.drop_first())
    } else {
        0
    }
}

proof fn lemma_leading_ws_at(s: Seq<char>, i: int)
    requires
        0 <= i <= s.len(),
        forall|j: int| 0 <= j < i ==> is_whitespace_char(s[j]),
        i < s.len() ==> !is_whitespace_char(s[i]),
    ensures
        leading_ws(s) == i,
    decreases i,
{
    if i == 0 {
    } else {
        assert(is_whitespace_char(s[0]));
        lemma_leading_ws_at(s.drop_first(), i - 1);
    }
}

/// The line's content split into consecutive runs of exactly `w` codepoints,
/// the final run possibly shorter.
pub open spec fn chunks_of(s: Seq<char>, w: nat) -> Seq<Seq<char>>
    decreases s.len(),
{
    if w == 0 {
        Seq::empty()
    } else if s.len() <= w {
        seq![s]
    } else {
        seq![s.take(w as int)] + chunks_of(s.skip(w as int), w)
    }
}

/// Trailing whitespace-only runs are dropped.
pub open spec fn drop_trailing_ws(segs: Seq<Seq<char>>) -> Seq<Seq<char>>
    decreases segs.len(),
{
    if segs.len() == 0 {
        segs
    } else if all_ws(segs.last()) {
        drop_trailing_ws(segs.drop_last())
    } else {
        segs
    }
}

/// The first run keeps the line's original indentation whitespace;
/// continuation runs are not re-indented.
pub open spec fn prefix_first(raw: Seq<Seq<char>>, prefix: Seq<char>) -> Seq<Seq<char>> {
    if raw.len() == 0 {
        raw
    } else {
        seq![prefix + raw[0]] + raw.skip(1)
    }
}

/// What `code_wrap` returns: the detected indent, and the wrapped segments.
pub open spec fn wrap_spec(text: Seq<char>, width: nat, enabled: bool) -> (int, Seq<Seq<char>>) {
    if text.len() == 0 {
        (0int, seq![Seq::<char>::empty()])
    } else if !enabled {
        (0int, seq![text])
    } else {
        let ind = leading_ws(text);
        let content = text.skip(ind);
        if content.len() == 0 {
            (ind, seq![text])
        } else {
            let ew = if width >= 4 + ind { (width - 4 - ind) as nat } else { 0 as nat };
            if ew == 0 || content.len() <= ew {
                (ind, seq![text])
            } else {
                let segs = drop_trailing_ws(prefix_first(chunks_of(content, ew), text.take(
                    ind)));
                if segs.len() == 0 {
                    (ind, seq![text])
                } else {
                    (ind, segs)
                }
            }
        }
    }
}

/// Wrap a code line if it exceeds the width.
///
/// Unlike text wrapping, code wrapping preserves indentation and does not
/// break on word boundaries.  If `pretty_broken` is false the line is
/// returned unmodified, so the terminal's own wrapping applies and
/// copy-paste fidelity is kept.  Returns the detected indent (a count of
/// codepoints) and the wrapped lines.
pub fn code_wrap(text: &str, width: usize, pretty_broken: bool) -> (r: (usize, Vec<String>))
    ensures
        r.0 == wrap_spec(text@, width as nat, pretty_broken).0,
        r.1.deep_view() == wrap_spec(text@, width as nat, pretty_broken).1,
{
    let n = text.unicode_len();
    if n == 0 {
        let mut v: Vec<String> = Vec::new();
        v.push(String::new());
        proof {
            assert(v.deep_view() =~= seq![Seq::<char>::empty()]);
        }
        return (0, v);
    }
    if !pretty_broken {
        let mut v: Vec<String> = Vec::new();
        v.push(text.to_owned());
        proof {
            assert(v.deep_view() =~= seq![text@]);
        }
        return (0, v);
    }

    // Detect indentation: count leading whitespace codepoints, not bytes.
    let mut indent: usize = 0;
    while indent < n && char_is_whitespace(text.get_char(indent))
        invariant
            n == text@.len(),
            indent <= n,
            forall|j: int| 0 <= j < indent ==> is_whitespace_char(text@[j]),
        decreases n - indent,
    {
        indent = indent + 1;
    }
    proof {
        lemma_leading_ws_at(text@, indent as int);
    }

    let content = text.substring_char(indent, n);
    let cc = n - indent;
    proof {
        assert(content@ =~= text@.skip(indent as int));
    }

    if cc == 0 {
        let mut v: Vec<String> = Vec::new();
        v.push(text.to_owned());
        proof {
            assert(v.deep_view() =~= seq![text@]);
        }
        return (indent, v);
    }

    // Effective width: the configured width less a four-column margin and
    // the indent, clamped at zero.
    let ew = if width >= 4 && width - 4 >= indent {
        width - 4 - indent
    } else {
        0
    };

    if ew == 0 || cc <= ew {
        let mut v: Vec<String> = Vec::new();
        v.push(text.to_owned());
        proof {
            assert(v.deep_view() =~= seq![text@]);
        }
        return (indent, v);
    }

    // Split the content into runs of exactly `ew` codepoints.
    let mut lines: Vec<String> = Vec::new();
    let mut start: usize = 0;
    proof {
        assert(content@.skip(0) =~= content@);
        assert(lines.deep_view() =~= Seq::<Seq<char>>::empty());
    }
    while start < cc
        invariant
            cc == content@.len(),
            indent <= text@.len(),
            0 < ew,
            start <= cc,
            prefix_first(chunks_of(content@, ew as nat), text@.take(indent as int))
                =~= lines.deep_view() + (if start < cc {
                    prefix_first(chunks_of(content@.skip(start as int), ew as nat),
                        if start == 0 { text@.take(indent as int) } else { Seq::empty() })
                } else {
                    Seq::<Seq<char>>::empty()
                }),
        decreases cc - start,
    {
        let end = if cc - start > ew {
            start + ew
        } else {
            cc
        };
        let piece = content.substring_char(start, end);
        proof {
            assert(piece@ =~= content@.skip(start as int).take((end - start) as int));
            if end < cc {
                assert(content@.skip(start as int).skip(ew as int) =~= content@.skip(
                    end as int));
            } else {
                assert(content@.skip(start as int).take((end - start) as int) =~= content@.skip(
                    start as int));
            }
        }
        if start == 0 {
            let mut first = text.substring_char(0, indent).to_owned();
            proof {
                assert(first@ =~= text@.take(indent as int));
            }
            first.append(piece);
            lines.push(first);
        } else {
            lines.push(piece.to_owned());
        }
        proof {
            let raw = chunks_of(content@.skip(start as int), ew as nat);
            if end < cc {
                assert(raw == seq![content@.skip(start as int).take(ew as int)] + chunks_of(
                    content@.skip(end as int), ew as nat));
                assert(raw.skip(1) =~= chunks_of(content@.skip(end as int), ew as nat));
                if start == 0 {
                    assert(prefix_first(raw, text@.take(indent as int))[0] == text@.take(
                        indent as int) + piece@);
                    assert(prefix_first(raw, text@.take(indent as int)).skip(1) =~= raw.skip(
                        1));
                } else {
                    assert(prefix_first(raw, Seq::<char>::empty())[0] =~= piece@);
                    assert(prefix_first(raw, Seq::<char>::empty()).skip(1) =~= raw.skip(1));
                }
            } else {
                assert(raw == seq![content@.skip(start as int)]);
            }
        }
        start = end;
    }

    // Remove trailing whitespace-only lines.
    let ghost full = prefix_first(chunks_of(content@, ew as nat), text@.take(indent as int));
    proof {
        assert(lines.deep_view() =~= full);
    }
    while lines.len() > 0 && is_all_whitespace(lines[lines.len() - 1].as_str())
        invariant
            drop_trailing_ws(full) == drop_trailing_ws(lines.deep_view()),
        decreases lines.len(),
    {
        let ghost prev = lines.deep_view();
        proof {
            assert(prev.last() == lines@[lines@.len() - 1]@);
            assert(all_ws(prev.last()));
        }
        lines.pop();
        proof {
            assert(lines.deep_view() =~= prev.drop_last());
        }
    }
    proof {
        if lines.len() > 0 {
            assert(lines.deep_view().last() == lines@[lines@.len() - 1]@);
            assert(drop_trailing_ws(lines.deep_view()) == lines.deep_view());
        }
        assert(lines.deep_view() == drop_trailing_ws(full));
    }

    if lines.len() == 0 {
        lines.push(text.to_owned());
        proof {
            assert(lines.deep_view() =~= seq![text@]);
        }
    }
    (indent, lines)
}

/// Dropping trailing whitespace-only runs keeps a prefix of the runs.
pub proof fn lemma_drop_trailing_prefix(segs: Seq<Seq<char>>)
    ensures
        drop_trailing_ws(segs).len() <= segs.len(),
        drop_trailing_ws(segs) == segs.take(drop_trailing_ws(segs).len() as int),
    decreases segs.len(),
{
    if segs.len() == 0 {
        assert(segs.take(0) =~= segs);
    } else if all_ws(segs.last()) {
        lemma_drop_trailing_prefix(segs.drop_last());
        let k = drop_trailing_ws(segs).len() as int;
        assert(segs.drop_last().take(k) =~= segs.take(k));
    } else {
        assert(segs.take(segs.len() as int) =~= segs);
    }
}

proof fn lemma_chunks_esc_free(s: Seq<char>, w: nat)
    requires
        esc_free(s),
    ensures
        forall|i: int|
            0 <= i < chunks_of(s, w).len() ==> #[trigger] esc_free(chunks_of(s, w)[i]),
    decreases s.len(),
{
    if w == 0 {
    } else if s.len() <= w {
    } else {
        assert(esc_free(s.skip(w as int)));
        lemma_chunks_esc_free(s.skip(w as int), w);
        assert forall|i: int| 0 <= i < chunks_of(s, w).len() implies #[trigger] esc_free(
            chunks_of(s, w)[i]) by {
            if i == 0 {
                assert(esc_free(s.take(w as int)));
            } else {
                assert(chunks_of(s, w)[i] == chunks_of(s.skip(w as int), w)[i - 1]);
            }
        }
    }
}

/// Wrapping never introduces an escape character: every segment of an
/// escape-free line is escape-free.
pub proof fn lemma_wrap_esc_free(text: Seq<char>, width: nat, enabled: bool)
    requires
        esc_free(text),
    ensures
        forall|i: int|
            0 <= i < wrap_spec(text, width, enabled).1.len() ==> #[trigger] esc_free(
                wrap_spec(text, width, enabled).1[i]),
{
    let segs = wrap_spec(text, width, enabled).1;
    if text.len() == 0 {
        assert(esc_free(segs[0]));
    } else if !enabled {
        assert(esc_free(segs[0]));
    } else {
        let ind = leading_ws(text);
        lemma_leading_ws_bounds(text);
        let content = text.skip(ind);
        assert(esc_free(content));
        let ew = if width >= 4 + ind {
            (width - 4 - ind) as nat
        } else {
            0 as nat
        };
        if content.len() == 0 || ew == 0 || content.len() <= ew {
            assert(esc_free(segs[0]));
        } else {
            let raw = chunks_of(content, ew);
            lemma_chunks_esc_free(content, ew);
            let pre = prefix_first(raw, text.take(ind));
            assert forall|i: int| 0 <= i < pre.len() implies #[trigger] esc_free(pre[i]) by {
                if i == 0 {
                    assert(esc_free(raw[0]));
                    assert(esc_free(text.take(ind)));
                    assert(pre[0] == text.take(ind) + raw[0]);
                } else {
                    assert(pre[i] == raw[i]);
                }
            }
            let dropped = drop_trailing_ws(pre);
            lemma_drop_trailing_prefix(pre);
            if dropped.len() == 0 {
                assert(esc_free(segs[0]));
            } else {
                assert(forall|i: int|
                    0 <= i < dropped.len() ==> dropped[i] == pre[i]);
            }
        }
    }
}

/// The indent never exceeds the line's length.
pub proof fn lemma_leading_ws_bounds(s: Seq<char>)
    ensures
        0 <= leading_ws(s) <= s.len(),
    decreases s.len(),
{
    if s.len() > 0 && is_whitespace_char(s[0]) {
        lemma_leading_ws_bounds(s.drop_first());
    }
}

} // verus!

//! The laws of the wrapping engine and the raw-source accumulator, stated
//! over the same specification functions the executable contracts use.

use vstd::prelude::*;
use crate::strutil::all_ws;
use crate::wrap::{
    wrap_spec, leading_ws, chunks_of, drop_trailing_ws, prefix_first, lemma_leading_ws_bounds,
    lemma_drop_trailing_prefix,
};

verus! {

/// With wrapping disabled, any line comes back whole, with indent zero.
pub proof fn law_wrap_disabled(text: Seq<char>, width: nat)
    ensures
        text.len() > 0 ==> wrap_spec(text, width, false) == (0int, seq![text]),
        text.len() == 0 ==> wrap_spec(text, width, false) == (0int, seq![
            Seq::<char>::empty(),
        ]),
{
    if text.len() == 0 {
        assert(seq![text] =~~= seq![Seq::<char>::empty()]);
    }
}

/// The empty line wraps to one empty segment, whatever the width.
pub proof fn law_wrap_empty(width: nat)
    ensures
        wrap_spec(Seq::<char>::empty(), width, true) == (0int, seq![Seq::<char>::empty()]),
{
}

/// Every line wraps to at least one segment.
pub proof fn law_wrap_nonempty(text: Seq<char>, width: nat, enabled: bool)
    ensures
        wrap_spec(text, width, enabled).1.len() >= 1,
{
}

proof fn lemma_flatten_concat(a: Seq<Seq<char>>, b: Seq<Seq<char>>)
    ensures
        (a + b).flatten() == a.flatten() + b.flatten(),
    decreases a.len(),
{
    if a.len() == 0 {
        assert(a + b =~= b);
        assert(a.flatten() + b.flatten() =~= b.flatten());
    } else {
        assert((a + b).drop_first() =~= a.drop_first() + b);
        lemma_flatten_concat(a.drop_first(), b);
        assert((a + b).flatten() =~= a.flatten() + b.flatten());
    }
}

proof fn lemma_chunks_flatten(s: Seq<char>, w: nat)
    requires
        w > 0,
    ensures
        chunks_of(s, w).flatten() == s,
    decreases s.len(),
{
    if s.len() <= w {
        assert(chunks_of(s, w) =~= seq![s]);
        seq![s].lemma_flatten_one_element();
        assert(chunks_of(s, w).flatten() =~= s);
    } else {
        lemma_chunks_flatten(s.skip(w as int), w);
        lemma_flatten_concat(seq![s.take(w as int)], chunks_of(s.skip(w as int), w));
        seq![s.take(w as int)].lemma_flatten_one_element();
        assert(chunks_of(s, w).flatten() =~= s);
    }
}

proof fn lemma_drop_trailing_dropped_ws(segs: Seq<Seq<char>>)
    ensures
        forall|j: int|
            drop_trailing_ws(segs).len() <= j < segs.len() ==> all_ws(#[trigger] segs[j]),
    decreases segs.len(),
{
    if segs.len() == 0 {
    } else if all_ws(segs.last()) {
        lemma_drop_trailing_dropped_ws(segs.drop_last());
        lemma_drop_trailing_prefix(segs.drop_last());
        assert forall|j: int|
            drop_trailing_ws(segs).len() <= j < segs.len() implies all_ws(
            #[trigger] segs[j]) by {
            if j < segs.len() - 1 {
                assert(segs[j] == segs.drop_last()[j]);
            }
        }
    }
}

proof fn lemma_flatten_all_ws(segs: Seq<Seq<char>>)
    requires
        forall|j: int| 0 <= j < segs.len() ==> all_ws(#[trigger] segs[j]),
    ensures
        all_ws(segs.flatten()),
    decreases segs.len(),
{
    if segs.len() == 0 {
    } else {
        assert(all_ws(segs.first()));
        lemma_flatten_all_ws(segs.drop_first());
        let f = segs.flatten();
        assert forall|i: int| 0 <= i < f.len() implies crate::strutil::is_whitespace_char(
            f[i]) by {
            if i < segs.first().len() {
                assert(f[i] == segs.first()[i]);
            } else {
                assert(f[i] == segs.drop_first().flatten()[i - segs.first().len()]);
            }
        }
    }
}

/// Wrapping splits on codepoint boundaries and loses nothing but trailing
/// whitespace: either the line comes back whole as the single segment, or
/// the first segment is the line's original indentation whitespace followed
/// by the first run of the content, and the content is exactly the
/// segments' text followed by some all-whitespace remainder.
pub proof fn law_wrap_reconstructs(text: Seq<char>, width: nat)
    ensures
        ({
            let (ind, segs) = wrap_spec(text, width, true);
            &&& 0 <= ind <= text.len()
            &&& all_ws(text.take(ind))
            &&& segs.len() >= 1
            &&& (segs =~= seq![text] || {
                &&& segs[0].len() >= ind
                &&& segs[0].take(ind) =~= text.take(ind)
                &&& exists|rest: Seq<char>|
                    all_ws(rest) && (segs[0].skip(ind) + #[trigger] segs.skip(1).flatten())
                        + rest =~= text.skip(ind)
            })
        }),
{
    let (ind, segs) = wrap_spec(text, width, true);
    lemma_leading_ws_bounds(text);
    lemma_leading_ws_all_ws(text);
    if text.len() == 0 {
        assert(segs =~~= seq![text]);
    } else {
        let content = text.skip(leading_ws(text));
        let ew = if width >= 4 + leading_ws(text) {
            (width - 4 - leading_ws(text)) as nat
        } else {
            0 as nat
        };
        if content.len() == 0 || ew == 0 || content.len() <= ew {
            assert(segs =~~= seq![text]);
        } else {
            let raw = chunks_of(content, ew);
            let pre = prefix_first(raw, text.take(ind));
            let dropped = drop_trailing_ws(pre);
            if dropped.len() == 0 {
                assert(segs =~~= seq![text]);
            } else {
                let k = dropped.len() as int;
                lemma_drop_trailing_prefix(pre);
                lemma_drop_trailing_dropped_ws(pre);
                assert(segs =~= pre.take(k));
                assert(raw.len() == pre.len());
                assert(segs[0] == text.take(ind) + raw[0]);
                assert(segs[0].take(ind) =~= text.take(ind));
                assert(segs[0].skip(ind) =~= raw[0]);
                // The runs beyond the kept prefix are whitespace-only.
                assert(forall|j: int| k <= j < raw.len() ==> all_ws(#[trigger] raw[j])) by {
                    assert forall|j: int| k <= j < raw.len() implies all_ws(
                        #[trigger] raw[j]) by {
                        if j == 0 {
                            assert(all_ws(pre[0]));
                            assert forall|t: int| 0 <= t < raw[0].len()
                                implies crate::strutil::is_whitespace_char(raw[0][t]) by {
                                assert(pre[0][ind + t] == raw[0][t]);
                            }
                        } else {
                            assert(pre[j] == raw[j]);
                        }
                    }
                }
                lemma_chunks_flatten(content, ew);
                // content == flatten(raw.take(k)) + flatten(raw.skip(k))
                assert(raw =~= raw.take(k) + raw.skip(k));
                lemma_flatten_concat(raw.take(k), raw.skip(k));
                let rest = raw.skip(k).flatten();
                assert forall|j: int| 0 <= j < raw.skip(k).len() implies all_ws(
                    #[trigger] raw.skip(k)[j]) by {
                    assert(raw.skip(k)[j] == raw[k + j]);
                }
                lemma_flatten_all_ws(raw.skip(k));
                // flatten(raw.take(k)) == raw[0] + flatten(raw.subrange(1, k))
                assert(raw.take(k) =~= seq![raw[0]] + raw.subrange(1, k));
                lemma_flatten_concat(seq![raw[0]], raw.subrange(1, k));
                seq![raw[0]].lemma_flatten_one_element();
                assert(seq![raw[0]].flatten() =~= raw[0]);
                assert(segs.skip(1) =~= raw.subrange(1, k));
                assert((segs[0].skip(ind) + segs.skip(1).flatten()) + rest =~= text.skip(
                    ind));
            }
        }
    }
}

proof fn lemma_leading_ws_all_ws(s: Seq<char>)
    ensures
        all_ws(s.take(leading_ws(s))),
    decreases s.len(),
{
    lemma_leading_ws_bounds(s);
    if s.len() > 0 && crate::strutil::is_whitespace_char(s[0]) {
        lemma_leading_ws_all_ws(s.drop_first());
        let n = leading_ws(s);
        lemma_leading_ws_bounds(s.drop_first());
        assert forall|i: int| 0 <= i < n implies crate::strutil::is_whitespace_char(
            s.take(n)[i]) by {
            if i > 0 {
                assert(s.take(n)[i] == s.drop_first().take(n - 1)[i - 1]);
            }
        }
    }
}

/// What the raw accumulator holds after one more line: the buffer's text
/// and whether any line has been added yet.
pub open spec fn raw_after(st: (Seq<char>, bool), line: Seq<char>) -> (Seq<char>, bool) {
    if st.1 {
        (st.0 + seq!['\n'] + line, true)
    } else {
        (line, true)
    }
}

/// The newline-joined concatenation of a sequence of lines.
pub open spec fn join_lines(ls: Seq<Seq<char>>) -> Seq<char>
    decreases ls.len(),
{
    if ls.len() == 0 {
        Seq::empty()
    } else if ls.len() == 1 {
        ls[0]
    } else {
        join_lines(ls.drop_last()) + seq!['\n'] + ls.last()
    }
}

/// Folding lines into the raw accumulator, starting empty.
pub open spec fn raw_fold(ls: Seq<Seq<char>>) -> (Seq<char>, bool)
    decreases ls.len(),
{
    if ls.len() == 0 {
        (Seq::empty(), false)
    } else {
        raw_after(raw_fold(ls.drop_last()), ls.last())
    }
}

/// Accumulating raw lines one by one yields their newline-joined
/// concatenation in original order — independent of any highlighting or
/// wrapping, which never touch the accumulator.
pub proof fn law_raw_accumulation(ls: Seq<Seq<char>>)
    ensures
        raw_fold(ls).0 == join_lines(ls),
        raw_fold(ls).1 == (ls.len() > 0),
    decreases ls.len(),
{
    if ls.len() == 0 {
    } else {
        law_raw_accumulation(ls.drop_last());
    }
}

} // verus!

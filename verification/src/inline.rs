//! Inline emphasis resolution for text lines.
//!
//! A text line is split into literal runs and emphasis spans delimited by
//! `*` markers.  Resolution is a fold over the line's bytes: a first marker
//! opens a span, the matching marker closes it, and a span still open when
//! the line ends is flushed as literal text — marker included — never
//! dropped and never left pending.

use vstd::prelude::*;

verus! {

/// A resolved piece of a text line, at the specification level.
pub enum SpecSeg {
    /// A literal run.
    Text { bytes: Seq<u8> },
    /// An emphasis span, without its delimiters.
    Emph { bytes: Seq<u8> },
}

/// A resolved piece of a text line.
#[derive(Debug, PartialEq, Eq)]
pub enum InlineSeg {
    /// A literal run.
    Text { bytes: Vec<u8> },
    /// An emphasis span, without its delimiters.
    Emph { bytes: Vec<u8> },
}

impl View for InlineSeg {
    type V = SpecSeg;

    open spec fn view(&self) -> SpecSeg {
        match self {
            InlineSeg::Text { bytes } => SpecSeg::Text { bytes: bytes@ },
            InlineSeg::Emph { bytes } => SpecSeg::Emph { bytes: bytes@ },
        }
    }
}

/// The emphasis marker.
pub open spec fn marker() -> u8 {
    42
}

/// A literal run as a segment list: the empty run contributes nothing.
pub open spec fn text_seg(s: Seq<u8>) -> Seq<SpecSeg> {
    if s.len() == 0 {
        Seq::empty()
    } else {
        seq![SpecSeg::Text { bytes: s }]
    }
}

/// One byte of inline resolution: the segments emitted so far, the current
/// run, and whether an emphasis span is open.
pub open spec fn inline_step(st: (Seq<SpecSeg>, Seq<u8>, bool), b: u8) -> (
    Seq<SpecSeg>,
    Seq<u8>,
    bool,
) {
    if b == marker() {
        if !st.2 {
            (st.0 + text_seg(st.1), Seq::empty(), true)
        } else {
            (st.0 + seq![SpecSeg::Emph { bytes: st.1 }], Seq::empty(), false)
        }
    } else {
        (st.0, st.1.push(b), st.2)
    }
}

/// Inline resolution folded over a line's bytes.
pub open spec fn inline_run(st: (Seq<SpecSeg>, Seq<u8>, bool), bytes: Seq<u8>) -> (
    Seq<SpecSeg>,
    Seq<u8>,
    bool,
)
    decreases bytes.len(),
{
    if bytes.len() == 0 {
        st
    } else {
        inline_run(inline_step(st, bytes[0]), bytes.drop_first())
    }
}

/// End of line: a still-open span is flushed as literal text, marker
/// included.
pub open spec fn inline_finish(st: (Seq<SpecSeg>, Seq<u8>, bool)) -> Seq<SpecSeg> {
    if st.2 {
        st.0 + text_seg(seq![marker()] + st.1)
    } else {
        st.0 + text_seg(st.1)
    }
}

/// The resolved segments of one text line.
pub open spec fn resolve_inline_spec(line: Seq<u8>) -> Seq<SpecSeg> {
    inline_finish(inline_run((Seq::empty(), Seq::empty(), false), line))
}

/// The bytes a segment stands for in the original line.
pub open spec fn seg_bytes(g: SpecSeg) -> Seq<u8> {
    match g {
        SpecSeg::Text { bytes } => bytes,
        SpecSeg::Emph { bytes } => seq![marker()] + bytes + seq![marker()],
    }
}

/// The original bytes of a segment list.
pub open spec fn reconstruct(segs: Seq<SpecSeg>) -> Seq<u8>
    decreases segs.len(),
{
    if segs.len() == 0 {
        Seq::empty()
    } else {
        seg_bytes(segs[0]) + reconstruct(segs.drop_first())
    }
}

proof fn lemma_reconstruct_concat(a: Seq<SpecSeg>, b: Seq<SpecSeg>)
    ensures
        reconstruct(a + b) == reconstruct(a) + reconstruct(b),
    decreases a.len(),
{
    if a.len() == 0 {
        assert(a + b =~= b);
        assert(reconstruct(a) + reconstruct(b) =~= reconstruct(b));
    } else {
        assert((a + b).drop_first() =~= a.drop_first() + b);
        lemma_reconstruct_concat(a.drop_first(), b);
        assert(reconstruct(a + b) =~= reconstruct(a) + reconstruct(b));
    }
}

/// The bytes a resolution state stands for.
pub open spec fn state_bytes(st: (Seq<SpecSeg>, Seq<u8>, bool)) -> Seq<u8> {
    reconstruct(st.0) + (if st.2 {
        seq![marker()] + st.1
    } else {
        st.1
    })
}

proof fn lemma_text_seg_reconstruct(s: Seq<u8>)
    ensures
        reconstruct(text_seg(s)) == s,
{
    assert(reconstruct(Seq::<SpecSeg>::empty()) =~= Seq::<u8>::empty());
    if s.len() == 0 {
        assert(reconstruct(text_seg(s)) =~= s);
    } else {
        assert(text_seg(s)[0] == (SpecSeg::Text { bytes: s }));
        assert(text_seg(s).drop_first() =~= Seq::<SpecSeg>::empty());
        assert(reconstruct(text_seg(s)) =~= s);
    }
}

proof fn lemma_inline_step_bytes(st: (Seq<SpecSeg>, Seq<u8>, bool), b: u8)
    ensures
        state_bytes(inline_step(st, b)) == state_bytes(st).push(b),
{
    let st1 = inline_step(st, b);
    if b == marker() {
        if !st.2 {
            lemma_reconstruct_concat(st.0, text_seg(st.1));
            lemma_text_seg_reconstruct(st.1);
            assert(state_bytes(st1) =~= state_bytes(st).push(b));
        } else {
            lemma_reconstruct_concat(st.0, seq![SpecSeg::Emph { bytes: st.1 }]);
            assert(reconstruct(Seq::<SpecSeg>::empty()) =~= Seq::<u8>::empty());
            assert(seq![SpecSeg::Emph { bytes: st.1 }][0] == (SpecSeg::Emph { bytes: st.1 }));
            assert(seq![SpecSeg::Emph { bytes: st.1 }].drop_first()
                =~= Seq::<SpecSeg>::empty());
            assert(reconstruct(seq![SpecSeg::Emph { bytes: st.1 }]) =~= seq![marker()] + st.1
                + seq![marker()]);
            assert(state_bytes(st1) =~= state_bytes(st).push(b));
        }
    } else {
        assert(state_bytes(st1) =~= state_bytes(st).push(b));
    }
}

proof fn lemma_inline_run_bytes(st: (Seq<SpecSeg>, Seq<u8>, bool), bytes: Seq<u8>)
    ensures
        state_bytes(inline_run(st, bytes)) == state_bytes(st) + bytes,
    decreases bytes.len(),
{
    if bytes.len() == 0 {
        assert(state_bytes(st) + bytes =~= state_bytes(st));
    } else {
        lemma_inline_step_bytes(st, bytes[0]);
        lemma_inline_run_bytes(inline_step(st, bytes[0]), bytes.drop_first());
        assert(state_bytes(st).push(bytes[0]) + bytes.drop_first() =~= state_bytes(st)
            + bytes);
    }
}

/// Nothing is dropped and nothing stays pending: the resolved segments of a
/// line spell the line itself, an unterminated emphasis marker standing as
/// literal text.
pub proof fn law_inline_reconstructs(line: Seq<u8>)
    ensures
        reconstruct(resolve_inline_spec(line)) == line,
{
    let st0 = (Seq::<SpecSeg>::empty(), Seq::<u8>::empty(), false);
    lemma_inline_run_bytes(st0, line);
    let st = inline_run(st0, line);
    assert(state_bytes(st0) =~= Seq::<u8>::empty());
    assert(state_bytes(st0) + line =~= line);
    if st.2 {
        lemma_reconstruct_concat(st.0, text_seg(seq![marker()] + st.1));
        lemma_text_seg_reconstruct(seq![marker()] + st.1);
    } else {
        lemma_reconstruct_concat(st.0, text_seg(st.1));
        lemma_text_seg_reconstruct(st.1);
    }
}

/// Resolve one text line into literal runs and emphasis spans.
///
/// A span still open at the end of the line is flushed as literal text,
/// marker included.
pub fn resolve_inline(line: &[u8]) -> (r: Vec<InlineSeg>)
    ensures
        r@.map_values(|g: InlineSeg| g@) == resolve_inline_spec(line@),
{
    let ghost st0 = (Seq::<SpecSeg>::empty(), Seq::<u8>::empty(), false);
    let mut segs: Vec<InlineSeg> = Vec::new();
    let mut cur: Vec<u8> = Vec::new();
    let mut open = false;
    let n = line.len();
    let mut i: usize = 0;
    proof {
        assert(line@.take(0) =~= Seq::<u8>::empty());
        assert(segs@.map_values(|g: InlineSeg| g@) =~= Seq::<SpecSeg>::empty());
    }
    while i < n
        invariant
            n == line@.len(),
            i <= n,
            ({
                let st = inline_run(st0, line@.take(i as int));
                &&& segs@.map_values(|g: InlineSeg| g@) == st.0
                &&& cur@ == st.1
                &&& open == st.2
            }),
        decreases n - i,
    {
        let x = line[i];
        let ghost pre = segs@.map_values(|g: InlineSeg| g@);
        proof {
            assert(line@.take(i as int).push(x) =~= line@.take(i + 1));
            lemma_inline_run_snoc(st0, line@.take(i as int), x);
        }
        if x == 42 {
            let mut run: Vec<u8> = Vec::new();
            core::mem::swap(&mut run, &mut cur);
            let ghost rv = run@;
            if !open {
                if run.len() > 0 {
                    segs.push(InlineSeg::Text { bytes: run });
                    proof {
                        assert(segs@.map_values(|g: InlineSeg| g@) =~= pre.push(
                            SpecSeg::Text { bytes: rv }));
                        assert(pre.push(SpecSeg::Text { bytes: rv }) =~= pre + text_seg(rv));
                    }
                } else {
                    proof {
                        assert(pre + text_seg(rv) =~= pre);
                    }
                }
                open = true;
            } else {
                segs.push(InlineSeg::Emph { bytes: run });
                proof {
                    assert(segs@.map_values(|g: InlineSeg| g@) =~= pre.push(
                        SpecSeg::Emph { bytes: rv }));
                    assert(pre.push(SpecSeg::Emph { bytes: rv }) =~= pre + seq![
                        SpecSeg::Emph { bytes: rv },
                    ]);
                }
                open = false;
            }
        } else {
            cur.push(x);
        }
        i = i + 1;
    }
    proof {
        assert(line@.take(n as int) =~= line@);
    }
    let ghost fin = segs@.map_values(|g: InlineSeg| g@);
    if open {
        let mut flushed: Vec<u8> = Vec::new();
        flushed.push(42);
        let mut run: Vec<u8> = Vec::new();
        core::mem::swap(&mut run, &mut cur);
        flushed.append(&mut run);
        proof {
            assert(flushed@ =~= seq![marker()] + inline_run(st0, line@).1);
        }
        let ghost fv = flushed@;
        segs.push(InlineSeg::Text { bytes: flushed });
        proof {
            assert(segs@.map_values(|g: InlineSeg| g@) =~= fin.push(
                SpecSeg::Text { bytes: fv }));
            assert(fin.push(SpecSeg::Text { bytes: fv }) =~= resolve_inline_spec(line@));
        }
    } else {
        if cur.len() > 0 {
            let mut run: Vec<u8> = Vec::new();
            core::mem::swap(&mut run, &mut cur);
            let ghost rv = run@;
            segs.push(InlineSeg::Text { bytes: run });
            proof {
                assert(segs@.map_values(|g: InlineSeg| g@) =~= fin.push(
                    SpecSeg::Text { bytes: rv }));
                assert(fin.push(SpecSeg::Text { bytes: rv }) =~= resolve_inline_spec(line@));
            }
        } else {
            proof {
                assert(fin =~= resolve_inline_spec(line@));
            }
        }
    }
    segs
}

proof fn lemma_inline_run_snoc(st: (Seq<SpecSeg>, Seq<u8>, bool), bytes: Seq<u8>, x: u8)
    ensures
        inline_run(st, bytes.push(x)) == inline_step(inline_run(st, bytes), x),
    decreases bytes.len(),
{
    reveal_with_fuel(inline_run, 3);
    if bytes.len() == 0 {
        assert(bytes.push(x).drop_first() =~= Seq::<u8>::empty());
        assert(bytes.push(x)[0] == x);
    } else {
        assert(bytes.push(x)[0] == bytes[0]);
        assert(bytes.push(x).drop_first() =~= bytes.drop_first().push(x));
        lemma_inline_run_snoc(inline_step(st, bytes[0]), bytes.drop_first(), x);
    }
}

} // verus!

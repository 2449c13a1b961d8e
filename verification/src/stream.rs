//! The streaming parse state machine.
//!
//! Text arrives in chunks of arbitrary size, split at arbitrary byte offsets
//! — possibly inside a multi-byte codepoint or a markdown construct.  The
//! machine appends each chunk to a tail buffer and commits a line as soon as
//! its terminator is seen; the incomplete trailing line (and with it any
//! incomplete trailing codepoint) is held back until it completes or the
//! stream is finished.  Feeding is a pure fold over bytes, so splitting the
//! input differently can never change what is emitted.
//!
//! An open fenced code block consumes every line verbatim until a closing
//! fence of the same character class, at least the opening length, at the
//! same or lesser indent; fences of the other class, or shorter runs, are
//! inert inside the block.

use vstd::prelude::*;

verus! {

/// The fence character classes.
#[derive(Clone, Copy, PartialEq, Eq, Structural, Debug)]
pub enum FenceKind {
    Backtick,
    Tilde,
}

/// The byte a fence of the given class is drawn with.
pub open spec fn fence_byte(k: FenceKind) -> u8 {
    match k {
        FenceKind::Backtick => 96,
        FenceKind::Tilde => 126,
    }
}

/// The open-block context carried between lines.
#[derive(Clone, Copy, PartialEq, Eq, Structural, Debug)]
pub enum Block {
    /// No block that consumes lines verbatim is open.
    Top,
    /// An open fenced code block: closing requires the same fence class, at
    /// least this length, at the same or lesser indent.
    Fenced { kind: FenceKind, fence_len: usize, indent: usize },
}

/// What became renderable: the specification-level event.
pub enum SpecEvent {
    /// A fence opened a code block; the info string's first word names the
    /// language.
    CodeOpen { kind: FenceKind, fence_len: int, indent: int, language: Seq<u8> },
    /// One verbatim line inside the open code block.
    CodeLine { bytes: Seq<u8> },
    /// The open code block closed.
    CodeClose,
    /// A heading line: its level and its text.
    Heading { level: int, text: Seq<u8> },
    /// A blank line: a paragraph separator.
    Blank,
    /// A block-quoted line: how many quote markers prefixed it, and the text
    /// they wrapped.
    Quote { depth: int, bytes: Seq<u8> },
    /// One line outside any code block, ready for inline rendering.
    TextLine { bytes: Seq<u8> },
}

/// What became renderable after a feed: one committed unit of output.
#[derive(Debug, PartialEq, Eq)]
pub enum Event {
    /// A fence opened a code block.
    CodeOpen { kind: FenceKind, fence_len: usize, indent: usize, language: Vec<u8> },
    /// One verbatim line inside the open code block.
    CodeLine { bytes: Vec<u8> },
    /// The open code block closed.
    CodeClose,
    /// A heading line: its level and its text.
    Heading { level: usize, text: Vec<u8> },
    /// A blank line: a paragraph separator.
    Blank,
    /// A block-quoted line: how many quote markers prefixed it, and the text
    /// they wrapped.
    Quote { depth: usize, bytes: Vec<u8> },
    /// One line outside any code block.
    TextLine { bytes: Vec<u8> },
}

impl View for Event {
    type V = SpecEvent;

    open spec fn view(&self) -> SpecEvent {
        match self {
            Event::CodeOpen { kind, fence_len, indent, language } => SpecEvent::CodeOpen {
                kind: *kind,
                fence_len: *fence_len as int,
                indent: *indent as int,
                language: language@,
            },
            Event::CodeLine { bytes } => SpecEvent::CodeLine { bytes: bytes@ },
            Event::CodeClose => SpecEvent::CodeClose,
            Event::Heading { level, text } => SpecEvent::Heading {
                level: *level as int,
                text: text@,
            },
            Event::Blank => SpecEvent::Blank,
            Event::Quote { depth, bytes } => SpecEvent::Quote {
                depth: *depth as int,
                bytes: bytes@,
            },
            Event::TextLine { bytes } => SpecEvent::TextLine { bytes: bytes@ },
        }
    }
}

/// Length of the leading run of bytes equal to `b`.
pub open spec fn leading_run(s: Seq<u8>, b: u8) -> int
    decreases s.len(),
{
    if s.len() > 0 && s[0] == b {
        1 + leading_run(s.drop_first(), b)
    } else {
        0
    }
}

/// Length of the leading run of bytes different from `b`.
pub open spec fn leading_run_neq(s: Seq<u8>, b: u8) -> int
    decreases s.len(),
{
    if s.len() > 0 && s[0] != b {
        1 + leading_run_neq(s.drop_first(), b)
    } else {
        0
    }
}

/// Every byte is a space.
pub open spec fn all_spaces(s: Seq<u8>) -> bool {
    forall|i: int| 0 <= i < s.len() ==> s[i] == 32u8
}

/// A fence opener: optional indent, then at least three identical fence
/// bytes, then the info string whose first word is the language.
pub open spec fn parse_fence_open(line: Seq<u8>) -> Option<(FenceKind, int, int, Seq<u8>)> {
    let ind = leading_run(line, 32);
    let rest = line.skip(ind);
    if rest.len() > 0 && (rest[0] == 96 || rest[0] == 126) {
        let kind = if rest[0] == 96 {
            FenceKind::Backtick
        } else {
            FenceKind::Tilde
        };
        let fl = leading_run(rest, rest[0]);
        if fl >= 3 {
            let info = rest.skip(fl);
            let li = leading_run(info, 32);
            let word = info.skip(li);
            let lang = word.take(leading_run_neq(word, 32));
            Some((kind, fl, ind, lang))
        } else {
            None
        }
    } else {
        None
    }
}

/// A heading line: up to three columns of indent, one to six marker bytes,
/// then a space or the end of the line; the text follows the markers and
/// their separating spaces.
pub open spec fn parse_heading(line: Seq<u8>) -> Option<(int, Seq<u8>)> {
    let ind = leading_run(line, 32);
    let rest = line.skip(ind);
    let lvl = leading_run(rest, 35);
    if ind <= 3 && 1 <= lvl <= 6 && (rest.len() == lvl || rest[lvl] == 32) {
        let body = rest.skip(lvl);
        let bi = leading_run(body, 32);
        Some((lvl, body.skip(bi)))
    } else {
        None
    }
}

/// The nesting depth of leading quote markers, each optionally followed by
/// one space, and the line after them.
pub open spec fn quote_depth(line: Seq<u8>) -> (int, Seq<u8>)
    decreases line.len(),
{
    if line.len() > 0 && line[0] == 62 {
        let rest = if line.len() > 1 && line[1] == 32 {
            line.skip(2)
        } else {
            line.skip(1)
        };
        let (d, r) = quote_depth(rest);
        (d + 1, r)
    } else {
        (0, line)
    }
}

/// What a line that opens no fence becomes: a heading, a blank paragraph
/// separator, a block-quoted line, or plain text for inline rendering.
pub open spec fn classify_text_spec(line: Seq<u8>) -> SpecEvent {
    match parse_heading(line) {
        Some((lvl, text)) => SpecEvent::Heading { level: lvl, text },
        None => if all_spaces(line) {
            SpecEvent::Blank
        } else if quote_depth(line).0 > 0 {
            SpecEvent::Quote { depth: quote_depth(line).0, bytes: quote_depth(line).1 }
        } else {
            SpecEvent::TextLine { bytes: line }
        },
    }
}

/// A fence closer for the open block: same class, at least the opening
/// length, at the same or lesser indent, and nothing but spaces after.
pub open spec fn is_fence_close(line: Seq<u8>, kind: FenceKind, fence_len: int, indent: int)
    -> bool {
    let ind = leading_run(line, 32);
    let rest = line.skip(ind);
    let fl = leading_run(rest, fence_byte(kind));
    ind <= indent && fl >= fence_len && all_spaces(rest.skip(fl))
}

/// What one committed line does to the open-block context, and what it
/// emits.
pub open spec fn line_step(b: Block, line: Seq<u8>) -> (Block, Seq<SpecEvent>) {
    match b {
        Block::Fenced { kind, fence_len, indent } => {
            if is_fence_close(line, kind, fence_len as int, indent as int) {
                (Block::Top, seq![SpecEvent::CodeClose])
            } else {
                (b, seq![SpecEvent::CodeLine { bytes: line }])
            }
        },
        Block::Top => {
            match parse_fence_open(line) {
                Some((kind, fl, ind, lang)) => {
                    if 0 <= fl <= usize::MAX && 0 <= ind <= usize::MAX {
                        (
                            Block::Fenced {
                                kind,
                                fence_len: fl as usize,
                                indent: ind as usize,
                            },
                            seq![
                                SpecEvent::CodeOpen {
                                    kind,
                                    fence_len: fl,
                                    indent: ind,
                                    language: lang,
                                },
                            ],
                        )
                    } else {
                        (Block::Top, seq![classify_text_spec(line)])
                    }
                },
                None => (Block::Top, seq![classify_text_spec(line)]),
            }
        },
    }
}

/// What one arriving byte does: a terminator commits the tail as a line,
/// any other byte joins the tail.
pub open spec fn byte_step(b: Block, tail: Seq<u8>, x: u8) -> (Block, Seq<u8>, Seq<SpecEvent>) {
    if x == 10 {
        let (nb, evs) = line_step(b, tail);
        (nb, Seq::empty(), evs)
    } else {
        (b, tail.push(x), Seq::empty())
    }
}

/// Feeding a chunk is a fold of `byte_step` over its bytes.
pub open spec fn run_bytes(b: Block, tail: Seq<u8>, bytes: Seq<u8>) -> (
    Block,
    Seq<u8>,
    Seq<SpecEvent>,
)
    decreases bytes.len(),
{
    if bytes.len() == 0 {
        (b, tail, Seq::empty())
    } else {
        let (b1, t1, e1) = byte_step(b, tail, bytes[0]);
        let (b2, t2, e2) = run_bytes(b1, t1, bytes.drop_first());
        (b2, t2, e1 + e2)
    }
}

/// What finishing the stream emits: the held-back tail becomes a final line,
/// and a still-open fence is closed — never dropped.
pub open spec fn finish_spec(b: Block, tail: Seq<u8>) -> Seq<SpecEvent> {
    let (b1, e1) = if tail.len() > 0 {
        line_step(b, tail)
    } else {
        (b, Seq::<SpecEvent>::empty())
    };
    if b1 is Fenced {
        e1 + seq![SpecEvent::CodeClose]
    } else {
        e1
    }
}

/// Feeding a stream in two chunks, split anywhere — even inside a multi-byte
/// codepoint — reaches the same state and emits the same events as feeding
/// it whole.
pub proof fn law_chunk_invariance(b: Block, tail: Seq<u8>, x: Seq<u8>, y: Seq<u8>)
    ensures
        ({
            let (b2, t2, e2) = run_bytes(b, tail, x + y);
            let (ba, ta, ea) = run_bytes(b, tail, x);
            let (bb, tb, eb) = run_bytes(ba, ta, y);
            b2 == bb && t2 == tb && e2 == ea + eb
        }),
    decreases x.len(),
{
    if x.len() == 0 {
        assert(x + y =~= y);
        let (ba, ta, ea) = run_bytes(b, tail, x);
        let (bb, tb, eb) = run_bytes(ba, ta, y);
        assert(ea + eb =~= eb);
    } else {
        assert((x + y).drop_first() =~= x.drop_first() + y);
        let (b1, t1, e1) = byte_step(b, tail, x[0]);
        law_chunk_invariance(b1, t1, x.drop_first(), y);
        let (ba, ta, ea) = run_bytes(b, tail, x);
        let (bb, tb, eb) = run_bytes(ba, ta, y);
        let (b2, t2, e2) = run_bytes(b, tail, x + y);
        assert(e2 =~= ea + eb);
    }
}

/// The full round including the final flush is split-invariant too: feeding
/// two chunks and finishing emits exactly what feeding the whole input and
/// finishing does.
pub proof fn law_chunk_invariance_finished(b: Block, tail: Seq<u8>, x: Seq<u8>, y: Seq<u8>)
    ensures
        ({
            let (b2, t2, e2) = run_bytes(b, tail, x + y);
            let (ba, ta, ea) = run_bytes(b, tail, x);
            let (bb, tb, eb) = run_bytes(ba, ta, y);
            e2 + finish_spec(b2, t2) == (ea + eb) + finish_spec(bb, tb)
        }),
{
    law_chunk_invariance(b, tail, x, y);
}

/// The streaming parse state: the open-block context and the held-back tail
/// of the cumulative input.  The only state carried between calls.
pub struct ParseState {
    /// The open-block context.
    pub block: Block,
    /// Unconsumed bytes: a partial line, possibly ending in a partial
    /// multi-byte codepoint.
    pub tail: Vec<u8>,
}

proof fn lemma_leading_run_props(s: Seq<u8>, b: u8)
    ensures
        0 <= leading_run(s, b) <= s.len(),
        forall|j: int| 0 <= j < leading_run(s, b) ==> s[j] == b,
        leading_run(s, b) < s.len() ==> s[leading_run(s, b)] != b,
    decreases s.len(),
{
    if s.len() > 0 && s[0] == b {
        lemma_leading_run_props(s.drop_first(), b);
        assert forall|j: int| 0 <= j < leading_run(s, b) implies s[j] == b by {
            if j > 0 {
                assert(s[j] == s.drop_first()[j - 1]);
            }
        }
    }
}

proof fn lemma_leading_run_neq_props(s: Seq<u8>, b: u8)
    ensures
        0 <= leading_run_neq(s, b) <= s.len(),
        forall|j: int| 0 <= j < leading_run_neq(s, b) ==> s[j] != b,
        leading_run_neq(s, b) < s.len() ==> s[leading_run_neq(s, b)] == b,
    decreases s.len(),
{
    if s.len() > 0 && s[0] != b {
        lemma_leading_run_neq_props(s.drop_first(), b);
        assert forall|j: int| 0 <= j < leading_run_neq(s, b) implies s[j] != b by {
            if j > 0 {
                assert(s[j] == s.drop_first()[j - 1]);
            }
        }
    }
}

proof fn lemma_leading_run_at(s: Seq<u8>, b: u8, i: int)
    requires
        0 <= i <= s.len(),
        forall|j: int| 0 <= j < i ==> s[j] == b,
        i < s.len() ==> s[i] != b,
    ensures
        leading_run(s, b) == i,
    decreases i,
{
    if i > 0 {
        lemma_leading_run_at(s.drop_first(), b, i - 1);
    }
}

proof fn lemma_leading_run_neq_at(s: Seq<u8>, b: u8, i: int)
    requires
        0 <= i <= s.len(),
        forall|j: int| 0 <= j < i ==> s[j] != b,
        i < s.len() ==> s[i] == b,
    ensures
        leading_run_neq(s, b) == i,
    decreases i,
{
    if i > 0 {
        lemma_leading_run_neq_at(s.drop_first(), b, i - 1);
    }
}

/// Count the leading run of bytes equal to `b`, from `from` on.
fn count_run(s: &[u8], from: usize, b: u8) -> (r: usize)
    requires
        from <= s@.len(),
    ensures
        r == leading_run(s@.skip(from as int), b),
        from + r <= s@.len(),
{
    let n = s.len();
    let mut i: usize = from;
    while i < n && s[i] == b
        invariant
            from <= i <= n,
            n == s@.len(),
            forall|j: int| from <= j < i ==> s@[j] == b,
        decreases n - i,
    {
        i = i + 1;
    }
    proof {
        let sk = s@.skip(from as int);
        assert(forall|j: int| 0 <= j < i - from ==> sk[j] == b);
        lemma_leading_run_at(sk, b, i - from);
    }
    i - from
}

/// Count the leading run of bytes different from `b`, from `from` on.
fn count_run_neq(s: &[u8], from: usize, b: u8) -> (r: usize)
    requires
        from <= s@.len(),
    ensures
        r == leading_run_neq(s@.skip(from as int), b),
        from + r <= s@.len(),
{
    let n = s.len();
    let mut i: usize = from;
    while i < n && s[i] != b
        invariant
            from <= i <= n,
            n == s@.len(),
            forall|j: int| from <= j < i ==> s@[j] != b,
        decreases n - i,
    {
        i = i + 1;
    }
    proof {
        let sk = s@.skip(from as int);
        assert(forall|j: int| 0 <= j < i - from ==> sk[j] != b);
        lemma_leading_run_neq_at(sk, b, i - from);
    }
    i - from
}

/// Copy `s[from..to]` into a fresh vector.
fn copy_range(s: &[u8], from: usize, to: usize) -> (r: Vec<u8>)
    requires
        from <= to <= s@.len(),
    ensures
        r@ == s@.subrange(from as int, to as int),
{
    let mut v: Vec<u8> = Vec::new();
    let mut i: usize = from;
    while i < to
        invariant
            from <= i <= to <= s@.len(),
            v@ =~= s@.subrange(from as int, i as int),
        decreases to - i,
    {
        let x = s[i];
        v.push(x);
        proof {
            assert(v@ =~= s@.subrange(from as int, i + 1));
        }
        i = i + 1;
    }
    v
}

/// Dispatch one committed line against the open-block context.
#[verifier::rlimit(50)]
fn line_step_exec(b: Block, line: &[u8]) -> (r: (Block, Event))
    ensures
        ({
            let (nb, evs) = line_step(b, line@);
            &&& r.0 == nb
            &&& evs =~= seq![r.1@]
        }),
{
    match b {
        Block::Fenced { kind, fence_len, indent } => {
            let ind = count_run(line, 0, 32);
            proof {
                assert(line@.skip(0) =~= line@);
            }
            let fb: u8 = match kind {
                FenceKind::Backtick => 96,
                FenceKind::Tilde => 126,
            };
            let fl = count_run(line, ind, fb);
            let after = count_run(line, ind + fl, 32);
            let closes = ind <= indent && fl >= fence_len && ind + fl + after == line.len();
            proof {
                let rest = line@.skip(ind as int);
                let trail = rest.skip(fl as int);
                assert(trail =~= line@.skip((ind + fl) as int));
                lemma_leading_run_props(trail, 32);
                if ind + fl + after == line@.len() {
                    assert forall|j: int| 0 <= j < trail.len() implies trail[j] == 32u8 by {
                        assert(trail.len() == after);
                    }
                    assert(all_spaces(trail));
                } else {
                    assert(after < trail.len());
                    assert(trail[after as int] != 32u8);
                    assert(!all_spaces(trail));
                }
            }
            if closes {
                (Block::Top, Event::CodeClose)
            } else {
                (b, Event::CodeLine { bytes: copy_range(line, 0, line.len()) })
            }
        },
        Block::Top => {
            let ind = count_run(line, 0, 32);
            proof {
                assert(line@.skip(0) =~= line@);
            }
            let n = line.len();
            if ind < n && (line[ind] == 96 || line[ind] == 126) {
                let c = line[ind];
                let fl = count_run(line, ind, c);
                proof {
                    assert(line@.skip(ind as int)[0] == c);
                }
                if fl >= 3 {
                    let li = count_run(line, ind + fl, 32);
                    let wl = count_run_neq(line, ind + fl + li, 32);
                    let lang = copy_range(line, ind + fl + li, ind + fl + li + wl);
                    let kind = if c == 96 {
                        FenceKind::Backtick
                    } else {
                        FenceKind::Tilde
                    };
                    proof {
                        let rest = line@.skip(ind as int);
                        let info = rest.skip(fl as int);
                        assert(info =~= line@.skip((ind + fl) as int));
                        let word = info.skip(li as int);
                        assert(word =~= line@.skip((ind + fl + li) as int));
                        assert(word.take(wl as int) =~= line@.subrange((ind + fl + li) as int,
                            (ind + fl + li + wl) as int));
                    }
                    (
                        Block::Fenced { kind, fence_len: fl, indent: ind },
                        Event::CodeOpen { kind, fence_len: fl, indent: ind, language: lang },
                    )
                } else {
                    (b, classify_text(line))
                }
            } else {
                (b, classify_text(line))
            }
        },
    }
}

/// Classify a line that opens no fence: heading, blank, or plain text.
fn classify_text(line: &[u8]) -> (e: Event)
    ensures
        e@ == classify_text_spec(line@),
{
    let n = line.len();
    let ind = count_run(line, 0, 32);
    proof {
        assert(line@.skip(0) =~= line@);
    }
    let lvl = count_run(line, ind, 35);
    let heading = ind <= 3 && 1 <= lvl && lvl <= 6 && (ind + lvl == n || line[ind + lvl] == 32);
    proof {
        let rest = line@.skip(ind as int);
        assert(rest.len() == n - ind);
        if ind + lvl < n {
            assert(rest[lvl as int] == line@[(ind + lvl) as int]);
        }
    }
    if heading {
        let bi = count_run(line, ind + lvl, 32);
        let text = copy_range(line, ind + lvl + bi, n);
        proof {
            let rest = line@.skip(ind as int);
            let body = rest.skip(lvl as int);
            assert(body =~= line@.skip((ind + lvl) as int));
            assert(body.skip(bi as int) =~= line@.subrange((ind + lvl + bi) as int, n as int));
        }
        Event::Heading { level: lvl, text }
    } else if ind == n {
        proof {
            lemma_leading_run_props(line@, 32);
            assert(all_spaces(line@));
        }
        Event::Blank
    } else {
        proof {
            lemma_leading_run_props(line@, 32);
            assert(line@[ind as int] != 32u8);
            assert(!all_spaces(line@));
        }
        let mut depth: usize = 0;
        let mut at: usize = 0;
        proof {
            assert(line@.skip(0) =~= line@);
        }
        while at < n && line[at] == 62
            invariant
                n == line@.len(),
                at <= n,
                depth <= at,
                quote_depth(line@).0 == depth + quote_depth(line@.skip(at as int)).0,
                quote_depth(line@).1 == quote_depth(line@.skip(at as int)).1,
            decreases n - at,
        {
            let ghost here = line@.skip(at as int);
            let step = if at + 1 < n && line[at + 1] == 32 {
                2
            } else {
                1
            };
            proof {
                assert(here[0] == 62);
                if at + 1 < n && line@[at + 1] == 32 {
                    assert(here.len() > 1 && here[1] == 32);
                    assert(here.skip(2) =~= line@.skip(at + 2));
                } else {
                    assert(!(here.len() > 1 && here[1] == 32));
                    assert(here.skip(1) =~= line@.skip(at + 1));
                }
            }
            depth = depth + 1;
            at = at + step;
        }
        proof {
            let tail_part = line@.skip(at as int);
            if at < n {
                assert(tail_part[0] == line@[at as int]);
                assert(tail_part[0] != 62);
            }
            assert(quote_depth(tail_part).0 == 0 && quote_depth(tail_part).1 == tail_part);
        }
        if depth > 0 {
            Event::Quote { depth, bytes: copy_range(line, at, n) }
        } else {
            Event::TextLine { bytes: copy_range(line, 0, n) }
        }
    }
}

impl ParseState {
    /// A fresh stream: nothing open, nothing held back.
    pub fn new() -> (r: Self)
        ensures
            r.block == Block::Top,
            r.tail@ == Seq::<u8>::empty(),
    {
        ParseState { block: Block::Top, tail: Vec::new() }
    }

    /// Consume one chunk of the stream, of arbitrary size and split point,
    /// and emit everything that became renderable: a fold of the byte-level
    /// step over the chunk.
    pub fn feed(&mut self, chunk: &[u8]) -> (r: Vec<Event>)
        ensures
            ({
                let (nb, nt, evs) = run_bytes(old(self).block, old(self).tail@, chunk@);
                &&& final(self).block == nb
                &&& final(self).tail@ == nt
                &&& r@.map_values(|e: Event| e@) == evs
            }),
    {
        let ghost b0 = self.block;
        let ghost t0 = self.tail@;
        let mut out: Vec<Event> = Vec::new();
        let n = chunk.len();
        let mut i: usize = 0;
        proof {
            assert(chunk@.take(0) =~= Seq::<u8>::empty());
            assert(out@.map_values(|e: Event| e@) =~= Seq::<SpecEvent>::empty());
        }
        while i < n
            invariant
                n == chunk@.len(),
                i <= n,
                ({
                    let (nb, nt, evs) = run_bytes(b0, t0, chunk@.take(i as int));
                    &&& self.block == nb
                    &&& self.tail@ == nt
                    &&& out@.map_values(|e: Event| e@) == evs
                }),
            decreases n - i,
        {
            let x = chunk[i];
            let ghost evs0 = out@.map_values(|e: Event| e@);
            proof {
                assert(chunk@.take(i as int).push(x) =~= chunk@.take(i + 1));
                lemma_run_bytes_snoc(b0, t0, chunk@.take(i as int), x);
            }
            if x == 10 {
                let mut line: Vec<u8> = Vec::new();
                core::mem::swap(&mut line, &mut self.tail);
                let (nb, e) = line_step_exec(self.block, line.as_slice());
                self.block = nb;
                let ghost ev_view = e@;
                let ghost prev = out@;
                out.push(e);
                proof {
                    assert(out@.map_values(|e: Event| e@) =~= evs0.push(ev_view));
                    assert(evs0.push(ev_view) =~= evs0 + seq![ev_view]);
                    assert(out@.map_values(|e: Event| e@) =~= run_bytes(b0, t0, chunk@.take(
                        i + 1)).2);
                }
            } else {
                self.tail.push(x);
                proof {
                    assert(evs0 + Seq::<SpecEvent>::empty() =~= evs0);
                    assert(out@.map_values(|e: Event| e@) =~= run_bytes(b0, t0, chunk@.take(
                        i + 1)).2);
                }
            }
            i = i + 1;
        }
        proof {
            assert(chunk@.take(n as int) =~= chunk@);
        }
        out
    }

    /// End the stream: the held-back tail is committed as a final line, and
    /// an unterminated fence is closed rather than dropped.  After this the
    /// state is fresh again.
    pub fn finish(&mut self) -> (r: Vec<Event>)
        ensures
            final(self).block == Block::Top,
            final(self).tail@ == Seq::<u8>::empty(),
            r@.map_values(|e: Event| e@) == finish_spec(old(self).block, old(self).tail@),
    {
        let mut out: Vec<Event> = Vec::new();
        if self.tail.len() > 0 {
            let mut line: Vec<u8> = Vec::new();
            core::mem::swap(&mut line, &mut self.tail);
            let (nb, e) = line_step_exec(self.block, line.as_slice());
            self.block = nb;
            let ghost ev_view = e@;
            out.push(e);
            proof {
                assert(out@.map_values(|ev: Event| ev@) =~= seq![ev_view]);
            }
        } else {
            proof {
                assert(out@.map_values(|ev: Event| ev@) =~= Seq::<SpecEvent>::empty());
            }
        }
        let ghost mid = out@.map_values(|ev: Event| ev@);
        if matches!(self.block, Block::Fenced { .. }) {
            out.push(Event::CodeClose);
            self.block = Block::Top;
            proof {
                assert(out@.map_values(|ev: Event| ev@) =~= mid.push(SpecEvent::CodeClose));
                assert(mid.push(SpecEvent::CodeClose) =~= mid + seq![SpecEvent::CodeClose]);
            }
        }
        proof {
            assert(out@.map_values(|ev: Event| ev@) =~= finish_spec(old(self).block,
                old(self).tail@));
        }
        out
    }
}

/// Running one more byte extends the fold.
proof fn lemma_run_bytes_snoc(b: Block, tail: Seq<u8>, bytes: Seq<u8>, x: u8)
    ensures
        ({
            let (b1, t1, e1) = run_bytes(b, tail, bytes);
            let (b2, t2, e2) = byte_step(b1, t1, x);
            let (b3, t3, e3) = run_bytes(b, tail, bytes.push(x));
            b3 == b2 && t3 == t2 && e3 == e1 + e2
        }),
{
    reveal_with_fuel(run_bytes, 3);
    law_chunk_invariance(b, tail, bytes, seq![x]);
    assert(bytes + seq![x] =~= bytes.push(x));
    let (b1, t1, e1) = run_bytes(b, tail, bytes);
    assert(seq![x].len() == 1 && seq![x][0] == x);
    assert(seq![x].drop_first() =~= Seq::<u8>::empty());
    let (b2, t2, e2) = byte_step(b1, t1, x);
    let (bb, tb, eb) = run_bytes(b1, t1, seq![x]);
    assert(run_bytes(b2, t2, Seq::<u8>::empty()).2 =~= Seq::<SpecEvent>::empty());
    assert(eb =~= e2 + Seq::<SpecEvent>::empty());
    assert(eb =~= e2);
    assert(e1 + eb =~= e1 + e2);
}

} // verus!

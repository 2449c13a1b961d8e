use streamdown::stream::{ParseState, Event, FenceKind, Block};
use streamdown::inline::{resolve_inline, InlineSeg};

fn feed_all_at_once(input: &[u8]) -> Vec<Event> {
    let mut st = ParseState::new();
    let mut evs = st.feed(input);
    evs.extend(st.finish());
    evs
}

fn feed_byte_by_byte(input: &[u8]) -> Vec<Event> {
    let mut st = ParseState::new();
    let mut evs = Vec::new();
    for b in input {
        evs.extend(st.feed(std::slice::from_ref(b)));
    }
    evs.extend(st.finish());
    evs
}

#[test]
fn test_fence_opens_and_closes() {
    let input = b"```rust\nlet x = 1;\n```\n";
    let evs = feed_all_at_once(input);
    assert_eq!(evs.len(), 3);
    assert_eq!(
        evs[0],
        Event::CodeOpen {
            kind: FenceKind::Backtick,
            fence_len: 3,
            indent: 0,
            language: b"rust".to_vec(),
        }
    );
    assert_eq!(evs[1], Event::CodeLine { bytes: b"let x = 1;".to_vec() });
    assert_eq!(evs[2], Event::CodeClose);
}

#[test]
fn test_shorter_or_other_fence_is_inert_inside_block() {
    let input = b"````\n```\n~~~~\ncode\n````\n";
    let evs = feed_all_at_once(input);
    // The inner three-backtick line and the tilde fence are raw code lines.
    assert_eq!(evs.len(), 5);
    assert_eq!(evs[1], Event::CodeLine { bytes: b"```".to_vec() });
    assert_eq!(evs[2], Event::CodeLine { bytes: b"~~~~".to_vec() });
    assert_eq!(evs[3], Event::CodeLine { bytes: b"code".to_vec() });
    assert_eq!(evs[4], Event::CodeClose);
}

#[test]
fn test_deeper_indented_fence_does_not_close() {
    let input = b"```\n   ```\n```\n";
    let evs = feed_all_at_once(input);
    // Opener has indent 0; a closer at indent 3 is raw content.
    assert_eq!(evs.len(), 3);
    assert_eq!(evs[1], Event::CodeLine { bytes: b"   ```".to_vec() });
    assert_eq!(evs[2], Event::CodeClose);
}

#[test]
fn test_unterminated_fence_closed_at_finish() {
    let input = b"~~~\nstill code";
    let evs = feed_all_at_once(input);
    assert_eq!(evs.len(), 3);
    assert_eq!(
        evs[0],
        Event::CodeOpen { kind: FenceKind::Tilde, fence_len: 3, indent: 0, language: vec![] }
    );
    assert_eq!(evs[1], Event::CodeLine { bytes: b"still code".to_vec() });
    assert_eq!(evs[2], Event::CodeClose);
}

#[test]
fn test_incomplete_line_held_back_until_terminator() {
    let mut st = ParseState::new();
    assert_eq!(st.feed(b"partial"), vec![]);
    assert_eq!(st.block, Block::Top);
    let evs = st.feed(b" line\nnext");
    assert_eq!(evs, vec![Event::TextLine { bytes: b"partial line".to_vec() }]);
    let evs = st.finish();
    assert_eq!(evs, vec![Event::TextLine { bytes: b"next".to_vec() }]);
}

#[test]
fn test_chunk_split_mid_codepoint_is_invariant() {
    // "é日本🎉" spans 1+2+3+3+4 bytes; split the whole input at every byte
    // offset, including inside the multi-byte codepoints.
    let input = "text é日本🎉 more\n```rust\ncode é\n```\nrest".as_bytes();
    let whole = feed_all_at_once(input);
    for cut in 0..=input.len() {
        let mut st = ParseState::new();
        let mut evs = st.feed(&input[..cut]);
        evs.extend(st.feed(&input[cut..]));
        evs.extend(st.finish());
        assert_eq!(evs, whole, "split at byte {} changed the output", cut);
    }
}

#[test]
fn test_extreme_fragmentation_code_block() {
    // An open fence followed by 200 code lines, fed one byte at a time,
    // renders identically to one chunk.
    let mut input = String::from("```rust\n");
    for i in 0..200 {
        input.push_str(&format!("let v{} = {};\n", i, i));
    }
    let bytes = input.as_bytes();
    let whole = feed_all_at_once(bytes);
    let fragmented = feed_byte_by_byte(bytes);
    assert_eq!(fragmented, whole);
    assert_eq!(whole.len(), 202); // open + 200 lines + close at finish
    assert_eq!(whole[201], Event::CodeClose);
}

#[test]
fn test_resolve_inline_pairs() {
    let segs = resolve_inline(b"a *b* c");
    assert_eq!(
        segs,
        vec![
            InlineSeg::Text { bytes: b"a ".to_vec() },
            InlineSeg::Emph { bytes: b"b".to_vec() },
            InlineSeg::Text { bytes: b" c".to_vec() },
        ]
    );
}

#[test]
fn test_unterminated_emphasis_flushed_as_literal() {
    // The marker survives as literal text: not dropped, not pending.
    let mut st = ParseState::new();
    assert_eq!(st.feed(b"an *unterminated emphasis"), vec![]);
    let evs = st.finish();
    assert_eq!(evs, vec![Event::TextLine { bytes: b"an *unterminated emphasis".to_vec() }]);
    let Event::TextLine { bytes } = &evs[0] else {
        panic!("expected a text line");
    };
    let segs = resolve_inline(bytes);
    assert_eq!(
        segs,
        vec![
            InlineSeg::Text { bytes: b"an ".to_vec() },
            InlineSeg::Text { bytes: b"*unterminated emphasis".to_vec() },
        ]
    );
    // Reconstructing the segments spells the original line, marker included.
    let mut rebuilt = Vec::new();
    for seg in &segs {
        match seg {
            InlineSeg::Text { bytes } => rebuilt.extend_from_slice(bytes),
            InlineSeg::Emph { bytes } => {
                rebuilt.push(b'*');
                rebuilt.extend_from_slice(bytes);
                rebuilt.push(b'*');
            }
        }
    }
    assert_eq!(rebuilt, b"an *unterminated emphasis".to_vec());
}

#[test]
fn test_heading_and_blank_lines() {
    let evs = feed_all_at_once(b"## Title text\n\n   \nplain\n#notaheading\n####### toomany\n");
    assert_eq!(evs.len(), 6);
    assert_eq!(evs[0], Event::Heading { level: 2, text: b"Title text".to_vec() });
    assert_eq!(evs[1], Event::Blank);
    assert_eq!(evs[2], Event::Blank);
    assert_eq!(evs[3], Event::TextLine { bytes: b"plain".to_vec() });
    assert_eq!(evs[4], Event::TextLine { bytes: b"#notaheading".to_vec() });
    assert_eq!(evs[5], Event::TextLine { bytes: b"####### toomany".to_vec() });
}

#[test]
fn test_blockquote_depth() {
    let evs = feed_all_at_once(b"> quoted\n> > nested\n>tight\n");
    assert_eq!(evs[0], Event::Quote { depth: 1, bytes: b"quoted".to_vec() });
    assert_eq!(evs[1], Event::Quote { depth: 2, bytes: b"nested".to_vec() });
    assert_eq!(evs[2], Event::Quote { depth: 1, bytes: b"tight".to_vec() });
}

#[test]
fn test_heading_inside_fence_is_code() {
    let evs = feed_all_at_once(b"```\n# not a heading\n```\n");
    assert_eq!(evs[1], Event::CodeLine { bytes: b"# not a heading".to_vec() });
}

#[test]
fn test_fence_language_is_first_word_of_info() {
    let evs = feed_all_at_once(b"  ```  python extra info\nx\n  ```\n");
    assert_eq!(
        evs[0],
        Event::CodeOpen {
            kind: FenceKind::Backtick,
            fence_len: 3,
            indent: 2,
            language: b"python".to_vec(),
        }
    );
    assert_eq!(evs[2], Event::CodeClose);
}

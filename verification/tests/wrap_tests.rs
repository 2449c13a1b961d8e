use streamdown::wrap::code_wrap;

#[test]
fn test_code_wrap_short_line() {
    let (indent, lines) = code_wrap("let x = 1;", 80, true);
    assert_eq!(indent, 0);
    assert_eq!(lines.len(), 1);
    assert_eq!(lines[0], "let x = 1;");
}

#[test]
fn test_code_wrap_with_indent() {
    let (indent, lines) = code_wrap("    let x = 1;", 80, true);
    assert_eq!(indent, 4);
    assert_eq!(lines.len(), 1);
}

#[test]
fn test_code_wrap_long_line_pretty_broken() {
    let long_line = "x".repeat(100);
    let (_, lines) = code_wrap(&long_line, 40, true);
    assert!(lines.len() > 1);
}

#[test]
fn test_code_wrap_long_line_no_pretty_broken() {
    let long_line = "x".repeat(100);
    let (_, lines) = code_wrap(&long_line, 40, false);
    // Should NOT wrap when pretty_broken is false
    assert_eq!(lines.len(), 1);
    assert_eq!(lines[0], long_line);
}

#[test]
fn test_code_wrap_empty() {
    let (indent, lines) = code_wrap("", 80, true);
    assert_eq!(indent, 0);
    assert_eq!(lines.len(), 1);
}

#[test]
fn test_code_wrap_multibyte_utf8_characters() {
    // '═' is 3 bytes (U+2550). Buggy byte-based slicing at position 36 would
    // land inside a character.
    let line = "//  ═══════════════════════════════════════════════════════════════════════";

    let (_, lines) = code_wrap(line, 40, true);

    assert!(lines.len() >= 1);
    for line in &lines {
        assert!(line.chars().count() > 0 || line.is_empty());
    }
}

#[test]
fn test_code_wrap_multibyte_indent_detection() {
    // '　' (fullwidth space, U+3000) is 3 bytes. Indent should be 2 chars, not 6 bytes.
    let line = "　　code";

    let (indent, _) = code_wrap(line, 80, true);

    assert_eq!(indent, 2);
}

#[test]
fn test_code_wrap_emoji_byte_boundary() {
    // 🎉 is 4 bytes. With width=20 (effective=16), buggy code slices at byte 16,
    // which is inside the 4th emoji.
    let line = "x🎉🎉🎉🎉🎉🎉🎉🎉🎉🎉🎉🎉🎉🎉🎉🎉🎉🎉🎉🎉";
    assert_eq!(line.len(), 81);
    assert_eq!(line.chars().count(), 21);

    let (indent, lines) = code_wrap(line, 20, true);

    assert_eq!(indent, 0);
    assert_eq!(lines.len(), 2);
    assert_eq!(lines[0].chars().count(), 16);
    assert_eq!(lines[1].chars().count(), 5);
}

#[test]
fn test_code_wrap_zwj_emoji() {
    // 👨‍💻 = 11 bytes, 3 code points. Byte-based slicing corrupts ZWJ sequences.
    let line = format!("// {}", "👨‍💻".repeat(10));
    assert_eq!(line.chars().count(), 33);

    let (_, lines) = code_wrap(&line, 20, true);

    assert!(lines.len() >= 2);
    for line in &lines {
        assert!(line.chars().count() > 0);
    }
}

#[test]
fn test_code_wrap_flag_emoji() {
    // 🇺🇸 = 8 bytes, 2 code points. Byte-based slicing splits regional indicators.
    let line = format!("// {}", "🇺🇸".repeat(15));
    assert_eq!(line.chars().count(), 33);
    assert_eq!(line.len(), 123);

    let (_, lines) = code_wrap(&line, 20, true);

    assert!(lines.len() >= 2);
}

#[test]
fn test_code_wrap_skin_tone_emoji() {
    // 👋🏽 = 8 bytes, 2 code points. Byte-based slicing splits base from modifier.
    let line = format!("// {}", "👋🏽".repeat(15));
    assert_eq!(line.chars().count(), 33);

    let (_, lines) = code_wrap(&line, 20, true);

    assert!(lines.len() >= 2);
}

#[test]
fn test_code_wrap_mixed_multibyte() {
    // "a═b🎉c" = 10 bytes, 5 chars. Creates tricky non-aligned byte boundaries.
    let line = "a═b🎉c".repeat(10);
    assert_eq!(line.len(), 100);
    assert_eq!(line.chars().count(), 50);

    let (_, lines) = code_wrap(&line, 20, true);

    assert!(lines.len() >= 3);
    assert_eq!(lines[0].chars().count(), 16);
}

#[test]
fn test_code_wrap_trailing_whitespace_runs_dropped() {
    // 20 'x' then 30 spaces, width 14 (effective 10): the all-space runs at
    // the end are dropped, the content runs stay.
    let line = format!("{}{}", "x".repeat(20), " ".repeat(30));
    let (indent, lines) = code_wrap(&line, 14, true);
    assert_eq!(indent, 0);
    assert_eq!(lines.len(), 2);
    assert_eq!(lines[0], "x".repeat(10));
    assert_eq!(lines[1], "x".repeat(10));
}

#[test]
fn test_code_wrap_all_whitespace_line_kept_whole() {
    let line = " ".repeat(12);
    let (indent, lines) = code_wrap(&line, 80, true);
    assert_eq!(indent, 12);
    assert_eq!(lines.len(), 1);
    assert_eq!(lines[0], line);
}

#[test]
fn test_code_wrap_zero_effective_width_returns_whole() {
    // width 4 leaves no room at all: the line comes back unmodified.
    let line = "abcdefgh";
    let (indent, lines) = code_wrap(line, 4, true);
    assert_eq!(indent, 0);
    assert_eq!(lines.len(), 1);
    assert_eq!(lines[0], line);
}

#[test]
fn test_code_wrap_first_segment_keeps_original_indent() {
    // The first segment keeps the original indentation whitespace — here a
    // tab, not a substituted space; continuation segments are not indented
    // by the wrapper.
    let line = format!("\t{}", "y".repeat(30));
    let (indent, lines) = code_wrap(&line, 20, true);
    assert_eq!(indent, 1);
    assert_eq!(lines.len(), 2);
    assert_eq!(lines[0], format!("\t{}", "y".repeat(15)));
    assert_eq!(lines[1], "y".repeat(15));
}

#[test]
fn test_code_wrap_fullwidth_indent_kept_verbatim() {
    // A fullwidth-space indent (one codepoint) survives in the first
    // segment exactly as it was written.
    let line = format!("\u{3000}{}", "y".repeat(30));
    let (indent, lines) = code_wrap(&line, 20, true);
    assert_eq!(indent, 1);
    assert_eq!(lines.len(), 2);
    assert_eq!(lines[0], format!("\u{3000}{}", "y".repeat(15)));
    assert_eq!(lines[1], "y".repeat(15));
}

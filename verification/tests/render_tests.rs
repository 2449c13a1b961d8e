use streamdown::code::{
    CodeBlockState, PlainHighlighter, RenderStyle, render_code_start, render_code_end,
    render_code_line, CODEPAD_TOP, CODEPAD_BOTTOM,
};
use streamdown::ansi::{visible, visible_width, bg_color, fg_color, reset_str};
use streamdown::width::display_width;

fn default_style() -> RenderStyle {
    RenderStyle::default()
}

#[test]
fn test_render_code_start_pretty() {
    let lines = render_code_start(Some("rust"), 80, "", &default_style(), true);
    assert!(!lines.is_empty());
    // Should have the lower-half-block border
    assert!(lines[0].contains(CODEPAD_TOP));
}

#[test]
fn test_render_code_start_not_pretty() {
    let lines = render_code_start(Some("rust"), 80, "", &default_style(), false);
    assert!(!lines.is_empty());
    // Should NOT have the block border (space-based instead)
    assert!(!lines[0].contains(CODEPAD_TOP));
}

#[test]
fn test_render_code_end_pretty() {
    let lines = render_code_end(80, "", &default_style(), true);
    assert_eq!(lines.len(), 1);
    assert!(lines[0].contains(CODEPAD_BOTTOM));
}

#[test]
fn test_render_code_end_not_pretty() {
    let lines = render_code_end(80, "", &default_style(), false);
    assert_eq!(lines.len(), 1);
    assert!(!lines[0].contains(CODEPAD_BOTTOM));
}

#[test]
fn test_code_block_state_raw_buffer() {
    let mut state = CodeBlockState::new(PlainHighlighter {});
    let style = default_style();

    state.start(Some("rust".to_string()), &style);
    state.add_raw_line("fn main() {");
    state.add_raw_line("    println!(\"Hello\");");
    state.add_raw_line("}");

    assert_eq!(state.raw_code(), "fn main() {\n    println!(\"Hello\");\n}");
}

#[test]
fn test_raw_buffer_keeps_leading_empty_line() {
    let mut state = CodeBlockState::new(PlainHighlighter {});
    let style = default_style();
    state.start(None, &style);
    state.add_raw_line("");
    state.add_raw_line("a");
    assert_eq!(state.raw_code(), "\na");
}

#[test]
fn test_code_block_cjk_language_label() {
    // Language label padding must use display width, not byte length.
    // CJK language names like "日本語" (9 bytes, 6 display width) would get
    // wrong padding from byte-based arithmetic.
    let style = RenderStyle::default();
    let lang = "日本語"; // 9 bytes, 3 chars, 6 display width
    let width = 40;

    let lines = render_code_start(Some(lang), width, "", &style, false);

    // Find the language label line (contains "[日本語]")
    let label_line = lines.iter().find(|l| l.contains(lang)).expect("Should have language label");

    // The label line should have exactly the configured display width once
    // escapes are stripped.
    let vis = visible(label_line);
    let visible_w = display_width(vis.as_str());

    assert_eq!(
        visible_w, width,
        "Language label line should be exactly {} display width, got {}: {:?}",
        width, visible_w, vis
    );
}

#[test]
fn test_render_code_start_text_sentinel_has_no_label() {
    let lines = render_code_start(Some("text"), 80, "", &default_style(), true);
    assert_eq!(lines.len(), 1);
    let lines = render_code_start(Some(""), 80, "", &default_style(), true);
    assert_eq!(lines.len(), 1);
    let lines = render_code_start(None, 80, "", &default_style(), true);
    assert_eq!(lines.len(), 1);
}

#[test]
fn test_border_rows_span_configured_width() {
    let style = default_style();
    for pretty in [true, false] {
        let start = render_code_start(None, 30, "", &style, pretty);
        assert_eq!(display_width(visible(&start[0]).as_str()), 30);
        let end = render_code_end(30, "", &style, pretty);
        assert_eq!(display_width(visible(&end[0]).as_str()), 30);
    }
}

#[test]
fn test_render_code_line_pads_to_width() {
    let style = default_style();
    let mut state = CodeBlockState::new(PlainHighlighter {});
    state.start(Some("rust".to_string()), &style);

    let rows = render_code_line("let x = 1;", &mut state, 40, "", &style, false);
    assert_eq!(rows.len(), 1);
    let vis = visible(&rows[0]);
    assert_eq!(display_width(vis.as_str()), 40);
    assert!(vis.starts_with("let x = 1;"));
}

#[test]
fn test_render_code_line_empty_line_yields_one_background_row() {
    let style = default_style();
    let mut state = CodeBlockState::new(PlainHighlighter {});
    state.start(None, &style);

    let rows = render_code_line("", &mut state, 24, "", &style, true);
    assert_eq!(rows.len(), 1);
    let vis = visible(&rows[0]);
    assert_eq!(vis, " ".repeat(24));
}

#[test]
fn test_render_code_line_wraps_and_reindents_continuations() {
    let style = default_style();
    let mut state = CodeBlockState::new(PlainHighlighter {});
    state.start(None, &style);

    let line = format!("  {}", "z".repeat(30));
    // width 20, indent 2: effective width 14.
    let rows = render_code_line(&line, &mut state, 20, "", &style, true);
    assert_eq!(rows.len(), 3);
    let first = visible(&rows[0]);
    assert_eq!(first, format!("  {}{}", "z".repeat(14), " ".repeat(4)));
    let second = visible(&rows[1]);
    assert_eq!(second, format!("  {}{}", "z".repeat(14), " ".repeat(4)));
    let third = visible(&rows[2]);
    assert_eq!(third, format!("  {}{}", "z".repeat(2), " ".repeat(16)));
}

#[test]
fn test_render_code_line_cjk_pads_by_display_width() {
    let style = default_style();
    let mut state = CodeBlockState::new(PlainHighlighter {});
    state.start(None, &style);

    // "日本" is 2 codepoints but 4 display columns.
    let rows = render_code_line("日本", &mut state, 10, "", &style, false);
    assert_eq!(rows.len(), 1);
    let vis = visible(&rows[0]);
    assert_eq!(display_width(vis.as_str()), 10);
    assert_eq!(vis, format!("日本{}", " ".repeat(6)));
}

#[test]
fn test_ansi_escape_builders_and_visible() {
    assert_eq!(reset_str(), "\u{1b}[0m");
    assert_eq!(bg_color("black"), "\u{1b}[48;2;0;0;0m");
    assert_eq!(fg_color("yellow"), "\u{1b}[38;2;237;241;113m");
    assert_eq!(fg_color("nonsense"), "");
    assert_eq!(bg_color("#0a141e"), "\u{1b}[48;2;10;20;30m");
    let row = format!("{}hi there{}", bg_color("dark_grey"), reset_str());
    assert_eq!(visible(&row), "hi there");
    assert_eq!(visible_width(&row), 8);
}

#[test]
fn test_display_width_counts_columns_not_bytes() {
    assert_eq!(display_width("abc"), 3);
    assert_eq!(display_width("日本語"), 6);
    assert_eq!(display_width(""), 0);
}

#[test]
fn test_code_block_state_start_and_end() {
    let style = default_style();
    let mut state = CodeBlockState::new(PlainHighlighter {});
    assert_eq!(state.raw_code(), "");
    state.start(Some("rust".to_string()), &style);
    assert_eq!(state.background, bg_color("dark_grey"));
    state.add_raw_line("one");
    state.end();
    assert!(state.language.is_none());
    assert_eq!(state.raw_code(), "one");
}

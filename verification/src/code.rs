//! Code block rendering.
//!
//! Renders fenced code blocks with syntax highlighting threaded through a
//! capability interface, pretty or plain borders, optional line wrapping, a
//! language label, and verbatim raw-source accumulation.
//!
//! Every padding decision is made over display columns of the visible
//! characters, so blocks keep straight edges whatever escapes a highlighter
//! inserts and however wide the glyphs are.

use vstd::prelude::*;
use crate::ansi::{
    strip_ansi, ansi_closed, esc_free, spec_bg_color, spec_fg_color, reset_seq, bg_color,
    fg_color, reset_str, lemma_neutral_append, lemma_plain_append, lemma_ansi_plain,
    visible_width,
};
use crate::width::{char_width, str_width, char_display_width, display_width,
    lemma_str_width_concat, lemma_str_width_uniform, lemma_str_width_single, saturating_add_usize};
use crate::strutil::{spaces, spaces_seq, repeat_char, repeat_seq, str_eq, push_char};
use crate::wrap::{wrap_spec, code_wrap, lemma_wrap_esc_free};

verus! {

/// The rendering configuration a caller supplies: the block background, the
/// border foreground, the accent color for labels, and the two border/wrap
/// style switches.
pub struct RenderStyle {
    /// Background color of code blocks.
    pub dark: String,
    /// Foreground color of pretty borders.
    pub grey: String,
    /// Accent color, used for the language label.
    pub symbol: String,
    /// Use block-drawing border glyphs instead of plain spaces.
    pub pretty_pad: bool,
    /// Wrap over-wide code lines instead of leaving them to the terminal.
    pub pretty_broken: bool,
}

impl Default for RenderStyle {
    /// The default style: a dark block with grey borders and yellow labels,
    /// pretty borders on, wrapping off.
    fn default() -> (r: Self)
        ensures
            r.dark@ == "dark_grey"@,
            r.grey@ == "grey"@,
            r.symbol@ == "yellow"@,
            r.pretty_pad,
            !r.pretty_broken,
    {
        RenderStyle {
            dark: String::from_str("dark_grey"),
            grey: String::from_str("grey"),
            symbol: String::from_str("yellow"),
            pretty_pad: true,
            pretty_broken: false,
        }
    }
}

/// The syntax-highlighting capability a code block consumes.
///
/// An implementation carries an opaque per-language continuation state (for
/// lexical context such as "inside a block comment") across line boundaries;
/// `begin_block` resets it for a new block.  A highlighter only dresses a
/// line in escape sequences: the visible characters are exactly the visible
/// characters of the input, and a line without dangling escapes stays
/// without dangling escapes.
pub trait Highlighter {
    /// Start a fresh continuation state for a block in the given language.
    /// Unknown languages must degrade to a no-highlight state, never fail.
    fn begin_block(&mut self, language: &str);

    /// Convert one raw code line into a styled line, advancing the carried
    /// continuation state in place.
    fn highlight_line(&mut self, line: &str) -> (r: String)
        ensures
            strip_ansi(r@) == strip_ansi(line@),
            ansi_closed(line@) ==> ansi_closed(r@),
    ;
}

/// The no-highlight pass-through state: every line comes back unchanged.
pub struct PlainHighlighter {}

impl Highlighter for PlainHighlighter {
    fn begin_block(&mut self, _language: &str) {
    }

    fn highlight_line(&mut self, line: &str) -> (r: String) {
        line.to_owned()
    }
}

/// Per-block rendering state: the highlighter capability with its carried
/// continuation state, the block's colors and switches, and the verbatim
/// raw-source accumulator.
pub struct CodeBlockState<H: Highlighter> {
    /// The syntax highlighter, carrying the per-language continuation state.
    pub highlighter: H,
    /// Whether a block is open and lines are being highlighted.
    pub highlight_active: bool,
    /// Current language.
    pub language: Option<String>,
    /// Background color escape for the block.
    pub background: String,
    /// Whether pretty padding is enabled.
    pub pretty_pad: bool,
    /// Whether pretty line breaking is enabled.
    pub pretty_broken: bool,
    /// Code block indent level.
    pub indent: usize,
    /// Accumulated raw code, for verbatim retrieval.
    pub raw_buffer: String,
    /// Whether any line has been added to the raw accumulator; lets an
    /// empty first line be told apart from an empty accumulator.
    pub raw_has_line: bool,
}

impl<H: Highlighter> CodeBlockState<H> {
    /// Create a new code block state around a highlighter capability.
    pub fn new(highlighter: H) -> (r: Self)
        ensures
            r.highlighter == highlighter,
            !r.highlight_active,
            r.language is None,
            r.background@ == Seq::<char>::empty(),
            r.pretty_pad,
            !r.pretty_broken,
            r.indent == 0,
            r.raw_buffer@ == Seq::<char>::empty(),
            !r.raw_has_line,
    {
        CodeBlockState {
            highlighter,
            highlight_active: false,
            language: None,
            background: String::new(),
            pretty_pad: true,
            pretty_broken: false,
            indent: 0,
            raw_buffer: String::new(),
            raw_has_line: false,
        }
    }

    /// Start a new code block: remember the language, resolve the block
    /// background from the style, clear the raw accumulator, and begin a
    /// fresh highlight state keyed by the language (defaulting to plain
    /// text when none is given).
    pub fn start(&mut self, language: Option<String>, style: &RenderStyle)
        ensures
            final(self).language == language,
            final(self).background@ == spec_bg_color(style.dark@),
            final(self).raw_buffer@ == Seq::<char>::empty(),
            !final(self).raw_has_line,
            final(self).highlight_active,
            final(self).pretty_pad == old(self).pretty_pad,
            final(self).pretty_broken == old(self).pretty_broken,
            final(self).indent == old(self).indent,
    {
        self.background = bg_color(style.dark.as_str());
        self.raw_buffer = String::new();
        self.raw_has_line = false;
        match &language {
            Some(l) => self.highlighter.begin_block(l.as_str()),
            None => self.highlighter.begin_block("text"),
        }
        self.language = language;
        self.highlight_active = true;
    }

    /// Add a line to the raw buffer, newline-joined with what is already
    /// there.  An empty line counts like any other.
    pub fn add_raw_line(&mut self, line: &str)
        ensures
            final(self).raw_buffer@ == if old(self).raw_has_line {
                old(self).raw_buffer@ + seq!['\n'] + line@
            } else {
                old(self).raw_buffer@ + line@
            },
            final(self).raw_has_line,
            final(self).highlighter == old(self).highlighter,
            final(self).highlight_active == old(self).highlight_active,
            final(self).language == old(self).language,
            final(self).background == old(self).background,
            final(self).pretty_pad == old(self).pretty_pad,
            final(self).pretty_broken == old(self).pretty_broken,
            final(self).indent == old(self).indent,
    {
        if self.raw_has_line {
            push_char(&mut self.raw_buffer, '\n');
            proof {
                assert(self.raw_buffer@ =~= old(self).raw_buffer@ + seq!['\n']);
            }
        }
        self.raw_buffer.append(line);
        self.raw_has_line = true;
    }

    /// The verbatim source of the block so far, newline-joined.
    pub fn raw_code(&self) -> (r: &str)
        ensures
            r@ == self.raw_buffer@,
    {
        self.raw_buffer.as_str()
    }

    /// End the current code block.
    pub fn end(&mut self)
        ensures
            !final(self).highlight_active,
            final(self).language is None,
            final(self).background == old(self).background,
            final(self).pretty_pad == old(self).pretty_pad,
            final(self).pretty_broken == old(self).pretty_broken,
            final(self).indent == old(self).indent,
            final(self).raw_buffer == old(self).raw_buffer,
            final(self).raw_has_line == old(self).raw_has_line,
            final(self).highlighter == old(self).highlighter,
    {
        self.highlight_active = false;
        self.language = None;
    }
}

/// The glyph drawn across the top border of a pretty code block: the lower
/// half block.
pub const CODEPAD_TOP: char = '\u{2584}';

/// The glyph drawn across the bottom border of a pretty code block: the
/// upper half block.
pub const CODEPAD_BOTTOM: char = '\u{2580}';

/// A border row: with pretty padding, a run of border glyphs in the border
/// foreground on the block background; otherwise a run of plain spaces on
/// the block background, which survives copy-paste cleanly.
pub open spec fn spec_border_row(
    glyph: char,
    margin: Seq<char>,
    dark: Seq<char>,
    grey: Seq<char>,
    width: nat,
    pretty: bool,
) -> Seq<char> {
    if pretty {
        margin + spec_fg_color(grey) + spec_bg_color(dark) + repeat_seq(glyph, width)
            + reset_seq()
    } else {
        margin + spec_bg_color(dark) + spaces_seq(width) + reset_seq()
    }
}

/// Columns of padding after a `[language]` label of the given display width.
pub open spec fn spec_label_pad(lang: Seq<char>, width: nat) -> nat {
    if width >= str_width(lang) + 2 {
        (width - str_width(lang) - 2) as nat
    } else {
        0
    }
}

/// The language label row: `[language]`, right-padded over the block
/// background to the configured width, measured in display columns.
pub open spec fn spec_label_row(
    lang: Seq<char>,
    margin: Seq<char>,
    dark: Seq<char>,
    symbol: Seq<char>,
    width: nat,
) -> Seq<char> {
    margin + spec_bg_color(dark) + spec_fg_color(symbol) + seq!['['] + lang + seq![']']
        + spaces_seq(spec_label_pad(lang, width)) + reset_seq()
}

/// A label is shown only for a present, non-empty language other than the
/// `text` sentinel.
pub open spec fn spec_has_label(lang: Option<Seq<char>>) -> bool {
    match lang {
        Some(l) => l.len() > 0 && l != "text"@,
        None => false,
    }
}

/// The rows opening a code block: the top border, then the label row when a
/// language is to be shown.
pub open spec fn spec_render_code_start(
    lang: Option<Seq<char>>,
    width: nat,
    margin: Seq<char>,
    dark: Seq<char>,
    grey: Seq<char>,
    symbol: Seq<char>,
    pretty: bool,
) -> Seq<Seq<char>> {
    let border = seq![spec_border_row(CODEPAD_TOP, margin, dark, grey, width, pretty)];
    if spec_has_label(lang) {
        border + seq![spec_label_row(lang->0, margin, dark, symbol, width)]
    } else {
        border
    }
}

/// Builds one border row and proves its visible part is the glyph run.
fn border_row(glyph: char, width: usize, left_margin: &str, style: &RenderStyle, pretty_pad: bool)
    -> (r: String)
    requires
        glyph != '\u{1b}',
        char_width(glyph) == 1,
    ensures
        r@ == spec_border_row(glyph, left_margin@, style.dark@, style.grey@, width as nat,
            pretty_pad),
        ansi_closed(left_margin@) ==> strip_ansi(r@) == strip_ansi(left_margin@) + (
            if pretty_pad {
                repeat_seq(glyph, width as nat)
            } else {
                spaces_seq(width as nat)
            }),
        ansi_closed(left_margin@) ==> str_width(strip_ansi(r@)) == str_width(
            strip_ansi(left_margin@)) + width,
{
    let mut row = String::from_str(left_margin);
    let bg = bg_color(style.dark.as_str());
    let reset = reset_str();
    if pretty_pad {
        let fg = fg_color(style.grey.as_str());
        let glyphs = repeat_char(glyph, width);
        row.append(fg.as_str());
        let ghost a1 = row@;
        row.append(bg.as_str());
        let ghost a2 = row@;
        row.append(glyphs.as_str());
        let ghost a3 = row@;
        row.append(reset.as_str());
        proof {
            if ansi_closed(left_margin@) {
                lemma_neutral_append(left_margin@, fg@);
                lemma_neutral_append(a1, bg@);
                assert(esc_free(glyphs@));
                lemma_plain_append(a2, glyphs@);
                lemma_neutral_append(a3, reset@);
                lemma_str_width_concat(strip_ansi(left_margin@), glyphs@);
                lemma_str_width_uniform(glyph, width as nat);
            }
        }
    } else {
        let pad = spaces(width);
        row.append(bg.as_str());
        let ghost a1 = row@;
        row.append(pad.as_str());
        let ghost a2 = row@;
        row.append(reset.as_str());
        proof {
            if ansi_closed(left_margin@) {
                lemma_neutral_append(left_margin@, bg@);
                assert(esc_free(pad@));
                lemma_plain_append(a1, pad@);
                lemma_neutral_append(a2, reset@);
                lemma_str_width_concat(strip_ansi(left_margin@), pad@);
            }
        }
    }
    row
}

/// Render the opening of a code block: the top border, then a `[language]`
/// label when a language is present, not empty, and not the `text` sentinel.
///
/// The visible part of every returned row, beyond the margin, spans exactly
/// the configured width in display columns — the label is measured in
/// columns, not storage units — except that a label too wide for the block
/// keeps its full `[language]` text.
pub fn render_code_start(
    language: Option<&str>,
    width: usize,
    left_margin: &str,
    style: &RenderStyle,
    pretty_pad: bool,
) -> (r: Vec<String>)
    ensures
        r.deep_view() == spec_render_code_start(language.deep_view(), width as nat,
            left_margin@, style.dark@, style.grey@, style.symbol@, pretty_pad),
        ansi_closed(left_margin@) ==> str_width(strip_ansi(r.deep_view()[0])) == str_width(
            strip_ansi(left_margin@)) + width,
        ansi_closed(left_margin@) && r.deep_view().len() == 2 && esc_free(
            language.deep_view()->0) ==> str_width(strip_ansi(r.deep_view()[1])) == str_width(
            strip_ansi(left_margin@)) + (if width >= str_width(language.deep_view()->0) + 2 {
            width as nat
        } else {
            str_width(language.deep_view()->0) + 2
        }),
{
    let _g: usize = char_display_width(CODEPAD_TOP);
    let mut lines: Vec<String> = Vec::new();
    let top = border_row(CODEPAD_TOP, width, left_margin, style, pretty_pad);
    lines.push(top);

    if let Some(lang) = language {
        if !lang.is_empty() && !str_eq(lang, "text") {
            let _b1: usize = char_display_width('[');
            let _b2: usize = char_display_width(']');
            let bg = bg_color(style.dark.as_str());
            let label_fg = fg_color(style.symbol.as_str());
            let reset = reset_str();
            let lang_width = display_width(lang);
            let need = saturating_add_usize(lang_width, 2);
            let padding = if width > need {
                width - need
            } else {
                0
            };
            proof {
                assert(padding == spec_label_pad(lang@, width as nat));
            }
            let pad = spaces(padding);
            let mut row = String::from_str(left_margin);
            row.append(bg.as_str());
            let ghost a1 = row@;
            row.append(label_fg.as_str());
            let ghost a2 = row@;
            push_char(&mut row, '[');
            row.append(lang);
            push_char(&mut row, ']');
            let ghost a3 = row@;
            row.append(pad.as_str());
            let ghost a4 = row@;
            row.append(reset.as_str());
            proof {
                assert(a3 =~= a2 + (seq!['['] + lang@ + seq![']']));
                assert(a4 =~= a3 + pad@);
                assert(row@ =~= spec_label_row(lang@, left_margin@, style.dark@,
                    style.symbol@, width as nat));
                if ansi_closed(left_margin@) && esc_free(lang@) {
                    let body = seq!['['] + lang@ + seq![']'];
                    lemma_neutral_append(left_margin@, bg@);
                    lemma_neutral_append(a1, label_fg@);
                    assert(esc_free(body));
                    lemma_plain_append(a2, body);
                    lemma_plain_append(a3, pad@);
                    lemma_neutral_append(a4, reset@);
                    lemma_str_width_concat(strip_ansi(left_margin@), body);
                    lemma_str_width_concat(strip_ansi(left_margin@) + body, pad@);
                    lemma_str_width_concat(seq!['['], lang@);
                    lemma_str_width_concat(seq!['['] + lang@, seq![']']);
                    lemma_str_width_single('[');
                    lemma_str_width_single(']');
                    assert(body =~= (seq!['['] + lang@) + seq![']']);
                    assert(str_width(body) == 2 + str_width(lang@));
                }
            }
            lines.push(row);
            proof {
                assert(lines.deep_view() =~= spec_render_code_start(language.deep_view(),
                    width as nat, left_margin@, style.dark@, style.grey@, style.symbol@,
                    pretty_pad));
            }
            return lines;
        }
    }
    proof {
        assert(lines.deep_view() =~= spec_render_code_start(language.deep_view(), width as nat,
            left_margin@, style.dark@, style.grey@, style.symbol@, pretty_pad));
    }
    lines
}

/// The indent prepended to row `i` of a wrapped line: the first row already
/// carries its own indent, continuation rows are re-indented.
pub open spec fn spec_row_indent(i: int, ind: int) -> nat {
    if i == 0 || ind < 0 {
        0
    } else {
        ind as nat
    }
}

/// Columns of background padding after the visible content of a code row.
pub open spec fn spec_line_pad(ind_i: nat, seg: Seq<char>, width: nat) -> nat {
    if width >= ind_i + str_width(seg) {
        (width - ind_i - str_width(seg)) as nat
    } else {
        0
    }
}

/// The visible part of one rendered code row: the margin's visible part, the
/// continuation indent, the wrapped segment, and background padding out to
/// the configured width.
pub open spec fn spec_row_visible(margin: Seq<char>, ind_i: nat, seg: Seq<char>, width: nat)
    -> Seq<char> {
    strip_ansi(margin) + spaces_seq(ind_i) + seg + spaces_seq(spec_line_pad(ind_i, seg, width))
}

/// Render one streamed code line: wrap it, highlight each segment with the
/// carried continuation state, and pad each segment over the block
/// background out to the configured width, measured in display columns of
/// the visible characters.
///
/// One rendered row comes back per wrapped segment — an empty input line
/// still yields one background-filled row.  Whatever escapes the highlighter
/// inserts, the visible part of each row is exactly the margin's, the
/// continuation indent, the segment, and the padding.
pub fn render_code_line<H: Highlighter>(
    line: &str,
    state: &mut CodeBlockState<H>,
    width: usize,
    left_margin: &str,
    style: &RenderStyle,
    pretty_broken: bool,
) -> (r: Vec<String>)
    ensures
        final(state).highlight_active == old(state).highlight_active,
        final(state).language == old(state).language,
        final(state).background == old(state).background,
        final(state).pretty_pad == old(state).pretty_pad,
        final(state).pretty_broken == old(state).pretty_broken,
        final(state).indent == old(state).indent,
        final(state).raw_buffer == old(state).raw_buffer,
        final(state).raw_has_line == old(state).raw_has_line,
        r.deep_view().len() == wrap_spec(line@, width as nat, pretty_broken).1.len(),
        esc_free(line@) && ansi_closed(left_margin@) ==> forall|i: int|
            0 <= i < r.deep_view().len() ==> strip_ansi(#[trigger] r.deep_view()[i])
                == spec_row_visible(left_margin@, spec_row_indent(i, wrap_spec(line@,
                width as nat, pretty_broken).0), wrap_spec(line@, width as nat,
                pretty_broken).1[i], width as nat),
        esc_free(line@) && ansi_closed(left_margin@) ==> forall|i: int|
            0 <= i < r.deep_view().len() ==> str_width(strip_ansi(#[trigger] r.deep_view()[i]))
                == str_width(strip_ansi(left_margin@)) + ({
                let ind_i = spec_row_indent(i, wrap_spec(line@, width as nat,
                    pretty_broken).0);
                let ws = str_width(wrap_spec(line@, width as nat, pretty_broken).1[i]);
                if width >= ind_i + ws {
                    width as nat
                } else {
                    ind_i + ws
                }
            }),
{
    let ghost spec_ind = wrap_spec(line@, width as nat, pretty_broken).0;
    let ghost segs = wrap_spec(line@, width as nat, pretty_broken).1;
    let _sp: usize = char_display_width(' ');
    let bg = bg_color(style.dark.as_str());
    let reset = reset_str();
    let (indent, wrapped) = code_wrap(line, width, pretty_broken);
    proof {
        if esc_free(line@) {
            lemma_wrap_esc_free(line@, width as nat, pretty_broken);
        }
    }

    let mut result: Vec<String> = Vec::new();
    let mut i: usize = 0;
    while i < wrapped.len()
        invariant
            wrapped.deep_view() == segs,
            indent == spec_ind,
            bg@ == spec_bg_color(style.dark@),
            crate::ansi::ansi_neutral(bg@),
            reset@ == reset_seq(),
            crate::ansi::ansi_neutral(reset@),
            char_width(' ') == 1,
            i <= wrapped.len(),
            result.deep_view().len() == i,
            esc_free(line@) ==> forall|j: int|
                0 <= j < segs.len() ==> #[trigger] esc_free(segs[j]),
            esc_free(line@) && ansi_closed(left_margin@) ==> forall|j: int|
                0 <= j < i ==> strip_ansi(#[trigger] result.deep_view()[j])
                    == spec_row_visible(left_margin@, spec_row_indent(j, spec_ind), segs[j],
                    width as nat),
            esc_free(line@) && ansi_closed(left_margin@) ==> forall|j: int|
                0 <= j < i ==> str_width(strip_ansi(#[trigger] result.deep_view()[j]))
                    == str_width(strip_ansi(left_margin@)) + ({
                    let ind_i = spec_row_indent(j, spec_ind);
                    let ws = str_width(segs[j]);
                    if width >= ind_i + ws {
                        width as nat
                    } else {
                        ind_i + ws
                    }
                }),
            state.highlight_active == old(state).highlight_active,
            state.language == old(state).language,
            state.background == old(state).background,
            state.pretty_pad == old(state).pretty_pad,
            state.pretty_broken == old(state).pretty_broken,
            state.indent == old(state).indent,
            state.raw_buffer == old(state).raw_buffer,
            state.raw_has_line == old(state).raw_has_line,
        decreases wrapped.len() - i,
    {
        let seg = &wrapped[i];
        proof {
            assert(seg@ == segs[i as int]);
        }
        let highlighted = state.highlighter.highlight_line(seg.as_str());
        let line_indent: usize = if i == 0 {
            0
        } else {
            indent
        };
        proof {
            assert(line_indent == spec_row_indent(i as int, spec_ind));
        }
        let indent_str = spaces(line_indent);
        let vis = visible_width(highlighted.as_str());
        let vl = saturating_add_usize(vis, line_indent);
        let padding = if width > vl {
            width - vl
        } else {
            0
        };
        let pad_str = spaces(padding);
        let mut row = String::from_str(left_margin);
        row.append(bg.as_str());
        let ghost a1 = row@;
        row.append(indent_str.as_str());
        let ghost a2 = row@;
        row.append(highlighted.as_str());
        let ghost a3 = row@;
        row.append(pad_str.as_str());
        let ghost a4 = row@;
        row.append(reset.as_str());
        proof {
            if esc_free(line@) && ansi_closed(left_margin@) {
                let sg = segs[i as int];
                assert(esc_free(sg));
                lemma_ansi_plain(sg);
                assert(strip_ansi(highlighted@) == sg);
                assert(str_width(strip_ansi(highlighted@)) == str_width(sg));
                assert(padding == spec_line_pad(line_indent as nat, sg, width as nat));
                lemma_neutral_append(left_margin@, bg@);
                lemma_plain_append(a1, indent_str@);
                crate::ansi::lemma_closed_append(a2, highlighted@);
                assert(ansi_closed(a3));
                lemma_plain_append(a3, pad_str@);
                lemma_neutral_append(a4, reset@);
                assert(strip_ansi(row@) =~= spec_row_visible(left_margin@,
                    line_indent as nat, sg, width as nat));
                lemma_str_width_concat(strip_ansi(left_margin@), spaces_seq(
                    line_indent as nat));
                lemma_str_width_concat(strip_ansi(left_margin@) + spaces_seq(
                    line_indent as nat), sg);
                lemma_str_width_concat(strip_ansi(left_margin@) + spaces_seq(
                    line_indent as nat) + sg, spaces_seq(padding as nat));
                lemma_str_width_uniform(' ', line_indent as nat);
                lemma_str_width_uniform(' ', padding as nat);
                assert(spec_row_visible(left_margin@, line_indent as nat, sg, width as nat)
                    =~= ((strip_ansi(left_margin@) + spaces_seq(line_indent as nat)) + sg)
                    + spaces_seq(padding as nat));
            }
        }
        let ghost prev = result.deep_view();
        result.push(row);
        proof {
            assert(result.deep_view() =~= prev.push(row@));
        }
        i = i + 1;
    }
    result
}

/// Render the closing of a code block: the bottom border, pretty or plain.
///
/// The visible part of the returned row, beyond the margin, spans exactly
/// the configured width in display columns.
pub fn render_code_end(width: usize, left_margin: &str, style: &RenderStyle, pretty_pad: bool)
    -> (r: Vec<String>)
    ensures
        r.deep_view() == seq![spec_border_row(CODEPAD_BOTTOM, left_margin@, style.dark@,
            style.grey@, width as nat, pretty_pad)],
        ansi_closed(left_margin@) ==> str_width(strip_ansi(r.deep_view()[0])) == str_width(
            strip_ansi(left_margin@)) + width,
{
    let _g: usize = char_display_width(CODEPAD_BOTTOM);
    let mut lines: Vec<String> = Vec::new();
    let bottom = border_row(CODEPAD_BOTTOM, width, left_margin, style, pretty_pad);
    lines.push(bottom);
    proof {
        assert(lines.deep_view() =~= seq![spec_border_row(CODEPAD_BOTTOM, left_margin@,
            style.dark@, style.grey@, width as nat, pretty_pad)]);
    }
    lines
}

} // verus!

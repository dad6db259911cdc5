//! Styled text: spans of text with a style, and lines of spans.

use vstd::prelude::*;

verus! {

/// The colours that the interface uses.
#[derive(Debug, Clone, Copy, PartialEq, Eq, Structural)]
pub enum Color {
    Blue,
    Green,
    Cyan,
    Red,
    Yellow,
    Magenta,
}

/// How a span of text is shown.
#[derive(Debug, Clone, Copy, PartialEq, Eq, Structural)]
pub struct Style {
    pub fg: Option<Color>,
    pub bold: bool,
    pub italic: bool,
    pub dim: bool,
}

/// The terminal's own style.
#[verifier::allow_in_spec]
pub fn plain() -> Style
    returns
        (Style { fg: None, bold: false, italic: false, dim: false }),
{
    Style { fg: None, bold: false, italic: false, dim: false }
}

/// Dimmed text.
#[verifier::allow_in_spec]
pub fn dim() -> Style
    returns
        (Style { fg: None, bold: false, italic: false, dim: true }),
{
    Style { fg: None, bold: false, italic: false, dim: true }
}

/// Titles.
#[verifier::allow_in_spec]
pub fn title_style() -> Style
    returns
        (Style { fg: Some(Color::Blue), bold: true, italic: false, dim: false }),
{
    Style { fg: Some(Color::Blue), bold: true, italic: false, dim: false }
}

/// Names of speakers.
#[verifier::allow_in_spec]
pub fn speaker_style() -> Style
    returns
        (Style { fg: Some(Color::Green), bold: true, italic: false, dim: false }),
{
    Style { fg: Some(Color::Green), bold: true, italic: false, dim: false }
}

/// Times.
#[verifier::allow_in_spec]
pub fn time_style() -> Style
    returns
        (Style { fg: Some(Color::Cyan), bold: false, italic: false, dim: false }),
{
    Style { fg: Some(Color::Cyan), bold: false, italic: false, dim: false }
}

/// Errors.
#[verifier::allow_in_spec]
pub fn error_style() -> Style
    returns
        (Style { fg: Some(Color::Red), bold: false, italic: false, dim: false }),
{
    Style { fg: Some(Color::Red), bold: false, italic: false, dim: false }
}

/// Notices.
#[verifier::allow_in_spec]
pub fn notice_style() -> Style
    returns
        (Style { fg: Some(Color::Yellow), bold: false, italic: false, dim: false }),
{
    Style { fg: Some(Color::Yellow), bold: false, italic: false, dim: false }
}

/// The user's part of a chat.
#[verifier::allow_in_spec]
pub fn user_style() -> Style
    returns
        (Style { fg: Some(Color::Blue), bold: true, italic: false, dim: false }),
{
    Style { fg: Some(Color::Blue), bold: true, italic: false, dim: false }
}

/// The assistant's part of a chat.
#[verifier::allow_in_spec]
pub fn ai_style() -> Style
    returns
        (Style { fg: Some(Color::Magenta), bold: true, italic: false, dim: false }),
{
    Style { fg: Some(Color::Magenta), bold: true, italic: false, dim: false }
}

/// Code, inline or in a block.
#[verifier::allow_in_spec]
pub fn code_style() -> Style
    returns
        (Style { fg: Some(Color::Yellow), bold: false, italic: false, dim: false }),
{
    Style { fg: Some(Color::Yellow), bold: false, italic: false, dim: false }
}

/// The selected item of a list.
#[verifier::allow_in_spec]
pub fn selected_style() -> Style
    returns
        (Style { fg: Some(Color::Blue), bold: true, italic: false, dim: false }),
{
    Style { fg: Some(Color::Blue), bold: true, italic: false, dim: false }
}

/// A run of text in one style.
#[derive(Debug)]
pub struct Span {
    pub text: String,
    pub style: Style,
}

/// The text and style of a span.
pub struct SpanView {
    pub text: Seq<char>,
    pub style: Style,
}

impl View for Span {
    type V = SpanView;

    open spec fn view(&self) -> SpanView {
        SpanView { text: self.text@, style: self.style }
    }
}

/// One line on the screen.
#[derive(Debug)]
pub struct Line {
    pub spans: Vec<Span>,
}

/// The spans of a list.
pub open spec fn spans_view(spans: Seq<Span>) -> Seq<SpanView> {
    spans.map_values(|s: Span| s@)
}

impl View for Line {
    type V = Seq<SpanView>;

    open spec fn view(&self) -> Seq<SpanView> {
        spans_view(self.spans@)
    }
}

/// The lines of a list.
pub open spec fn lines_view(lines: Seq<Line>) -> Seq<Seq<SpanView>> {
    lines.map_values(|l: Line| l@)
}

/// A span of text in a style.
pub open spec fn span_of(text: Seq<char>, style: Style) -> SpanView {
    SpanView { text, style }
}

/// Appends a span to a list of spans.
pub fn push_span(spans: &mut Vec<Span>, text: String, style: Style)
    ensures
        spans_view(final(spans)@) == spans_view(old(spans)@).push(span_of(text@, style)),
{
    let ghost before = spans_view(spans@);
    spans.push(Span { text, style });
    assert(spans_view(spans@) =~= before.push(span_of(text@, style)));
}

/// Appends a line to a list of lines.
pub fn push_line(lines: &mut Vec<Line>, spans: Vec<Span>)
    ensures
        lines_view(final(lines)@) == lines_view(old(lines)@).push(spans_view(spans@)),
{
    let ghost before = lines_view(lines@);
    lines.push(Line { spans });
    assert(lines_view(lines@) =~= before.push(spans_view(spans@)));
}

/// Appends a line of one span to a list of lines.
pub fn push_text(lines: &mut Vec<Line>, text: String, style: Style)
    ensures
        lines_view(final(lines)@) == lines_view(old(lines)@).push(seq![span_of(text@, style)]),
{
    let mut spans: Vec<Span> = Vec::new();
    assert(spans_view(spans@) =~= Seq::<SpanView>::empty());
    push_span(&mut spans, text, style);
    assert(spans_view(spans@) =~= seq![span_of(text@, style)]);
    push_line(lines, spans);
}

/// Appends an empty line to a list of lines.
pub fn push_blank(lines: &mut Vec<Line>)
    ensures
        lines_view(final(lines)@) == lines_view(old(lines)@).push(seq![]),
{
    let spans: Vec<Span> = Vec::new();
    assert(spans_view(spans@) =~= Seq::<SpanView>::empty());
    push_line(lines, spans);
}

} // verus!

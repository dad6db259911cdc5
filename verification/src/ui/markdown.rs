//! Markdown rendering for chat replies: headings, bold and italic text, inline
//! code, code blocks and bullets.

use crate::text::{
    chars_of, countable, has_prefix, lines, lines_of, same, starts_with, string_of, texts,
};
use crate::ui::style::{
    lines_view, push_blank, push_line, push_span, push_text, span_of, spans_view, Color, Line, Span,
    SpanView, Style, code_style, plain,
};
use crate::ui::wrap::{display_width, width_of, word_wrap, wrapped};
use pulldown_cmark::{Event, Options, Parser};
use vstd::prelude::*;

verus! {

broadcast use vstd::string::group_string_axioms;

/// What a parsed markdown text consists of. A tag is given by its name, with
/// its parameters in brackets: `Strong`, `Heading(H1)`, `List(true)`. What is
/// neither tag, text, code nor line break is given as it is written for
/// debugging: `Rule`, `Html(..)`.
#[derive(Debug)]
pub enum MdEvent {
    Start(String),
    End(String),
    Text(String),
    Code(String),
    SoftBreak,
    HardBreak,
    Other(String),
}

/// The contents of an [`MdEvent`].
pub enum MdView {
    Start(Seq<char>),
    End(Seq<char>),
    Text(Seq<char>),
    Code(Seq<char>),
    SoftBreak,
    HardBreak,
    Other(Seq<char>),
}

impl View for MdEvent {
    type V = MdView;

    open spec fn view(&self) -> MdView {
        match self {
            MdEvent::Start(t) => MdView::Start(t@),
            MdEvent::End(t) => MdView::End(t@),
            MdEvent::Text(t) => MdView::Text(t@),
            MdEvent::Code(t) => MdView::Code(t@),
            MdEvent::SoftBreak => MdView::SoftBreak,
            MdEvent::HardBreak => MdView::HardBreak,
            MdEvent::Other(t) => MdView::Other(t@),
        }
    }
}

/// The contents of a list of events.
pub open spec fn event_views(events: Seq<MdEvent>) -> Seq<MdView> {
    events.map_values(|e: MdEvent| e@)
}

/// The tags that rendering distinguishes.
#[derive(Debug, Clone, Copy, PartialEq, Eq, Structural)]
pub enum MdTag {
    /// A heading; `true` for the first level.
    Heading(bool),
    Strong,
    Emphasis,
    CodeBlock,
    List,
    Item,
    Paragraph,
    Other,
}

/// The tag that a name stands for.
pub open spec fn tag_named(name: Seq<char>) -> MdTag {
    if name == "Heading(H1)"@ {
        MdTag::Heading(true)
    } else if starts_with(name, "Heading("@) {
        MdTag::Heading(false)
    } else if name == "Strong"@ {
        MdTag::Strong
    } else if name == "Emphasis"@ {
        MdTag::Emphasis
    } else if name == "CodeBlock"@ {
        MdTag::CodeBlock
    } else if starts_with(name, "List("@) {
        MdTag::List
    } else if name == "Item"@ {
        MdTag::Item
    } else if name == "Paragraph"@ {
        MdTag::Paragraph
    } else {
        MdTag::Other
    }
}

/// The tag that a name stands for.
pub fn tag_of(name: &str) -> (r: MdTag)
    ensures
        r == tag_named(name@),
{
    let chars = chars_of(name);
    if same(name, "Heading(H1)") {
        MdTag::Heading(true)
    } else if has_prefix(&chars, &chars_of("Heading(")) {
        MdTag::Heading(false)
    } else if same(name, "Strong") {
        MdTag::Strong
    } else if same(name, "Emphasis") {
        MdTag::Emphasis
    } else if same(name, "CodeBlock") {
        MdTag::CodeBlock
    } else if has_prefix(&chars, &chars_of("List(")) {
        MdTag::List
    } else if same(name, "Item") {
        MdTag::Item
    } else if same(name, "Paragraph") {
        MdTag::Paragraph
    } else {
        MdTag::Other
    }
}

/// Whether a tag sets the style of the text inside it.
pub open spec fn sets_style(tag: MdTag) -> bool {
    tag is Heading || tag is Strong || tag is Emphasis
}

/// How many style-setting tags are open after the events.
pub open spec fn style_depth(events: Seq<MdView>) -> int
    decreases events.len(),
{
    if events.len() == 0 {
        0
    } else {
        let before = style_depth(events.drop_last());
        match events.last() {
            MdView::Start(t) => if sets_style(tag_named(t)) {
                before + 1
            } else {
                before
            },
            MdView::End(t) => if sets_style(tag_named(t)) {
                before - 1
            } else {
                before
            },
            _ => before,
        }
    }
}

/// No style-setting tag is closed that was not opened before.
pub open spec fn styles_nest(events: Seq<MdView>) -> bool {
    forall|k: int| 0 <= k <= events.len() ==> style_depth(#[trigger] events.take(k)) >= 0
}

/// The events of a markdown text, as `pulldown_cmark` parses it without
/// extensions.
pub uninterp spec fn markdown_events(s: Seq<char>) -> Seq<MdView>;

/// `pulldown_cmark::Parser::new_ext` parses a text into a series of events;
/// which they are is named by [`markdown_events`]. The crate guarantees that
/// start and end events are balanced, so no style-setting tag ends that did not
/// start before.
#[verifier::external_body]
pub(crate) fn parse_markdown(text: &str) -> (r: Vec<MdEvent>)
    ensures
        event_views(r@) == markdown_events(text@),
        styles_nest(event_views(r@)),
{
    let mut out: Vec<MdEvent> = Vec::new();
    for event in Parser::new_ext(text, Options::empty()) {
        out.push(match event {
            Event::Start(t) => MdEvent::Start(format!("{:?}", t.to_end())),
            Event::End(t) => MdEvent::End(format!("{:?}", t)),
            Event::Text(t) => MdEvent::Text(t.to_string()),
            Event::Code(t) => MdEvent::Code(t.to_string()),
            Event::SoftBreak => MdEvent::SoftBreak,
            Event::HardBreak => MdEvent::HardBreak,
            e => MdEvent::Other(format!("{:?}", e)),
        });
    }
    out
}

// ---------------------------------------------------------------------------
// What the events render to
// ---------------------------------------------------------------------------

/// The state of rendering: finished lines, the spans of the line being filled,
/// the styles of the open tags, innermost last, above the plain style, whether
/// a code block is open, and how many lists are.
pub struct MdState {
    pub lines: Seq<Seq<SpanView>>,
    pub current: Seq<SpanView>,
    pub styles: Seq<Style>,
    pub code: bool,
    pub depth: nat,
}

/// Nothing rendered yet.
pub open spec fn md_start() -> MdState {
    MdState { lines: seq![], current: seq![], styles: seq![plain()], code: false, depth: 0 }
}

/// Ends the line being filled, unless it is empty.
pub open spec fn flushed(s: MdState) -> MdState {
    if s.current.len() == 0 {
        s
    } else {
        MdState { lines: s.lines.push(s.current), current: seq![], ..s }
    }
}

/// Adds an empty line unless nothing was rendered yet.
pub open spec fn separated(s: MdState) -> MdState {
    if s.lines.len() == 0 {
        s
    } else {
        MdState { lines: s.lines.push(seq![]), ..s }
    }
}

/// The style of a heading.
pub open spec fn heading_style(first: bool) -> Style {
    Style {
        fg: Some(
            if first {
                Color::Magenta
            } else {
                Color::Blue
            },
        ),
        bold: true,
        italic: false,
        dim: false,
    }
}

/// Two blanks for each level below the first, then a bullet.
pub open spec fn bullet(depth: nat) -> Seq<char> {
    Seq::new(
        if depth == 0 {
            0
        } else {
            (2 * (depth - 1)) as nat
        },
        |i: int| ' ',
    ) + seq!['\u{2022}', ' ']
}

/// The columns that the spans take together.
pub open spec fn spans_width(spans: Seq<SpanView>) -> nat
    decreases spans.len(),
{
    if spans.len() == 0 {
        0
    } else {
        spans_width(spans.drop_last()) + width_of(spans.last().text)
    }
}

/// The width that text is wrapped to behind what already stands on its line: at
/// least four columns.
pub open spec fn room(width: nat, used: nat) -> nat {
    let p = countable(used);
    let need = countable(p + 4);
    ((if width > need {
        width
    } else {
        need
    }) - (if p < width {
        p
    } else {
        width
    })) as nat
}

/// Each line of code indented by two columns, on a line of its own.
pub open spec fn code_lines(source: Seq<Seq<char>>) -> Seq<Seq<SpanView>> {
    source.map_values(|l: Seq<char>| seq![span_of("  "@ + l, code_style())])
}

/// The pieces of a wrapped text, each behind the first on a new line.
pub open spec fn place_pieces(s: MdState, pieces: Seq<Seq<char>>, style: Style) -> MdState
    decreases pieces.len(),
{
    if pieces.len() == 0 {
        s
    } else {
        let before = place_pieces(s, pieces.drop_last(), style);
        let at = if pieces.len() > 1 {
            flushed(before)
        } else {
            before
        };
        MdState { current: at.current.push(span_of(pieces.last(), style)), ..at }
    }
}

/// What the start of a tag does.
pub open spec fn md_open(s: MdState, tag: MdTag) -> MdState {
    let style = s.styles.last();
    match tag {
        MdTag::Heading(first) => {
            let at = separated(flushed(s));
            MdState { styles: at.styles.push(heading_style(first)), ..at }
        },
        MdTag::Strong => MdState { styles: s.styles.push(Style { bold: true, ..style }), ..s },
        MdTag::Emphasis => MdState { styles: s.styles.push(Style { italic: true, ..style }), ..s },
        MdTag::CodeBlock => MdState { code: true, ..flushed(s) },
        MdTag::List => MdState { depth: s.depth + 1, ..flushed(s) },
        MdTag::Item => {
            let at = flushed(s);
            MdState { current: at.current.push(span_of(bullet(s.depth), plain())), ..at }
        },
        MdTag::Paragraph => if s.depth == 0 {
            separated(flushed(s))
        } else {
            flushed(s)
        },
        MdTag::Other => s,
    }
}

/// What the end of a tag does.
pub open spec fn md_close(s: MdState, tag: MdTag) -> MdState {
    match tag {
        MdTag::Heading(_) => flushed(MdState { styles: s.styles.drop_last(), ..s }),
        MdTag::Strong => MdState { styles: s.styles.drop_last(), ..s },
        MdTag::Emphasis => MdState { styles: s.styles.drop_last(), ..s },
        MdTag::CodeBlock => MdState { code: false, ..s },
        MdTag::List => MdState {
            depth: if s.depth == 0 {
                0
            } else {
                (s.depth - 1) as nat
            },
            ..s
        },
        MdTag::Item => flushed(s),
        MdTag::Paragraph => flushed(s),
        MdTag::Other => s,
    }
}

/// What one event does.
pub open spec fn md_step(s: MdState, event: MdView, width: nat) -> MdState {
    match event {
        MdView::Start(t) => md_open(s, tag_named(t)),
        MdView::End(t) => md_close(s, tag_named(t)),
        MdView::Text(t) => if s.code {
            MdState { lines: s.lines + code_lines(lines_of(t)), ..s }
        } else {
            place_pieces(s, wrapped(t, room(width, spans_width(s.current))), s.styles.last())
        },
        MdView::Code(t) => MdState { current: s.current.push(span_of(t, code_style())), ..s },
        MdView::SoftBreak => MdState { current: s.current.push(span_of(" "@, plain())), ..s },
        MdView::HardBreak => flushed(s),
        MdView::Other(_) => s,
    }
}

/// The state after a list of events.
pub open spec fn md_run(events: Seq<MdView>, width: nat) -> MdState
    decreases events.len(),
{
    if events.len() == 0 {
        md_start()
    } else {
        md_step(md_run(events.drop_last(), width), events.last(), width)
    }
}

/// The lines that a list of events renders to.
pub open spec fn rendered(events: Seq<MdView>, width: nat) -> Seq<Seq<SpanView>> {
    flushed(md_run(events, width)).lines
}

// ---------------------------------------------------------------------------
// Rendering
// ---------------------------------------------------------------------------

struct Renderer {
    lines: Vec<Line>,
    current: Vec<Span>,
    styles: Vec<Style>,
    code: bool,
    depth: usize,
}

impl Renderer {
    spec fn state(&self) -> MdState {
        MdState {
            lines: lines_view(self.lines@),
            current: spans_view(self.current@),
            styles: self.styles@,
            code: self.code,
            depth: self.depth as nat,
        }
    }

    fn start() -> (r: Renderer)
        ensures
            r.state() == md_start(),
    {
        let mut styles: Vec<Style> = Vec::new();
        styles.push(plain());
        let r = Renderer {
            lines: Vec::new(),
            current: Vec::new(),
            styles,
            code: false,
            depth: 0,
        };
        assert(r.state().lines =~= md_start().lines);
        assert(r.state().current =~= md_start().current);
        assert(r.state().styles =~= md_start().styles);
        r
    }

    fn flush(&mut self)
        ensures
            final(self).state() == flushed(old(self).state()),
    {
        if self.current.len() > 0 {
            let mut spans: Vec<Span> = Vec::new();
            std::mem::swap(&mut spans, &mut self.current);
            push_line(&mut self.lines, spans);
            assert(spans_view(self.current@) =~= Seq::<SpanView>::empty());
        }
    }

    fn separate(&mut self)
        ensures
            final(self).state() == separated(old(self).state()),
    {
        if self.lines.len() > 0 {
            push_blank(&mut self.lines);
        }
    }

    fn push_style(&mut self, style: Style)
        ensures
            final(self).state() == (MdState {
                styles: old(self).state().styles.push(style),
                ..old(self).state()
            }),
    {
        self.styles.push(style);
    }

    fn pop_style(&mut self)
        requires
            old(self).state().styles.len() > 0,
        ensures
            final(self).state() == (MdState {
                styles: old(self).state().styles.drop_last(),
                ..old(self).state()
            }),
    {
        let _ = self.styles.pop();
        assert(self.styles@ =~= old(self).styles@.drop_last());
    }

    fn top(&self) -> (r: Style)
        requires
            self.state().styles.len() > 0,
        ensures
            r == self.state().styles.last(),
    {
        self.styles[self.styles.len() - 1]
    }

    fn push(&mut self, text: String, style: Style)
        ensures
            final(self).state() == (MdState {
                current: old(self).state().current.push(span_of(text@, style)),
                ..old(self).state()
            }),
    {
        push_span(&mut self.current, text, style);
    }

    fn used(&self) -> (r: usize)
        ensures
            r == countable(spans_width(self.state().current)),
    {
        let ghost spans = spans_view(self.current@);
        let mut total: usize = 0;
        let mut i: usize = 0;
        assert(spans.take(0) =~= Seq::<SpanView>::empty());
        while i < self.current.len()
            invariant
                i <= self.current@.len(),
                spans == spans_view(self.current@),
                total == countable(spans_width(spans.take(i as int))),
            decreases self.current@.len() - i,
        {
            assert(spans.take(i + 1).drop_last() =~= spans.take(i as int));
            let w = display_width(self.current[i].text.as_str());
            total = if w > usize::MAX - total {
                usize::MAX
            } else {
                total + w
            };
            i += 1;
        }
        assert(spans.take(i as int) =~= spans);
        total
    }

    fn code_block(&mut self, text: &str)
        ensures
            final(self).state() == (MdState {
                lines: old(self).state().lines + code_lines(lines_of(text@)),
                ..old(self).state()
            }),
    {
        let chars = chars_of(text);
        let source = lines(&chars);
        let ghost ls = lines_of(text@);
        let ghost before = self.state();
        let mut i: usize = 0;
        assert(before.lines + code_lines(ls.take(0)) =~= before.lines);
        while i < source.len()
            invariant
                i <= source@.len(),
                ls == source@.map_values(|l: Vec<char>| l@),
                self.state() == (MdState {
                    lines: before.lines + code_lines(ls.take(i as int)),
                    ..before
                }),
            decreases source@.len() - i,
        {
            let mut line = "  ".to_owned();
            line.append(string_of(&source[i]).as_str());
            let ghost span = seq![span_of("  "@ + ls[i as int], code_style())];
            push_text(&mut self.lines, line, code_style());
            assert(code_lines(ls.take(i + 1)) =~= code_lines(ls.take(i as int)).push(span));
            assert(before.lines + code_lines(ls.take(i + 1)) =~= (before.lines + code_lines(
                ls.take(i as int),
            )).push(span));
            i += 1;
        }
        assert(ls.take(i as int) =~= ls);
    }

    fn prose(&mut self, text: &str, width: usize)
        requires
            old(self).state().styles.len() > 0,
        ensures
            final(self).state() == place_pieces(
                old(self).state(),
                wrapped(text@, room(width as nat, spans_width(old(self).state().current))),
                old(self).state().styles.last(),
            ),
    {
        let style = self.top();
        let used = self.used();
        let need = if used > usize::MAX - 4 {
            usize::MAX
        } else {
            used + 4
        };
        let wide = if width > need {
            width
        } else {
            need
        };
        let pieces = word_wrap(
            text,
            wide - (if used < width {
                used
            } else {
                width
            }),
        );
        let ghost ps = texts(pieces@);
        let ghost before = self.state();
        let mut i: usize = 0;
        assert(ps.take(0) =~= Seq::<Seq<char>>::empty());
        while i < pieces.len()
            invariant
                i <= pieces@.len(),
                ps == texts(pieces@),
                self.state() == place_pieces(before, ps.take(i as int), style),
            decreases pieces@.len() - i,
        {
            assert(ps.take(i + 1).drop_last() =~= ps.take(i as int));
            assert(ps.take(i + 1).last() == pieces@[i as int]@);
            if i > 0 {
                self.flush();
            }
            self.push(pieces[i].clone(), style);
            i += 1;
        }
        assert(ps.take(i as int) =~= ps);
    }

    fn open(&mut self, tag: MdTag)
        requires
            old(self).state().styles.len() > 0,
            old(self).depth < usize::MAX,
        ensures
            final(self).state() == md_open(old(self).state(), tag),
    {
        match tag {
            MdTag::Heading(first) => {
                self.flush();
                self.separate();
                self.push_style(
                    Style {
                        fg: Some(
                            if first {
                                Color::Magenta
                            } else {
                                Color::Blue
                            },
                        ),
                        bold: true,
                        italic: false,
                        dim: false,
                    },
                );
            },
            MdTag::Strong => {
                let style = self.top();
                self.push_style(Style { bold: true, ..style });
            },
            MdTag::Emphasis => {
                let style = self.top();
                self.push_style(Style { italic: true, ..style });
            },
            MdTag::CodeBlock => {
                self.flush();
                self.code = true;
            },
            MdTag::List => {
                self.flush();
                self.depth += 1;
            },
            MdTag::Item => {
                self.flush();
                let mut mark = String::new();
                let mut i: usize = 1;
                let ghost blanks = |n: nat| Seq::new(n, |i: int| ' ');
                assert(mark@ =~= blanks(0));
                while i < self.depth
                    invariant
                        1 <= i,
                        i <= self.depth || i == 1,
                        blanks == (|n: nat| Seq::new(n, |i: int| ' ')),
                        mark@ == blanks((2 * (i - 1)) as nat),
                    decreases self.depth - i,
                {
                    mark.push(' ');
                    mark.push(' ');
                    i += 1;
                    assert(mark@ =~= blanks((2 * (i - 1)) as nat));
                }
                mark.push('\u{2022}');
                mark.push(' ');
                assert(mark@ =~= bullet(self.depth as nat));
                self.push(mark, plain());
            },
            MdTag::Paragraph => {
                self.flush();
                if self.depth == 0 {
                    self.separate();
                }
            },
            MdTag::Other => {},
        }
    }

    fn close(&mut self, tag: MdTag)
        requires
            sets_style(tag) ==> old(self).state().styles.len() > 0,
        ensures
            final(self).state() == md_close(old(self).state(), tag),
    {
        match tag {
            MdTag::Heading(_) => {
                self.pop_style();
                self.flush();
            },
            MdTag::Strong => self.pop_style(),
            MdTag::Emphasis => self.pop_style(),
            MdTag::CodeBlock => {
                self.code = false;
            },
            MdTag::List => {
                if self.depth > 0 {
                    self.depth -= 1;
                }
            },
            MdTag::Item => self.flush(),
            MdTag::Paragraph => self.flush(),
            MdTag::Other => {},
        }
    }

    fn step(&mut self, event: &MdEvent, width: usize)
        requires
            old(self).state().styles.len() > 0,
            old(self).depth < usize::MAX,
        ensures
            final(self).state() == md_step(old(self).state(), event@, width as nat),
    {
        match event {
            MdEvent::Start(t) => {
                let tag = tag_of(t.as_str());
                self.open(tag);
            },
            MdEvent::End(t) => {
                let tag = tag_of(t.as_str());
                self.close(tag);
            },
            MdEvent::Text(t) => {
                if self.code {
                    self.code_block(t.as_str());
                } else {
                    self.prose(t.as_str(), width);
                }
            },
            MdEvent::Code(t) => self.push(t.clone(), code_style()),
            MdEvent::SoftBreak => self.push(" ".to_owned(), plain()),
            MdEvent::HardBreak => self.flush(),
            MdEvent::Other(_) => {},
        }
    }
}

proof fn lemma_pieces_keep(s: MdState, pieces: Seq<Seq<char>>, style: Style)
    ensures
        place_pieces(s, pieces, style).styles == s.styles,
        place_pieces(s, pieces, style).depth == s.depth,
        s.lines.is_prefix_of(place_pieces(s, pieces, style).lines),
    decreases pieces.len(),
{
    if pieces.len() > 0 {
        lemma_pieces_keep(s, pieces.drop_last(), style);
    }
}

/// The open styles lie above the plain style, one for each open tag that sets
/// one, and no more lists are open than events were seen.
proof fn lemma_styles(events: Seq<MdView>, width: nat)
    requires
        styles_nest(events),
    ensures
        md_run(events, width).styles.len() == style_depth(events) + 1,
        md_run(events, width).styles.len() > 0,
        md_run(events, width).depth <= events.len(),
    decreases events.len(),
{
    assert(events.take(events.len() as int) =~= events);
    if events.len() > 0 {
        let before = events.drop_last();
        assert forall|k: int| 0 <= k <= before.len() implies style_depth(#[trigger] before.take(k))
            >= 0 by {
            assert(before.take(k) =~= events.take(k));
        }
        lemma_styles(before, width);
        let s = md_run(before, width);
        if let MdView::Text(t) = events.last() {
            lemma_pieces_keep(
                s,
                wrapped(t, room(width, spans_width(s.current))),
                s.styles.last(),
            );
        }
    }
}

/// Renders parsed markdown as lines for a pane of the given width.
pub fn render_events(events: &[MdEvent], width: usize) -> (r: Vec<Line>)
    requires
        styles_nest(event_views(events@)),
    ensures
        lines_view(r@) == rendered(event_views(events@), width as nat),
{
    let ghost evs = event_views(events@);
    let mut at = Renderer::start();
    let mut i: usize = 0;
    assert(evs.take(0) =~= Seq::<MdView>::empty());
    while i < events.len()
        invariant
            i <= events@.len(),
            evs == event_views(events@),
            styles_nest(evs),
            at.state() == md_run(evs.take(i as int), width as nat),
        decreases events@.len() - i,
    {
        proof {
            let seen = evs.take(i as int);
            assert forall|k: int| 0 <= k <= seen.len() implies style_depth(#[trigger] seen.take(k))
                >= 0 by {
                assert(seen.take(k) =~= evs.take(k));
            }
            lemma_styles(seen, width as nat);
            assert(evs.take(i + 1).drop_last() =~= seen);
            assert(evs.take(i + 1).last() == events@[i as int]@);
        }
        at.step(&events[i], width);
        i += 1;
    }
    assert(evs.take(i as int) =~= evs);
    at.flush();
    at.lines
}

/// Renders a markdown text as lines for a pane of the given width.
pub fn render_markdown(text: &str, width: usize) -> (r: Vec<Line>)
    ensures
        lines_view(r@) == rendered(markdown_events(text@), width as nat),
{
    let events = parse_markdown(text);
    render_events(&events, width)
}

proof fn lemma_step_appends(s: MdState, event: MdView, width: nat)
    ensures
        s.lines.is_prefix_of(md_step(s, event, width).lines),
{
    if let MdView::Text(t) = event {
        lemma_pieces_keep(s, wrapped(t, room(width, spans_width(s.current))), s.styles.last());
    }
}

/// A finished line stays as it is: what follows in the text only adds lines
/// below.
pub proof fn rendering_only_appends(events: Seq<MdView>, more: Seq<MdView>, width: nat)
    ensures
        md_run(events, width).lines.is_prefix_of(md_run(events + more, width).lines),
    decreases more.len(),
{
    if more.len() == 0 {
        assert(events + more =~= events);
    } else {
        rendering_only_appends(events, more.drop_last(), width);
        assert((events + more).drop_last() =~= events + more.drop_last());
        lemma_step_appends(md_run(events + more.drop_last(), width), more.last(), width);
    }
}

} // verus!

//! What rendering keeps of a text in markdown.

use super::markdown::{
    bullet, code_lines, flushed, md_run, md_step, place_pieces, rendered, room, separated,
    spans_width, MdState, MdView,
};
use super::style::{code_style, span_of, Color, SpanView, Style};
use super::wrap::{
    all_words, ink, ink_all, lemma_ink_add, wrapped, wrapping_keeps_words_and_fits,
};
use crate::text::lines_of;
use vstd::prelude::*;

verus! {

broadcast use vstd::string::group_string_axioms;

/// What a line says, without blanks.
pub open spec fn line_ink(spans: Seq<SpanView>) -> Seq<char>
    decreases spans.len(),
{
    if spans.len() == 0 {
        seq![]
    } else {
        line_ink(spans.drop_last()) + ink(spans.last().text)
    }
}

/// What a list of lines says, without blanks.
pub open spec fn lines_ink(lines: Seq<Seq<SpanView>>) -> Seq<char>
    decreases lines.len(),
{
    if lines.len() == 0 {
        seq![]
    } else {
        lines_ink(lines.drop_last()) + line_ink(lines.last())
    }
}

/// Whether a code block is open after the events.
pub open spec fn in_code(events: Seq<MdView>) -> bool
    decreases events.len(),
{
    if events.len() == 0 {
        false
    } else {
        match events.last() {
            MdView::Start(t) => t == "CodeBlock"@ || in_code(events.drop_last()),
            MdView::End(t) => t != "CodeBlock"@ && in_code(events.drop_last()),
            _ => in_code(events.drop_last()),
        }
    }
}

/// What the events say, without blanks: the words of the texts, code as it is
/// written, and a bullet for each item.
pub open spec fn said(events: Seq<MdView>) -> Seq<char>
    decreases events.len(),
{
    if events.len() == 0 {
        seq![]
    } else {
        said(events.drop_last()) + (match events.last() {
            MdView::Text(t) => if in_code(events.drop_last()) {
                ink_all(lines_of(t))
            } else {
                ink_all(all_words(lines_of(t)))
            },
            MdView::Code(t) => ink(t),
            MdView::Start(t) => if t == "Item"@ {
                seq!['\u{2022}']
            } else {
                seq![]
            },
            _ => seq![],
        })
    }
}

/// Whether a code block holds nothing but text.
pub open spec fn code_is_text(events: Seq<MdView>) -> bool {
    forall|k: int|
        0 <= k < events.len() && in_code(#[trigger] events.take(k)) ==> events[k] is Text
            || events[k] == MdView::End("CodeBlock"@)
}

spec fn state_ink(s: MdState) -> Seq<char> {
    lines_ink(s.lines) + line_ink(s.current)
}

proof fn lemma_push_span(spans: Seq<SpanView>, span: SpanView)
    ensures
        line_ink(spans.push(span)) == line_ink(spans) + ink(span.text),
{
    assert(spans.push(span).drop_last() =~= spans);
}

proof fn lemma_push_line(lines: Seq<Seq<SpanView>>, line: Seq<SpanView>)
    ensures
        lines_ink(lines.push(line)) == lines_ink(lines) + line_ink(line),
{
    assert(lines.push(line).drop_last() =~= lines);
}

proof fn lemma_flushed(s: MdState)
    ensures
        state_ink(flushed(s)) == state_ink(s),
        flushed(s).current.len() == 0,
        flushed(s).code == s.code,
        state_ink(separated(flushed(s))) == state_ink(s),
        separated(flushed(s)).code == s.code,
{
    let f = flushed(s);
    if s.current.len() > 0 {
        lemma_push_line(s.lines, s.current);
        assert(line_ink(f.current) =~= Seq::<char>::empty());
        assert(state_ink(f) =~= state_ink(s));
    }
    if f.lines.len() > 0 {
        lemma_push_line(f.lines, Seq::empty());
        assert(line_ink(Seq::<SpanView>::empty()) =~= Seq::<char>::empty());
        assert(state_ink(separated(f)) =~= state_ink(f));
    }
}

proof fn lemma_add_span(s: MdState, text: Seq<char>, style: Style)
    ensures
        state_ink(MdState { current: s.current.push(span_of(text, style)), ..s }) == state_ink(s)
            + ink(text),
{
    lemma_push_span(s.current, span_of(text, style));
    assert(lines_ink(s.lines) + (line_ink(s.current) + ink(text)) =~= (lines_ink(s.lines)
        + line_ink(s.current)) + ink(text));
}

proof fn lemma_pieces_say(s: MdState, pieces: Seq<Seq<char>>, style: Style)
    ensures
        state_ink(place_pieces(s, pieces, style)) == state_ink(s) + ink_all(pieces),
        place_pieces(s, pieces, style).code == s.code,
    decreases pieces.len(),
{
    if pieces.len() == 0 {
        assert(ink_all(pieces) =~= Seq::<char>::empty());
        assert(state_ink(s) + ink_all(pieces) =~= state_ink(s));
    } else {
        let before = place_pieces(s, pieces.drop_last(), style);
        lemma_pieces_say(s, pieces.drop_last(), style);
        lemma_flushed(before);
        let at = if pieces.len() > 1 {
            flushed(before)
        } else {
            before
        };
        lemma_add_span(at, pieces.last(), style);
        assert((state_ink(s) + ink_all(pieces.drop_last())) + ink(pieces.last()) =~= state_ink(s)
            + (ink_all(pieces.drop_last()) + ink(pieces.last())));
    }
}

proof fn lemma_blanks(n: nat)
    ensures
        ink(Seq::new(n, |i: int| ' ')) == Seq::<char>::empty(),
    decreases n,
{
    let s = Seq::new(n, |i: int| ' ');
    if n > 0 {
        lemma_blanks((n - 1) as nat);
        assert(s.drop_last() =~= Seq::new((n - 1) as nat, |i: int| ' '));
    }
}

proof fn lemma_bullet(depth: nat)
    ensures
        ink(bullet(depth)) == seq!['\u{2022}'],
{
    let n: nat = if depth == 0 {
        0
    } else {
        (2 * (depth - 1)) as nat
    };
    let front = Seq::new(n, |i: int| ' ');
    let back = seq!['\u{2022}', ' '];
    lemma_blanks(n);
    lemma_ink_add(front, back);
    assert(back.drop_last() =~= seq!['\u{2022}']);
    assert(seq!['\u{2022}'].drop_last() =~= Seq::<char>::empty());
    assert(ink(Seq::<char>::empty()) == Seq::<char>::empty());
    assert(ink(seq!['\u{2022}']) =~= seq!['\u{2022}']);
    assert(ink(back) =~= seq!['\u{2022}']);
    assert(bullet(depth) =~= front + back);
}

proof fn lemma_code_lines(lines: Seq<Seq<SpanView>>, source: Seq<Seq<char>>)
    ensures
        lines_ink(lines + code_lines(source)) == lines_ink(lines) + ink_all(source),
    decreases source.len(),
{
    if source.len() == 0 {
        assert(lines + code_lines(source) =~= lines);
        assert(ink_all(source) =~= Seq::<char>::empty());
        assert(lines_ink(lines) + ink_all(source) =~= lines_ink(lines));
    } else {
        let last = source.last();
        let line = seq![span_of("  "@ + last, code_style())];
        lemma_code_lines(lines, source.drop_last());
        assert(lines + code_lines(source) =~= (lines + code_lines(source.drop_last())).push(line));
        lemma_push_line(lines + code_lines(source.drop_last()), line);
        reveal_strlit("  ");
        lemma_blanks(2);
        assert("  "@ =~= Seq::new(2, |i: int| ' '));
        lemma_ink_add("  "@, last);
        assert(ink("  "@ + last) =~= ink(last));
        assert(line.drop_last() =~= Seq::<SpanView>::empty());
        assert(line_ink(Seq::<SpanView>::empty()) =~= Seq::<char>::empty());
        assert(line_ink(line) =~= ink(last));
        assert((lines_ink(lines) + ink_all(source.drop_last())) + ink(last) =~= lines_ink(lines) + (
        ink_all(source.drop_last()) + ink(last)));
    }
}

proof fn lemma_break()
    ensures
        ink(" "@) == Seq::<char>::empty(),
{
    reveal_strlit(" ");
    assert(" "@.drop_last() =~= Seq::<char>::empty());
    assert(ink(Seq::<char>::empty()) == Seq::<char>::empty());
}

proof fn lemma_tags()
    ensures
        super::markdown::tag_named("Item"@) is Item,
        super::markdown::tag_named("CodeBlock"@) is CodeBlock,
        forall|t: Seq<char>| (#[trigger] super::markdown::tag_named(t)) is Item ==> t == "Item"@,
        forall|t: Seq<char>|
            (#[trigger] super::markdown::tag_named(t)) is CodeBlock ==> t == "CodeBlock"@,
{
    reveal_strlit("Item");
    reveal_strlit("CodeBlock");
    reveal_strlit("Heading(H1)");
    reveal_strlit("Heading(");
    reveal_strlit("Strong");
    reveal_strlit("Emphasis");
    reveal_strlit("List(");
    assert("Item"@[0] == 'I');
    assert("CodeBlock"@[0] == 'C');
    assert("Heading(H1)"@[0] == 'H');
    assert("Strong"@[0] == 'S');
    assert("Emphasis"@[0] == 'E');
    if crate::text::starts_with("Item"@, "List("@) {
        assert("Item"@.take(5)[0] == 'L');
    }
    if crate::text::starts_with("CodeBlock"@, "Heading("@) {
        assert("CodeBlock"@.take(8)[0] == 'C');
        assert("Heading("@[0] == 'H');
    }
}

proof fn lemma_step_says(s: MdState, events: Seq<MdView>, width: nat)
    requires
        events.len() > 0,
        state_ink(s) == said(events.drop_last()),
        s.code == in_code(events.drop_last()),
        s.code ==> s.current.len() == 0 && (events.last() is Text || events.last() == MdView::End(
            "CodeBlock"@,
        )),
    ensures
        state_ink(md_step(s, events.last(), width)) == said(events),
        md_step(s, events.last(), width).code == in_code(events),
        in_code(events) ==> md_step(s, events.last(), width).current.len() == 0,
{
    lemma_tags();
    lemma_flushed(s);
    assert(said(events.drop_last()) + Seq::<char>::empty() =~= said(events.drop_last()));
    match events.last() {
        MdView::Start(t) => {
            let f = flushed(s);
            lemma_add_span(f, bullet(s.depth), super::style::plain());
            lemma_bullet(s.depth);
        },
        MdView::End(t) => {
            lemma_flushed(MdState { styles: s.styles.drop_last(), ..s });
        },
        MdView::Text(t) => {
            if s.code {
                lemma_code_lines(s.lines, lines_of(t));
                assert(line_ink(s.current) =~= Seq::<char>::empty());
                assert(state_ink(s) =~= lines_ink(s.lines));
                let after = md_step(s, events.last(), width);
                assert(state_ink(after) =~= lines_ink(after.lines));
            } else {
                let pieces = wrapped(t, room(width, spans_width(s.current)));
                lemma_pieces_say(s, pieces, s.styles.last());
                wrapping_keeps_words_and_fits(t, room(width, spans_width(s.current)));
            }
        },
        MdView::Code(t) => {
            lemma_add_span(s, t, code_style());
        },
        MdView::SoftBreak => {
            lemma_add_span(s, " "@, super::style::plain());
            lemma_break();
        },
        MdView::HardBreak => {},
        MdView::Other(_) => {},
    }
}

proof fn lemma_run_says(events: Seq<MdView>, width: nat)
    requires
        code_is_text(events),
    ensures
        state_ink(md_run(events, width)) == said(events),
        md_run(events, width).code == in_code(events),
        in_code(events) ==> md_run(events, width).current.len() == 0,
    decreases events.len(),
{
    if events.len() == 0 {
        assert(state_ink(md_run(events, width)) =~= Seq::<char>::empty());
    } else {
        let before = events.drop_last();
        assert(events.take(events.len() - 1) =~= before);
        assert forall|k: int|
            0 <= k < before.len() && in_code(#[trigger] before.take(k)) implies before[k] is Text
            || before[k] == MdView::End("CodeBlock"@) by {
            assert(before.take(k) =~= events.take(k));
        }
        lemma_run_says(before, width);
        lemma_step_says(md_run(before, width), events, width);
    }
}

/// Rendering drops and adds nothing but blanks, line breaks and a bullet for each
/// item: what the lines say is what the text says, in the same order.
pub proof fn rendering_keeps_the_words(events: Seq<MdView>, width: nat)
    requires
        code_is_text(events),
    ensures
        lines_ink(rendered(events, width)) == said(events),
{
    let s = md_run(events, width);
    lemma_run_says(events, width);
    lemma_flushed(s);
    let f = flushed(s);
    assert(line_ink(f.current) =~= Seq::<char>::empty());
    assert(state_ink(f) =~= lines_ink(f.lines));
}

/// A tag sets the style of the text inside it and no longer: strong text is bold,
/// emphasised text is italic, and both keep what the text around them has; after
/// the tag's end the style is the one before.
pub proof fn tags_style_the_text_inside(s: MdState, text: Seq<char>, width: nat)
    requires
        s.styles.len() > 0,
        !s.code,
    ensures
        ({
            let strong = md_step(s, MdView::Start("Strong"@), width);
            &&& strong.styles.last() == (Style { bold: true, ..s.styles.last() })
            &&& md_step(strong, MdView::End("Strong"@), width) == s
        }),
        ({
            let emphasis = md_step(s, MdView::Start("Emphasis"@), width);
            &&& emphasis.styles.last() == (Style { italic: true, ..s.styles.last() })
            &&& md_step(emphasis, MdView::End("Emphasis"@), width) == s
        }),
        ({
            let first = md_step(s, MdView::Start("Heading(H1)"@), width);
            let second = md_step(s, MdView::Start("Heading(H2)"@), width);
            &&& first.styles.last().bold && first.styles.last().fg == Some(Color::Magenta)
            &&& second.styles.last().bold && second.styles.last().fg == Some(Color::Blue)
            &&& first.current.len() == 0 && second.current.len() == 0
            &&& md_step(first, MdView::End("Heading(H1)"@), width).styles == s.styles
            &&& md_step(second, MdView::End("Heading(H2)"@), width).styles == s.styles
        }),
        ({
            let after = md_step(s, MdView::Text(text), width);
            after.current.len() > s.current.len() || after.lines.len() > s.lines.len()
                ==> after.current.last().style == s.styles.last()
        }),
{
    lemma_style_tags();
    lemma_flushed(s);
    assert(s.styles.push(Style { bold: true, ..s.styles.last() }).drop_last() =~= s.styles);
    assert(s.styles.push(Style { italic: true, ..s.styles.last() }).drop_last() =~= s.styles);
    let first = md_step(s, MdView::Start("Heading(H1)"@), width);
    let second = md_step(s, MdView::Start("Heading(H2)"@), width);
    assert(first.styles.drop_last() =~= s.styles);
    assert(second.styles.drop_last() =~= s.styles);
}

/// The bullet of an item stands two columns further to the right for each list
/// around its own.
pub proof fn inner_items_are_set_in(depth: nat)
    requires
        depth > 0,
    ensures
        bullet(depth).len() == 2 * depth,
        bullet(depth)[2 * (depth - 1)] == '\u{2022}',
        ink(bullet(depth)) == seq!['\u{2022}'],
{
    lemma_bullet(depth);
}

proof fn lemma_style_tags()
    ensures
        super::markdown::tag_named("Strong"@) is Strong,
        super::markdown::tag_named("Emphasis"@) is Emphasis,
        super::markdown::tag_named("Heading(H1)"@) == super::markdown::MdTag::Heading(true),
        super::markdown::tag_named("Heading(H2)"@) == super::markdown::MdTag::Heading(false),
{
    reveal_strlit("Strong");
    reveal_strlit("Emphasis");
    reveal_strlit("Heading(H1)");
    reveal_strlit("Heading(H2)");
    reveal_strlit("Heading(");
    assert("Heading(H2)"@[9] == '2');
    assert("Heading(H1)"@[9] == '1');
    assert("Heading(H2)"@.take("Heading("@.len() as int) =~= "Heading("@);
    assert("Strong"@[0] == 'S');
    assert("Emphasis"@[0] == 'E');
    assert("Heading(H1)"@[0] == 'H');
    if crate::text::starts_with("Emphasis"@, "Heading("@) {
        assert("Emphasis"@.take(8)[0] == 'E');
        assert("Heading("@[0] == 'H');
    }
}

} // verus!

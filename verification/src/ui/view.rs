//! What is shown: the lines of each pane and the places of the boxes above them.

use super::app::App;
use super::markdown::{markdown_events, render_markdown, rendered};
use super::model::{chat_loading, AppView, LineView};
use super::style::{
    dim, error_style, lines_view, notice_style, plain, push_blank, push_line, push_span, push_text,
    selected_style, span_of, spans_view, speaker_style, time_style, title_style, user_style,
    ai_style, Color, Line, Span, SpanView, Style,
};
use super::wrap::{truncate, truncated, word_wrap, wrapped};
use crate::audio::DeviceView;
use crate::llm::client::ChatView;
use crate::llm::templates::TemplateView;
use crate::session::{SessionSummary, Status, SummaryView};
use crate::stt::{format_micros, label_speaker, speaker_label, whole_seconds};
use crate::text::{
    chars_of, clock, concat2, concat3, decimal, decimal_string, join, joined, lines, lines_of,
    owned, string_of, texts,
};
use crate::time::{
    format_stamp, list_format, signed_decimal, signed_string, stamp_text, valid_stamp, Stamp,
};
use vstd::prelude::*;

verus! {

broadcast use vstd::string::group_string_axioms;

// ---------------------------------------------------------------------------
// Parts of lines
// ---------------------------------------------------------------------------

/// One line for each text, all in one style.
pub open spec fn text_lines(parts: Seq<Seq<char>>, style: Style) -> Seq<Seq<SpanView>> {
    parts.map_values(|p: Seq<char>| seq![span_of(p, style)])
}

fn push_texts(out: &mut Vec<Line>, parts: Vec<String>, style: Style)
    ensures
        lines_view(final(out)@) == lines_view(old(out)@) + text_lines(texts(parts@), style),
{
    let ghost before = lines_view(out@);
    let ghost all = texts(parts@);
    let mut i: usize = 0;
    assert(before + text_lines(all.take(0), style) =~= before);
    while i < parts.len()
        invariant
            i <= parts@.len(),
            all == texts(parts@),
            lines_view(out@) == before + text_lines(all.take(i as int), style),
        decreases parts@.len() - i,
    {
        push_text(out, parts[i].clone(), style);
        proof {
            assert(all.take(i + 1) =~= all.take(i as int).push(all[i as int]));
            assert(text_lines(all.take(i + 1), style) =~= text_lines(all.take(i as int), style).push(
                seq![span_of(all[i as int], style)],
            ));
            assert(lines_view(out@) =~= before + text_lines(all.take(i + 1), style));
        }
        i += 1;
    }
    assert(all.take(i as int) =~= all);
}

/// A text of the same character throughout.
pub open spec fn repeated(c: char, n: nat) -> Seq<char> {
    Seq::new(n, |i: int| c)
}

/// A text of the same character throughout.
pub fn repeat_char(c: char, n: usize) -> (r: String)
    ensures
        r@ == repeated(c, n as nat),
{
    let mut out = String::new();
    let mut i: usize = 0;
    assert(out@ =~= repeated(c, 0));
    while i < n
        invariant
            i <= n,
            out@ == repeated(c, i as nat),
        decreases n - i,
    {
        out.push(c);
        assert(out@ =~= repeated(c, (i + 1) as nat));
        i += 1;
    }
    out
}

/// The difference, or zero.
pub open spec fn at_least_zero(a: int, b: int) -> nat {
    if a < b {
        0
    } else {
        (a - b) as nat
    }
}

fn minus(a: usize, b: usize) -> (r: usize)
    ensures
        r == at_least_zero(a as int, b as int),
{
    if a < b {
        0
    } else {
        a - b
    }
}

/// The window of a list: as many lines as are available, the last ones, moved up
/// by the scroll position but not beyond the first line.
pub open spec fn window_end(total: nat, available: nat, scroll: nat) -> nat {
    let bottom = at_least_zero(total as int, scroll as int);
    let shown = if available < total {
        available
    } else {
        total
    };
    if bottom < shown {
        shown
    } else {
        bottom
    }
}

/// The part of a list of lines that a pane shows.
pub open spec fn window_of<T>(lines: Seq<T>, available: nat, scroll: nat) -> Seq<T> {
    let end = window_end(lines.len(), available, scroll);
    lines.subrange(at_least_zero(end as int, available as int) as int, end as int)
}

/// The part of a list of lines that a pane of the given height shows.
pub fn windowed(lines: Vec<Line>, available: usize, scroll: usize) -> (r: Vec<Line>)
    ensures
        lines_view(r@) == window_of(lines_view(lines@), available as nat, scroll as nat),
{
    let ghost all = lines@;
    let mut lines = lines;
    let total = lines.len();
    let bottom = minus(total, scroll);
    let shown = if available < total {
        available
    } else {
        total
    };
    let end = if bottom < shown {
        shown
    } else {
        bottom
    };
    let start = minus(end, available);
    lines.truncate(end);
    let out = lines.split_off(start);
    assert(out@ =~= all.subrange(start as int, end as int));
    assert(lines_view(out@) =~= window_of(lines_view(all), available as nat, scroll as nat));
    out
}

/// A pane is filled as far as there are lines, wherever it is scrolled to; not
/// scrolled, it shows the last line.
pub proof fn windows_are_filled<T>(lines: Seq<T>, available: nat, scroll: nat)
    ensures
        window_of(lines, available, scroll).len() == (if available < lines.len() {
            available
        } else {
            lines.len()
        }),
        available > 0 && lines.len() > 0 ==> window_of(lines, available, 0).last() == lines.last(),
        scroll >= lines.len() && available <= lines.len() ==> window_of(lines, available, scroll)
            == lines.take(available as int),
{
    if scroll >= lines.len() && available <= lines.len() {
        assert(window_of(lines, available, scroll) =~= lines.take(available as int));
    }
}

// ---------------------------------------------------------------------------
// Header, status and controls
// ---------------------------------------------------------------------------

/// The name of the program.
pub open spec fn program_title() -> Seq<char> {
    "YOGURT - Meeting Recorder"@
}

/// How the state of the recording is shown.
pub open spec fn indicator(status: Status) -> SpanView {
    match status {
        Status::Recording => span_of(
            "\u{25cf} RECORDING"@,
            Style { fg: Some(Color::Red), bold: true, italic: false, dim: false },
        ),
        Status::Paused => span_of(
            "\u{23f8} PAUSED"@,
            Style { fg: Some(Color::Yellow), bold: true, italic: false, dim: false },
        ),
        Status::Finished => span_of("\u{25cb} FINISHED"@, dim()),
        Status::Idle => span_of("\u{25cb} IDLE"@, dim()),
    }
}

/// The header: the title on the left, the state of the recording on the right,
/// at least a space between them.
pub open spec fn header_spans(status: Status, width: nat) -> Seq<SpanView> {
    let room = at_least_zero(
        width as int,
        (program_title().len() + indicator(status).text.len() + 1) as int,
    );
    seq![
        span_of(program_title(), title_style()),
        span_of(
            repeated(
                ' ',
                if room == 0 {
                    1
                } else {
                    room
                },
            ),
            plain(),
        ),
        indicator(status),
    ]
}

/// The header for a line of the given width.
pub fn header_line(status: Status, width: u16) -> (r: Line)
    ensures
        r@ == header_spans(status, width as nat),
{
    let (text, style) = match status {
        Status::Recording => (
            "\u{25cf} RECORDING",
            Style { fg: Some(Color::Red), bold: true, italic: false, dim: false },
        ),
        Status::Paused => (
            "\u{23f8} PAUSED",
            Style { fg: Some(Color::Yellow), bold: true, italic: false, dim: false },
        ),
        Status::Finished => ("\u{25cb} FINISHED", dim()),
        Status::Idle => ("\u{25cb} IDLE", dim()),
    };
    proof {
        reveal_strlit("YOGURT - Meeting Recorder");
        reveal_strlit("\u{25cf} RECORDING");
        reveal_strlit("\u{23f8} PAUSED");
        reveal_strlit("\u{25cb} FINISHED");
        reveal_strlit("\u{25cb} IDLE");
    }
    let title = "YOGURT - Meeting Recorder";
    let room = minus(width as usize, title.unicode_len() + text.unicode_len() + 1);
    let mut spans: Vec<Span> = Vec::new();
    assert(spans_view(spans@) =~= Seq::<SpanView>::empty());
    push_span(&mut spans, owned(title), title_style());
    push_span(
        &mut spans,
        repeat_char(
            ' ',
            if room == 0 {
                1
            } else {
                room
            },
        ),
        plain(),
    );
    push_span(&mut spans, owned(text), style);
    assert(spans_view(spans@) =~= header_spans(status, width as nat));
    Line { spans }
}

/// The colour of the level meter's field with this number.
pub open spec fn meter_color(i: int) -> Color {
    if i < 5 {
        Color::Green
    } else if i < 7 {
        Color::Yellow
    } else {
        Color::Red
    }
}

/// The level meter: eight fields, filled from the left in proportion to the
/// level, which is in parts of 32768.
pub open spec fn meter_spans(level: nat) -> Seq<SpanView> {
    Seq::new(
        8,
        |i: int|
            if i < level * 8 / 0x8000 {
                span_of(
                    "\u{2584}"@,
                    Style { fg: Some(meter_color(i)), bold: false, italic: false, dim: false },
                )
            } else {
                span_of("\u{2581}"@, dim())
            },
    )
}

fn push_meter(spans: &mut Vec<Span>, level: u32)
    ensures
        spans_view(final(spans)@) == spans_view(old(spans)@) + meter_spans(level as nat),
{
    let ghost before = spans_view(spans@);
    let filled: u64 = level as u64 * 8 / 0x8000;
    let mut i: u64 = 0;
    assert(before + meter_spans(level as nat).take(0) =~= before);
    while i < 8
        invariant
            i <= 8,
            filled == level * 8 / 0x8000,
            spans_view(spans@) == before + meter_spans(level as nat).take(i as int),
        decreases 8 - i,
    {
        if i < filled {
            let color = if i < 5 {
                Color::Green
            } else if i < 7 {
                Color::Yellow
            } else {
                Color::Red
            };
            push_span(
                spans,
                owned("\u{2584}"),
                Style { fg: Some(color), bold: false, italic: false, dim: false },
            );
        } else {
            push_span(spans, owned("\u{2581}"), dim());
        }
        assert(spans_view(spans@) =~= before + meter_spans(level as nat).take(i + 1));
        i += 1;
    }
    assert(meter_spans(level as nat).take(8) =~= meter_spans(level as nat));
}

/// The level meter.
pub fn level_meter(level: u32) -> (r: Vec<Span>)
    ensures
        spans_view(r@) == meter_spans(level as nat),
{
    let mut spans: Vec<Span> = Vec::new();
    assert(spans_view(spans@) =~= Seq::<SpanView>::empty());
    push_meter(&mut spans, level);
    assert(spans_view(spans@) =~= meter_spans(level as nat));
    spans
}

/// No level fills the meter beyond its fields, and a higher one fills no less.
pub proof fn meter_rises_with_the_level(low: nat, high: nat, i: int)
    requires
        low <= high,
        0 <= i < 8,
    ensures
        meter_spans(high).len() == 8,
        meter_spans(low)[i] != span_of("\u{2581}"@, dim()) ==> meter_spans(high)[i] == meter_spans(
            low,
        )[i],
{
    assert(low * 8 / 0x8000 <= high * 8 / 0x8000);
}

/// What the status bar says before the level meter.
pub open spec fn status_text(duration: Seq<char>, words: nat, speakers: nat) -> Seq<char> {
    " Duration: "@ + duration + " \u{2502} Words: "@ + decimal(words) + " \u{2502} Speakers: "@
        + decimal(speakers) + " \u{2502} "@
}

/// The status bar: duration, words and speakers of the live session, and the
/// level.
pub fn status_line(app: &App, words: u64, speakers: u64) -> (r: Line)
    ensures
        r@ == seq![span_of(status_text(app@.rec.duration, words as nat, speakers as nat), plain())]
            + meter_spans(app@.rec.audio_level),
{
    let mut text = concat3(" Duration: ", app.rec.duration.as_str(), " \u{2502} Words: ");
    text.append(decimal_string(words).as_str());
    text.append(" \u{2502} Speakers: ");
    text.append(decimal_string(speakers).as_str());
    text.append(" \u{2502} ");
    assert(text@ =~= status_text(app@.rec.duration, words as nat, speakers as nat));
    let mut spans: Vec<Span> = Vec::new();
    assert(spans_view(spans@) =~= Seq::<SpanView>::empty());
    push_span(&mut spans, text, plain());
    assert(spans_view(spans@) =~= seq![
        span_of(status_text(app@.rec.duration, words as nat, speakers as nat), plain()),
    ]);
    push_meter(&mut spans, app.rec.audio_level);
    Line { spans }
}

/// What closes or opens the chat.
pub open spec fn chat_control(open: bool) -> Seq<char> {
    if open {
        "[Esc] Close Chat"@
    } else {
        "[C]hat"@
    }
}

/// The keys that can be used.
pub open spec fn controls_of(a: AppView) -> Seq<Seq<char>> {
    if a.home.home_mode {
        if a.home.viewing is Some {
            seq!["[Esc] Back"@, "[N]ew Session"@, chat_control(a.chat.open)]
        } else {
            seq![
                "\u{2191}/\u{2193} Navigate"@,
                "[Enter] View"@,
                "[N]ew Session"@,
                "[D]elete"@,
                "[Q]uit"@,
            ]
        }
    } else {
        (match a.rec.status {
            Status::Idle | Status::Finished => seq!["[N]ew Session"@],
            Status::Recording => seq!["[P]ause"@, "[F]inish"@],
            Status::Paused => seq!["[P] Resume"@, "[F]inish"@],
        }) + seq!["[M]ic"@, chat_control(a.chat.open), "[Q]uit"@]
    }
}

fn chat_control_text(open: bool) -> (r: &'static str)
    ensures
        r@ == chat_control(open),
{
    if open {
        "[Esc] Close Chat"
    } else {
        "[C]hat"
    }
}

fn push_part(parts: &mut Vec<String>, part: &str)
    ensures
        texts(final(parts)@) == texts(old(parts)@).push(part@),
{
    let ghost before = texts(parts@);
    parts.push(owned(part));
    assert(texts(parts@) =~= before.push(part@));
}

/// The line of keys that can be used.
pub fn controls_text(app: &App) -> (r: String)
    ensures
        r@ == joined(controls_of(app@), " \u{2502} "@),
{
    let mut parts: Vec<String> = Vec::new();
    assert(texts(parts@) =~= Seq::<Seq<char>>::empty());
    if app.home.home_mode {
        if app.home.viewing.is_some() {
            push_part(&mut parts, "[Esc] Back");
            push_part(&mut parts, "[N]ew Session");
            push_part(&mut parts, chat_control_text(app.chat.open));
        } else {
            push_part(&mut parts, "\u{2191}/\u{2193} Navigate");
            push_part(&mut parts, "[Enter] View");
            push_part(&mut parts, "[N]ew Session");
            push_part(&mut parts, "[D]elete");
            push_part(&mut parts, "[Q]uit");
        }
    } else {
        match app.rec.status {
            Status::Idle | Status::Finished => {
                push_part(&mut parts, "[N]ew Session");
            },
            Status::Recording => {
                push_part(&mut parts, "[P]ause");
                push_part(&mut parts, "[F]inish");
            },
            Status::Paused => {
                push_part(&mut parts, "[P] Resume");
                push_part(&mut parts, "[F]inish");
            },
        }
        push_part(&mut parts, "[M]ic");
        push_part(&mut parts, chat_control_text(app.chat.open));
        push_part(&mut parts, "[Q]uit");
    }
    assert(texts(parts@) =~= controls_of(app@));
    join(&parts, " \u{2502} ")
}

/// The notice line, if the user is told anything.
pub fn notice_line(app: &App) -> (r: Option<Span>)
    ensures
        r is None <==> app@.notice.text.len() == 0,
        r matches Some(s) ==> s@ == span_of(
            app@.notice.text,
            if app@.notice.is_err {
                error_style()
            } else {
                notice_style()
            },
        ),
{
    if app.notice.text.as_str().unicode_len() == 0 {
        return None;
    }
    Some(
        Span {
            text: app.notice.text.clone(),
            style: if app.notice.is_err {
                error_style()
            } else {
                notice_style()
            },
        },
    )
}

// ---------------------------------------------------------------------------
// The live transcript
// ---------------------------------------------------------------------------

/// The first line of a part of the transcript: when, who, and whether it may
/// still change.
pub open spec fn part_head(l: LineView) -> Seq<SpanView> {
    let head = seq![
        span_of("["@ + clock(whole_seconds(l.seg.start_time)) + "]"@, time_style()),
        span_of(" "@, plain()),
        span_of(speaker_label(l.seg.speaker), speaker_style()),
    ];
    if l.partial {
        head.push(span_of(" (partial)"@, dim()))
    } else {
        head
    }
}

/// The texts, each set in by two columns.
pub open spec fn indented(parts: Seq<Seq<char>>) -> Seq<Seq<char>> {
    parts.map_values(|p: Seq<char>| "  "@ + p)
}

/// The lines of a part of the transcript: its head, its text wrapped and set in,
/// and an empty line.
pub open spec fn part_lines(l: LineView, width: nat) -> Seq<Seq<SpanView>> {
    seq![part_head(l)] + text_lines(
        indented(wrapped(l.seg.text, at_least_zero(width as int, 2))),
        if l.partial {
            dim()
        } else {
            plain()
        },
    ) + seq![seq![]]
}

/// The lines of the transcript.
pub open spec fn transcript_of(parts: Seq<LineView>, width: nat) -> Seq<Seq<SpanView>>
    decreases parts.len(),
{
    if parts.len() == 0 {
        seq![]
    } else {
        transcript_of(parts.drop_last(), width) + part_lines(parts.last(), width)
    }
}

fn indent(parts: Vec<String>) -> (r: Vec<String>)
    ensures
        texts(r@) == indented(texts(parts@)),
{
    let ghost all = texts(parts@);
    let mut out: Vec<String> = Vec::new();
    let mut i: usize = 0;
    assert(texts(out@) =~= indented(all.take(0)));
    while i < parts.len()
        invariant
            i <= parts@.len(),
            all == texts(parts@),
            texts(out@) == indented(all.take(i as int)),
        decreases parts@.len() - i,
    {
        let ghost before = texts(out@);
        out.push(concat2("  ", parts[i].as_str()));
        proof {
            assert(texts(out@) =~= before.push("  "@ + all[i as int]));
            assert(texts(out@) =~= indented(all.take(i + 1)));
        }
        i += 1;
    }
    assert(all.take(i as int) =~= all);
    out
}

/// The lines of the live transcript for a pane of the given width.
pub fn transcript_lines(app: &App, width: usize) -> (r: Vec<Line>)
    ensures
        lines_view(r@) == transcript_of(app@.rec.lines, width as nat),
{
    let ghost all = app@.rec.lines;
    let mut out: Vec<Line> = Vec::new();
    let mut i: usize = 0;
    assert(lines_view(out@) =~= transcript_of(all.take(0), width as nat));
    while i < app.rec.lines.len()
        invariant
            i <= app.rec.lines@.len(),
            all == app@.rec.lines,
            lines_view(out@) == transcript_of(all.take(i as int), width as nat),
        decreases app.rec.lines@.len() - i,
    {
        let ghost before = lines_view(out@);
        let l = &app.rec.lines[i];
        assert(l@ == all[i as int]);
        let mut spans: Vec<Span> = Vec::new();
        assert(spans_view(spans@) =~= Seq::<SpanView>::empty());
        push_span(
            &mut spans,
            concat3("[", l.seg.format_timestamp().as_str(), "]"),
            time_style(),
        );
        push_span(&mut spans, owned(" "), plain());
        push_span(&mut spans, label_speaker(l.seg.speaker.as_str()), speaker_style());
        if l.partial {
            push_span(&mut spans, owned(" (partial)"), dim());
        }
        assert(spans_view(spans@) =~= part_head(l@));
        push_line(&mut out, spans);
        let style = if l.partial {
            dim()
        } else {
            plain()
        };
        push_texts(&mut out, indent(word_wrap(l.seg.text.as_str(), minus(width, 2))), style);
        push_blank(&mut out);
        proof {
            assert(all.take(i + 1).drop_last() =~= all.take(i as int));
            assert(all.take(i + 1).last() == l@);
            assert(lines_view(out@) =~= before + part_lines(l@, width as nat));
        }
        i += 1;
    }
    assert(all.take(i as int) =~= all);
    out
}

// ---------------------------------------------------------------------------
// The chat
// ---------------------------------------------------------------------------

/// The lines of a turn: who speaks, what is said, and an empty line.
pub open spec fn turn_lines(m: ChatView, width: nat) -> Seq<Seq<SpanView>> {
    (if m.role == "user"@ {
        seq![seq![span_of("You:"@, user_style())]] + text_lines(wrapped(m.content, width), plain())
    } else {
        seq![seq![span_of("AI:"@, ai_style())]] + rendered(markdown_events(m.content), width)
    }) + seq![seq![]]
}

/// The lines of a conversation.
pub open spec fn turns_of(msgs: Seq<ChatView>, width: nat) -> Seq<Seq<SpanView>>
    decreases msgs.len(),
{
    if msgs.len() == 0 {
        seq![]
    } else {
        turns_of(msgs.drop_last(), width) + turn_lines(msgs.last(), width)
    }
}

/// The lines of the conversation in view, and a last one while a reply is
/// awaited.
pub open spec fn chat_of(a: AppView, width: nat) -> Seq<Seq<SpanView>> {
    let turns = turns_of(a.chat.msgs, width);
    if chat_loading(a) {
        turns.push(seq![span_of("thinking..."@, dim())])
    } else {
        turns
    }
}

/// The lines of the conversation in view for a pane of the given width.
pub fn chat_lines(app: &App, width: usize) -> (r: Vec<Line>)
    ensures
        lines_view(r@) == chat_of(app@, width as nat),
{
    let ghost all = app@.chat.msgs;
    let mut out: Vec<Line> = Vec::new();
    let mut i: usize = 0;
    assert(lines_view(out@) =~= turns_of(all.take(0), width as nat));
    while i < app.chat.msgs.len()
        invariant
            i <= app.chat.msgs@.len(),
            all == app@.chat.msgs,
            lines_view(out@) == turns_of(all.take(i as int), width as nat),
        decreases app.chat.msgs@.len() - i,
    {
        let ghost before = lines_view(out@);
        let m = &app.chat.msgs[i];
        assert(m@ == all[i as int]);
        if crate::text::same(m.role.as_str(), "user") {
            push_text(&mut out, owned("You:"), user_style());
            push_texts(&mut out, word_wrap(m.content.as_str(), width), plain());
        } else {
            push_text(&mut out, owned("AI:"), ai_style());
            let mut reply = render_markdown(m.content.as_str(), width);
            let ghost so_far = out@;
            let ghost tail = reply@;
            out.append(&mut reply);
            assert(out@ =~= so_far + tail);
            assert(lines_view(out@) =~= lines_view(so_far) + lines_view(tail));
        }
        push_blank(&mut out);
        proof {
            assert(all.take(i + 1).drop_last() =~= all.take(i as int));
            assert(all.take(i + 1).last() == m@);
            assert(lines_view(out@) =~= before + turn_lines(m@, width as nat));
        }
        i += 1;
    }
    assert(all.take(i as int) =~= all);
    if app.chat_loading() {
        push_text(&mut out, owned("thinking..."), dim());
    }
    out
}

/// The line between the conversation and the question being written.
pub fn divider_line(width: u16) -> (r: Span)
    ensures
        r@ == span_of(repeated('\u{2500}', width as nat), dim()),
{
    Span { text: repeat_char('\u{2500}', width as usize), style: dim() }
}

// ---------------------------------------------------------------------------
// Stored sessions
// ---------------------------------------------------------------------------

/// What a session is shown as: its title, or its name where it has none.
pub open spec fn shown_name(s: SummaryView) -> Seq<char> {
    if s.title.len() == 0 {
        s.name
    } else {
        s.title
    }
}

fn show_name(s: &SessionSummary) -> (r: String)
    ensures
        r@ == shown_name(s@),
{
    if s.title.as_str().unicode_len() == 0 {
        s.name.clone()
    } else {
        s.title.clone()
    }
}

/// When a session began, where that is known.
pub open spec fn shown_time(at: Option<Stamp>) -> Seq<char> {
    match at {
        Some(t) => stamp_text(t, list_format()),
        None => seq![],
    }
}

/// Whether the time of a session, where known, can be written as a date.
pub open spec fn dated(s: SummaryView) -> bool {
    s.start_time matches Some(t) ==> valid_stamp(t)
}

fn show_time(at: Option<Stamp>) -> (r: String)
    requires
        at matches Some(t) ==> valid_stamp(t),
    ensures
        r@ == shown_time(at),
{
    match at {
        Some(t) => format_stamp(t, "%Y-%m-%d %H:%M"),
        None => super::app::empty(),
    }
}

/// The first line of a stored session's view.
pub open spec fn viewer_head(s: SummaryView) -> Seq<SpanView> {
    seq![
        span_of(shown_name(s), speaker_style()),
        span_of(
            "  "@ + shown_time(s.start_time) + " \u{2022} "@ + clock(whole_seconds(s.duration))
                + " \u{2022} "@ + decimal(s.word_count) + " words"@,
            dim(),
        ),
    ]
}

/// The lines of a stored transcript: each of its lines wrapped, the empty ones
/// kept.
pub open spec fn raw_lines(source: Seq<Seq<char>>, width: nat) -> Seq<Seq<SpanView>>
    decreases source.len(),
{
    if source.len() == 0 {
        seq![]
    } else {
        raw_lines(source.drop_last(), width) + (if source.last().len() == 0 {
            seq![seq![]]
        } else {
            text_lines(wrapped(source.last(), width), plain())
        })
    }
}

/// The view of a stored session.
pub open spec fn viewer_of(s: SummaryView, raw: Seq<char>, width: nat) -> Seq<Seq<SpanView>> {
    seq![viewer_head(s), seq![]] + raw_lines(lines_of(raw), width)
}

/// The lines of a stored session for a pane of the given width.
pub fn viewer_lines(s: &SessionSummary, raw: &str, width: usize) -> (r: Vec<Line>)
    requires
        dated(s@),
    ensures
        lines_view(r@) == viewer_of(s@, raw@, width as nat),
{
    let mut meta = concat3("  ", show_time(s.start_time).as_str(), " \u{2022} ");
    meta.append(format_micros(s.duration).as_str());
    meta.append(" \u{2022} ");
    meta.append(decimal_string(s.word_count).as_str());
    meta.append(" words");
    let mut spans: Vec<Span> = Vec::new();
    assert(spans_view(spans@) =~= Seq::<SpanView>::empty());
    push_span(&mut spans, show_name(s), speaker_style());
    push_span(&mut spans, meta, dim());
    assert(spans_view(spans@) =~= viewer_head(s@));
    let mut out: Vec<Line> = Vec::new();
    assert(lines_view(out@) =~= Seq::<Seq<SpanView>>::empty());
    push_line(&mut out, spans);
    push_blank(&mut out);
    let ghost head = lines_view(out@);
    assert(head =~= seq![viewer_head(s@), seq![]]);
    let chars = chars_of(raw);
    let source = lines(&chars);
    let ghost all = lines_of(raw@);
    assert(source@.map_values(|l: Vec<char>| l@) == all);
    let mut i: usize = 0;
    assert(head + raw_lines(all.take(0), width as nat) =~= head);
    while i < source.len()
        invariant
            i <= source@.len(),
            all == source@.map_values(|l: Vec<char>| l@),
            lines_view(out@) == head + raw_lines(all.take(i as int), width as nat),
        decreases source@.len() - i,
    {
        let ghost before = lines_view(out@);
        assert(source@[i as int]@ == all[i as int]);
        if source[i].len() == 0 {
            push_blank(&mut out);
        } else {
            let line = string_of(&source[i]);
            push_texts(&mut out, word_wrap(line.as_str(), width), plain());
        }
        proof {
            assert(all.take(i + 1).drop_last() =~= all.take(i as int));
            assert(all.take(i + 1).last() == all[i as int]);
            assert(lines_view(out@) =~= head + raw_lines(all.take(i + 1), width as nat));
        }
        i += 1;
    }
    assert(all.take(i as int) =~= all);
    out
}

/// The mark before an item of a list.
pub open spec fn marker(selected: bool) -> Seq<char> {
    if selected {
        "> "@
    } else {
        "  "@
    }
}

/// The style of an item of a list.
pub open spec fn item_style(selected: bool) -> Style {
    if selected {
        selected_style()
    } else {
        plain()
    }
}

fn mark(selected: bool) -> (r: &'static str)
    ensures
        r@ == marker(selected),
{
    if selected {
        "> "
    } else {
        "  "
    }
}

fn style_of_item(selected: bool) -> (r: Style)
    ensures
        r == item_style(selected),
{
    if selected {
        selected_style()
    } else {
        plain()
    }
}

/// What the list says of a session under its name.
pub open spec fn row_meta(s: SummaryView) -> Seq<char> {
    "    "@ + shown_time(s.start_time) + " \u{2022} "@ + clock(whole_seconds(s.duration))
        + " \u{2022} "@ + decimal(s.word_count) + " words \u{2022} "@ + decimal(s.speaker_count)
        + " speakers"@
}

/// The two lines of a session in the list.
pub open spec fn row_lines(s: SummaryView, selected: bool) -> Seq<Seq<SpanView>> {
    seq![
        seq![
            span_of(marker(selected), plain()),
            span_of(truncated(shown_name(s), 35), item_style(selected)),
        ],
        seq![span_of(row_meta(s), dim())],
    ]
}

/// The lines of the first sessions of the list.
pub open spec fn rows_of(sessions: Seq<SummaryView>, at: nat, n: nat) -> Seq<Seq<SpanView>>
    decreases n,
{
    if n == 0 {
        seq![]
    } else {
        rows_of(sessions, at, (n - 1) as nat) + row_lines(sessions[n - 1], n - 1 == at)
    }
}

/// The list of recordings.
pub open spec fn home_of(sessions: Seq<SummaryView>, at: nat) -> Seq<Seq<SpanView>> {
    seq![seq![span_of("Recordings"@, title_style())], seq![]] + (if sessions.len() == 0 {
        seq![seq![span_of("No recordings yet. Press N to start one."@, dim())]]
    } else {
        rows_of(sessions, at, sessions.len())
    })
}

fn push_row(out: &mut Vec<Line>, s: &SessionSummary, selected: bool)
    requires
        dated(s@),
    ensures
        lines_view(final(out)@) == lines_view(old(out)@) + row_lines(s@, selected),
{
    let ghost before = lines_view(out@);
    let mut meta = concat3("    ", show_time(s.start_time).as_str(), " \u{2022} ");
    meta.append(format_micros(s.duration).as_str());
    meta.append(" \u{2022} ");
    meta.append(decimal_string(s.word_count).as_str());
    meta.append(" words \u{2022} ");
    meta.append(decimal_string(s.speaker_count).as_str());
    meta.append(" speakers");
    assert(meta@ =~= row_meta(s@));
    let mut spans: Vec<Span> = Vec::new();
    assert(spans_view(spans@) =~= Seq::<SpanView>::empty());
    push_span(&mut spans, owned(mark(selected)), plain());
    push_span(&mut spans, truncate(show_name(s).as_str(), 35), style_of_item(selected));
    assert(spans_view(spans@) =~= row_lines(s@, selected)[0]);
    push_line(out, spans);
    push_text(out, meta, dim());
    assert(lines_view(out@) =~= before + row_lines(s@, selected));
}

/// The lines of the list of recordings.
pub fn home_lines(app: &App) -> (r: Vec<Line>)
    requires
        forall|i: int| 0 <= i < app@.home.sessions.len() ==> dated(#[trigger] app@.home.sessions[i]),
    ensures
        lines_view(r@) == home_of(app@.home.sessions, app@.home.session_idx),
{
    let ghost all = app@.home.sessions;
    let ghost at = app@.home.session_idx;
    let mut out: Vec<Line> = Vec::new();
    assert(lines_view(out@) =~= Seq::<Seq<SpanView>>::empty());
    push_text(&mut out, owned("Recordings"), title_style());
    push_blank(&mut out);
    let ghost head = lines_view(out@);
    assert(head =~= seq![seq![span_of("Recordings"@, title_style())], seq![]]);
    if app.home.sessions.len() == 0 {
        push_text(&mut out, owned("No recordings yet. Press N to start one."), dim());
        assert(lines_view(out@) =~= home_of(all, at));
        return out;
    }
    let mut i: usize = 0;
    assert(head + rows_of(all, at, 0) =~= head);
    while i < app.home.sessions.len()
        invariant
            i <= app.home.sessions@.len(),
            all == app@.home.sessions,
            at == app.home.session_idx,
            forall|k: int| 0 <= k < all.len() ==> dated(#[trigger] all[k]),
            lines_view(out@) == head + rows_of(all, at, i as nat),
        decreases app.home.sessions@.len() - i,
    {
        assert(app.home.sessions@[i as int]@ == all[i as int]);
        push_row(&mut out, &app.home.sessions[i], i == app.home.session_idx);
        assert(lines_view(out@) =~= head + rows_of(all, at, (i + 1) as nat));
        i += 1;
    }
    out
}

// ---------------------------------------------------------------------------
// Lists to choose from
// ---------------------------------------------------------------------------

/// The lines of the list of microphones.
pub open spec fn mics_of(devices: Seq<DeviceView>, at: nat) -> Seq<Seq<SpanView>> {
    seq![seq![span_of("Select microphone"@, title_style())], seq![]] + Seq::new(
        devices.len(),
        |i: int|
            seq![
                span_of(
                    marker(i == at) + "["@ + signed_decimal(devices[i].index) + "] "@
                        + devices[i].name,
                    item_style(i == at),
                ),
            ],
    ) + seq![
        seq![],
        seq![span_of("\u{2191}/\u{2193} Navigate \u{2022} Enter Select \u{2022} Esc Cancel"@, dim())],
    ]
}

/// The lines of the list of microphones.
pub fn mic_lines(app: &App) -> (r: Vec<Line>)
    ensures
        lines_view(r@) == mics_of(app@.setup.devices, app@.modal.mic_idx),
{
    let ghost all = app@.setup.devices;
    let ghost at = app@.modal.mic_idx;
    let mut out: Vec<Line> = Vec::new();
    assert(lines_view(out@) =~= Seq::<Seq<SpanView>>::empty());
    push_text(&mut out, owned("Select microphone"), title_style());
    push_blank(&mut out);
    assert(lines_view(out@) =~= mics_of(all, at).take(2));
    let mut i: usize = 0;
    while i < app.setup.devices.len()
        invariant
            i <= app.setup.devices@.len(),
            all == app@.setup.devices,
            at == app.modal.mic_idx,
            lines_view(out@) == mics_of(all, at).take(2 + i),
        decreases app.setup.devices@.len() - i,
    {
        let d = &app.setup.devices[i];
        assert(d@ == all[i as int]);
        let selected = i == app.modal.mic_idx;
        let mut text = concat3(mark(selected), "[", signed_string(d.index as i64).as_str());
        text.append("] ");
        text.append(d.name.as_str());
        push_text(&mut out, text, style_of_item(selected));
        assert(lines_view(out@) =~= mics_of(all, at).take(2 + i + 1));
        i += 1;
    }
    push_blank(&mut out);
    push_text(
        &mut out,
        owned("\u{2191}/\u{2193} Navigate \u{2022} Enter Select \u{2022} Esc Cancel"),
        dim(),
    );
    assert(lines_view(out@) =~= mics_of(all, at));
    out
}

/// The lines of the list of questions.
pub open spec fn questions_of(templates: Seq<TemplateView>, at: nat) -> Seq<Seq<SpanView>> {
    Seq::new(
        templates.len(),
        |i: int| seq![span_of(marker(i == at) + templates[i].name, item_style(i == at))],
    ) + seq![seq![], seq![span_of("Enter Ask \u{2022} Esc Close"@, dim())]]
}

/// The lines of the list of questions.
pub fn template_lines(app: &App) -> (r: Vec<Line>)
    ensures
        lines_view(r@) == questions_of(app@.setup.templates, app@.modal.template_idx),
{
    let ghost all = app@.setup.templates;
    let ghost at = app@.modal.template_idx;
    let mut out: Vec<Line> = Vec::new();
    assert(lines_view(out@) =~= questions_of(all, at).take(0));
    let mut i: usize = 0;
    while i < app.setup.templates.len()
        invariant
            i <= app.setup.templates@.len(),
            all == app@.setup.templates,
            at == app.modal.template_idx,
            lines_view(out@) == questions_of(all, at).take(i as int),
        decreases app.setup.templates@.len() - i,
    {
        let t = &app.setup.templates[i];
        assert(t@ == all[i as int]);
        let selected = i == app.modal.template_idx;
        push_text(&mut out, concat2(mark(selected), t.name.as_str()), style_of_item(selected));
        assert(lines_view(out@) =~= questions_of(all, at).take(i + 1));
        i += 1;
    }
    push_blank(&mut out);
    push_text(&mut out, owned("Enter Ask \u{2022} Esc Close"), dim());
    assert(lines_view(out@) =~= questions_of(all, at));
    out
}

/// The question whether to delete the selected session.
pub open spec fn delete_question(a: AppView) -> Seq<char> {
    let name = if a.home.session_idx < a.home.sessions.len() {
        shown_name(a.home.sessions[a.home.session_idx as int])
    } else {
        seq![]
    };
    "Delete \u{201c}"@ + truncated(name, 30) + "\u{201d}?"@
}

/// The question whether to delete the selected session.
pub fn confirm_text(app: &App) -> (r: String)
    ensures
        r@ == delete_question(app@),
{
    let name = if app.home.session_idx < app.home.sessions.len() {
        show_name(&app.home.sessions[app.home.session_idx])
    } else {
        super::app::empty()
    };
    concat3("Delete \u{201c}", truncate(name.as_str(), 30).as_str(), "\u{201d}?")
}

/// The lines of the box that asks whether to delete.
pub open spec fn confirm_of(text: Seq<char>) -> Seq<Seq<SpanView>> {
    seq![
        seq![span_of(text, plain())],
        seq![],
        seq![
            span_of("[Y]es"@, error_style()),
            span_of(" / "@, plain()),
            span_of("[N]o"@, plain()),
        ],
    ]
}

/// The lines of the box that asks whether to delete.
pub fn confirm_lines(text: &str) -> (r: Vec<Line>)
    ensures
        lines_view(r@) == confirm_of(text@),
{
    let mut out: Vec<Line> = Vec::new();
    assert(lines_view(out@) =~= Seq::<Seq<SpanView>>::empty());
    push_text(&mut out, owned(text), plain());
    push_blank(&mut out);
    let mut spans: Vec<Span> = Vec::new();
    assert(spans_view(spans@) =~= Seq::<SpanView>::empty());
    push_span(&mut spans, owned("[Y]es"), error_style());
    push_span(&mut spans, owned(" / "), plain());
    push_span(&mut spans, owned("[N]o"), plain());
    assert(spans_view(spans@) =~= confirm_of(text@)[2]);
    push_line(&mut out, spans);
    assert(lines_view(out@) =~= confirm_of(text@));
    out
}

// ---------------------------------------------------------------------------
// Places on the screen
// ---------------------------------------------------------------------------

/// A rectangle of the screen.
#[derive(Debug, Clone, Copy, PartialEq, Eq, Structural)]
pub struct Area {
    pub x: u16,
    pub y: u16,
    pub width: u16,
    pub height: u16,
}

/// A length that leaves a border of one cell on both sides.
pub open spec fn within(len: int, outer: int) -> nat {
    let most = at_least_zero(outer, 2);
    if len < most {
        len as nat
    } else {
        most
    }
}

/// Where something begins that is centred.
pub open spec fn centred(start: int, outer: int, len: int) -> int {
    start + (outer - len) / 2
}

fn fit_within(len: u16, outer: u16) -> (r: u16)
    ensures
        r == within(len as int, outer as int),
{
    let most: u16 = if outer < 2 {
        0
    } else {
        outer - 2
    };
    if len < most {
        len
    } else {
        most
    }
}

/// A rectangle of at most the given size in the middle of an area.
pub fn centered_rect(area: Area, width: u16, height: u16) -> (r: Area)
    requires
        centred(area.x as int, area.width as int, within(width as int, area.width as int) as int)
            <= u16::MAX,
        centred(area.y as int, area.height as int, within(height as int, area.height as int) as int)
            <= u16::MAX,
    ensures
        r.width == within(width as int, area.width as int),
        r.height == within(height as int, area.height as int),
        r.x == centred(area.x as int, area.width as int, r.width as int),
        r.y == centred(area.y as int, area.height as int, r.height as int),
{
    let w = fit_within(width, area.width);
    let h = fit_within(height, area.height);
    Area {
        x: area.x + (area.width - w) / 2,
        y: area.y + (area.height - h) / 2,
        width: w,
        height: h,
    }
}

/// A box in the middle of an area lies inside it, and leaves as much room on the
/// one side as on the other, to within a cell.
pub proof fn boxes_lie_inside(start: int, outer: nat, len: nat)
    ensures
        ({
            let w = within(len as int, outer as int) as int;
            let at = centred(start, outer as int, w);
            &&& start <= at
            &&& at + w <= start + outer
            &&& 0 <= (start + outer - at - w) - (at - start) <= 1
        }),
{
}

/// The height of the box with the questions.
pub fn template_height(count: usize) -> (r: u16)
    requires
        count % 0x1_0000 + 4 <= u16::MAX,
    ensures
        r == count % 0x1_0000 + 4,
{
    (count % 0x1_0000) as u16 + 4
}

/// The width of the box that asks whether to delete.
pub fn confirm_width(text: &str) -> (r: u16)
    requires
        text@.len() % 0x1_0000 + 6 <= u16::MAX,
    ensures
        r == (if text@.len() % 0x1_0000 + 6 < 24 {
            24
        } else {
            text@.len() % 0x1_0000 + 6
        }),
{
    let w = (text.unicode_len() % 0x1_0000) as u16 + 6;
    if w < 24 {
        24
    } else {
        w
    }
}

/// What fills the screen.
#[derive(Debug, Clone, Copy, PartialEq, Eq, Structural)]
pub enum Screen {
    /// There is no room for anything.
    TooSmall,
    /// The list of microphones.
    Microphones,
    /// The list of recordings.
    Recordings,
    /// A stored session, and the chat beside it or not.
    Viewer { chat: bool },
    /// The live transcript, and the chat beside it or not.
    Live { chat: bool },
}

/// What fills a screen of the given size.
pub open spec fn screen_for(a: AppView, width: nat, height: nat) -> Screen {
    if width < 10 || height < 8 {
        Screen::TooSmall
    } else if a.modal.selecting_mic {
        Screen::Microphones
    } else if !a.home.home_mode {
        Screen::Live { chat: a.chat.open }
    } else if a.home.viewing is Some {
        Screen::Viewer { chat: a.chat.open }
    } else {
        Screen::Recordings
    }
}

/// What fills a screen of the given size.
pub fn screen_of(app: &App, width: u16, height: u16) -> (r: Screen)
    ensures
        r == screen_for(app@, width as nat, height as nat),
{
    if width < 10 || height < 8 {
        Screen::TooSmall
    } else if app.modal.selecting_mic {
        Screen::Microphones
    } else if !app.home.home_mode {
        Screen::Live { chat: app.chat.open }
    } else if app.home.viewing.is_some() {
        Screen::Viewer { chat: app.chat.open }
    } else {
        Screen::Recordings
    }
}

} // verus!

//! What the panes show of what the application holds.

use super::markdown::{markdown_events, rendered};
use super::model::{AppView, LineView};
use super::style::SpanView;
use super::view::{
    chat_of, confirm_of, controls_of, delete_question, header_spans, home_of, meter_spans, mics_of,
    part_lines, questions_of, raw_lines, row_lines, rows_of, screen_for, status_text, transcript_of,
    turn_lines, turns_of, viewer_of, window_of, Screen,
};
use super::wrap::{truncated, wrapped};
use crate::audio::DeviceView;
use crate::llm::client::ChatView;
use crate::llm::templates::TemplateView;
use crate::session::{Status, SummaryView};
use crate::text::{clock, decimal, lines_of};
use vstd::prelude::*;

verus! {

broadcast use vstd::string::group_string_axioms;

/// Whether a line is one text.
pub open spec fn is_text(line: Seq<SpanView>, text: Seq<char>) -> bool {
    line.len() == 1 && line[0].text == text
}

/// Whether a text begins with another.
pub open spec fn begins(s: Seq<char>, front: Seq<char>) -> bool {
    front.len() <= s.len() && s.take(front.len() as int) == front
}

/// Whether a text ends with another.
pub open spec fn ends(s: Seq<char>, back: Seq<char>) -> bool {
    back.len() <= s.len() && s.skip(s.len() - back.len()) == back
}

proof fn lemma_front_back(a: Seq<char>, b: Seq<char>, c: Seq<char>)
    ensures
        begins(a + b + c, a),
        ends(a + b + c, c),
        ends(a + b + c, b + c),
{
    let s = a + b + c;
    assert(s.take(a.len() as int) =~= a);
    assert(s.skip(s.len() - c.len()) =~= c);
    assert(s.skip(s.len() - (b + c).len()) =~= b + c);
}

// ---------------------------------------------------------------------------
// Transcript and chat
// ---------------------------------------------------------------------------

/// A part that is added to the transcript is shown below what is there: a line
/// with the time at which it began, the speaker and, only while it may still
/// change, a remark; its text, set in by two columns; and an empty line.
pub proof fn parts_are_shown_in_turn(parts: Seq<LineView>, l: LineView, width: nat, i: int)
    requires
        width >= 2,
        0 <= i < wrapped(l.seg.text, (width - 2) as nat).len(),
        l.seg.start_time >= 0,
    ensures
        ({
            let n = transcript_of(parts, width).len() as int;
            let text = wrapped(l.seg.text, (width - 2) as nat);
            let all = transcript_of(parts.push(l), width);
            &&& all.len() == n + text.len() + 2
            &&& all.take(n) == transcript_of(parts, width)
            &&& all[n].len() == (if l.partial {
                4int
            } else {
                3
            })
            &&& all[n][0].text == "["@ + clock((l.seg.start_time / 1_000_000) as nat) + "]"@
            &&& l.seg.speaker == "You"@ ==> all[n][2].text == "You"@
            &&& l.seg.speaker.len() > 0 && l.seg.speaker != "You"@ ==> all[n][2].text == "Speaker "@
                + l.seg.speaker
            &&& l.seg.speaker.len() == 0 ==> all[n][2].text == "Unknown"@
            &&& l.partial ==> all[n][3].text == " (partial)"@
            &&& is_text(all[n + 1 + i], "  "@ + text[i])
            &&& all[n + 1 + i][0].style.dim == l.partial
            &&& all.last().len() == 0
        }),
{
    let n = transcript_of(parts, width).len() as int;
    let all = transcript_of(parts.push(l), width);
    assert(parts.push(l).drop_last() =~= parts);
    assert(all == transcript_of(parts, width) + part_lines(l, width));
    assert(all.take(n) =~= transcript_of(parts, width));
    reveal_strlit("You");
}

/// A turn that is added to the conversation is shown below what is there: who
/// speaks, then what is said, the user's words as they are and the assistant's as
/// markdown, and an empty line.
pub proof fn turns_are_shown_in_turn(msgs: Seq<ChatView>, m: ChatView, width: nat)
    ensures
        ({
            let n = turns_of(msgs, width).len() as int;
            let all = turns_of(msgs.push(m), width);
            &&& all.take(n) == turns_of(msgs, width)
            &&& all.last().len() == 0
            &&& m.role == "user"@ ==> {
                let text = wrapped(m.content, width);
                &&& is_text(all[n], "You:"@)
                &&& all.len() == n + text.len() + 2
                &&& forall|i: int|
                    0 <= i < text.len() ==> is_text(all[n + 1 + i], #[trigger] text[i])
            }
            &&& m.role != "user"@ ==> {
                let text = rendered(markdown_events(m.content), width);
                &&& is_text(all[n], "AI:"@)
                &&& all.subrange(n + 1, all.len() - 1) == text
            }
        }),
{
    let n = turns_of(msgs, width).len() as int;
    let all = turns_of(msgs.push(m), width);
    assert(msgs.push(m).drop_last() =~= msgs);
    assert(all == turns_of(msgs, width) + turn_lines(m, width));
    assert(all.take(n) =~= turns_of(msgs, width));
    if m.role != "user"@ {
        assert(all.subrange(n + 1, all.len() - 1) =~= rendered(markdown_events(m.content), width));
    } else {
        let text = wrapped(m.content, width);
        assert forall|i: int| 0 <= i < text.len() implies is_text(
            all[n + 1 + i],
            #[trigger] text[i],
        ) by {
            assert(all[n + 1 + i] == turn_lines(m, width)[1 + i]);
        }
    }
}

/// The chat shows all turns, and one line more if and only if a reply to the
/// conversation in view is awaited.
pub proof fn awaited_replies_are_shown(a: AppView, width: nat)
    ensures
        chat_of(a, width).take(turns_of(a.chat.msgs, width).len() as int) == turns_of(
            a.chat.msgs,
            width,
        ),
        chat_of(a, width).len() == turns_of(a.chat.msgs, width).len() + (if a.chat.pending == Some(
            a.chat.scope,
        ) {
            1int
        } else {
            0
        }),
        a.chat.pending == Some(a.chat.scope) ==> is_text(chat_of(a, width).last(), "thinking..."@),
{
    let turns = turns_of(a.chat.msgs, width);
    assert(chat_of(a, width).take(turns.len() as int) =~= turns);
}

/// Scrolled by a line, a pane shows the line above what it showed, and no longer
/// its last one.
pub proof fn scrolling_moves_by_lines<T>(lines: Seq<T>, available: nat, scroll: nat)
    requires
        0 < available,
        available + scroll < lines.len(),
    ensures
        window_of(lines, available, scroll + 1).drop_first() == window_of(
            lines,
            available,
            scroll,
        ).drop_last(),
        window_of(lines, available, scroll + 1)[0] == lines[lines.len() - available - scroll - 1],
{
    assert(window_of(lines, available, scroll + 1).drop_first() =~= window_of(
        lines,
        available,
        scroll,
    ).drop_last());
}

// ---------------------------------------------------------------------------
// Header, status and controls
// ---------------------------------------------------------------------------

/// The header names the program and tells the state of the recording; where there
/// is room, it fills its line to the column before the last.
pub proof fn headers_tell_the_state(status: Status, width: nat)
    ensures
        header_spans(status, width).len() == 3,
        header_spans(status, width)[0].text == "YOGURT - Meeting Recorder"@,
        status == Status::Recording ==> header_spans(status, width)[2].text
            == "\u{25cf} RECORDING"@,
        status == Status::Paused ==> header_spans(status, width)[2].text == "\u{23f8} PAUSED"@,
        status == Status::Finished ==> header_spans(status, width)[2].text == "\u{25cb} FINISHED"@,
        status == Status::Idle ==> header_spans(status, width)[2].text == "\u{25cb} IDLE"@,
        header_spans(status, width)[1].text.len() >= 1,
        forall|i: int|
            0 <= i < header_spans(status, width)[1].text.len() ==> #[trigger] header_spans(
                status,
                width,
            )[1].text[i] == ' ',
        ({
            let h = header_spans(status, width);
            h[0].text.len() + h[2].text.len() + 1 < width ==> h[0].text.len() + h[1].text.len()
                + h[2].text.len() == width - 1
        }),
{
}

/// A field of the level meter is filled if and only if the level reaches that
/// many eighths of the greatest.
pub proof fn levels_fill_the_meter(level: nat, i: int)
    requires
        0 <= i < 8,
    ensures
        meter_spans(level).len() == 8,
        meter_spans(level)[i].text == (if level * 8 >= (i + 1) * 0x8000 {
            "\u{2584}"@
        } else {
            "\u{2581}"@
        }),
        meter_spans(level)[i].style.dim <==> level * 8 < (i + 1) * 0x8000,
{
    assert(i < level * 8 / 0x8000 <==> level * 8 >= (i + 1) * 0x8000) by {
        vstd::arithmetic::div_mod::lemma_fundamental_div_mod((level * 8) as int, 0x8000);
    }
}

/// The status bar gives the duration, then the words, then the speakers.
pub proof fn the_status_gives_the_counts(duration: Seq<char>, words: nat, speakers: nat)
    ensures
        begins(status_text(duration, words, speakers), " Duration: "@ + duration),
        ends(
            status_text(duration, words, speakers),
            " \u{2502} Words: "@ + decimal(words) + (" \u{2502} Speakers: "@ + decimal(speakers)
                + " \u{2502} "@),
        ),
{
    let front = " Duration: "@ + duration;
    let back = " \u{2502} Words: "@ + decimal(words) + (" \u{2502} Speakers: "@ + decimal(speakers)
        + " \u{2502} "@);
    lemma_front_back(front, Seq::empty(), back);
    assert(status_text(duration, words, speakers) =~= front + Seq::empty() + back);
}

/// While a live session is in view, the keys to pause and to finish are offered
/// while there is something to pause or to finish, and the key to begin otherwise.
pub proof fn keys_are_offered_when_they_work(a: AppView)
    requires
        !a.home.home_mode,
    ensures
        controls_of(a).contains("[P]ause"@) <==> a.rec.status == Status::Recording,
        controls_of(a).contains("[P] Resume"@) <==> a.rec.status == Status::Paused,
        controls_of(a).contains("[F]inish"@) <==> a.rec.status == Status::Recording || a.rec.status
            == Status::Paused,
        controls_of(a).contains("[N]ew Session"@) <==> a.rec.status == Status::Idle || a.rec.status
            == Status::Finished,
        controls_of(a).contains("[C]hat"@) <==> !a.chat.open,
        controls_of(a).contains("[Esc] Close Chat"@) <==> a.chat.open,
        controls_of(a).contains("[Q]uit"@),
        controls_of(a).contains("[M]ic"@),
{
    lemma_keys_differ();
    let c = controls_of(a);
    assert(c.last() == "[Q]uit"@);
    assert(c[c.len() - 2] == "[C]hat"@ || c[c.len() - 2] == "[Esc] Close Chat"@);
    assert(c[c.len() - 3] == "[M]ic"@);
    assert(c[0] == "[N]ew Session"@ || c[0] == "[P]ause"@ || c[0] == "[P] Resume"@);
    assert(c.len() == 5 ==> c[1] == "[F]inish"@);
    assert(c.len() == 4 || c.len() == 5);
}

proof fn lemma_keys_differ()
    ensures
        "[P]ause"@[1] == 'P' && "[P]ause"@[3] == 'a',
        "[P] Resume"@[1] == 'P' && "[P] Resume"@[3] == ' ',
        "[F]inish"@[1] == 'F',
        "[N]ew Session"@[1] == 'N',
        "[C]hat"@[1] == 'C',
        "[Esc] Close Chat"@[1] == 'E',
        "[Q]uit"@[1] == 'Q',
        "[M]ic"@[1] == 'M',
{
    reveal_strlit("[P]ause");
    reveal_strlit("[P] Resume");
    reveal_strlit("[F]inish");
    reveal_strlit("[N]ew Session");
    reveal_strlit("[C]hat");
    reveal_strlit("[Esc] Close Chat");
    reveal_strlit("[Q]uit");
    reveal_strlit("[M]ic");
}

// ---------------------------------------------------------------------------
// Stored sessions
// ---------------------------------------------------------------------------

proof fn lemma_rows(sessions: Seq<SummaryView>, at: nat, n: nat, i: int)
    requires
        0 <= i < n,
    ensures
        rows_of(sessions, at, n).len() == 2 * n,
        rows_of(sessions, at, n)[2 * i] == row_lines(sessions[i], i == at)[0],
        rows_of(sessions, at, n)[2 * i + 1] == row_lines(sessions[i], i == at)[1],
    decreases n,
{
    lemma_rows_len(sessions, at, (n - 1) as nat);
    if i < n - 1 {
        lemma_rows(sessions, at, (n - 1) as nat, i);
    }
}

proof fn lemma_rows_len(sessions: Seq<SummaryView>, at: nat, n: nat)
    ensures
        rows_of(sessions, at, n).len() == 2 * n,
    decreases n,
{
    if n > 0 {
        lemma_rows_len(sessions, at, (n - 1) as nat);
    }
}

/// The list of recordings has two lines for each, in order: its title, or its
/// name where it has none, behind a mark that only the selected one has; and what
/// is known of it.
pub proof fn recordings_are_listed(sessions: Seq<SummaryView>, at: nat, i: int)
    requires
        0 <= i < sessions.len(),
    ensures
        ({
            let list = home_of(sessions, at);
            let s = sessions[i];
            &&& list.len() == 2 + 2 * sessions.len()
            &&& list[2 + 2 * i].len() == 2
            &&& list[2 + 2 * i][0].text == (if i == at {
                "> "@
            } else {
                "  "@
            })
            &&& s.title.len() > 0 ==> list[2 + 2 * i][1].text == truncated(s.title, 35)
            &&& s.title.len() == 0 ==> list[2 + 2 * i][1].text == truncated(s.name, 35)
            &&& list[3 + 2 * i].len() == 1
            &&& s.duration >= 0 ==> ends(
                list[3 + 2 * i][0].text,
                clock((s.duration / 1_000_000) as nat) + (" \u{2022} "@ + decimal(s.word_count)
                    + " words \u{2022} "@ + decimal(s.speaker_count) + " speakers"@),
            )
        }),
{
    let s = sessions[i];
    lemma_rows(sessions, at, sessions.len(), i);
    let front = "    "@ + super::view::shown_time(s.start_time) + " \u{2022} "@;
    let time = clock(crate::stt::whole_seconds(s.duration));
    let back = " \u{2022} "@ + decimal(s.word_count) + " words \u{2022} "@ + decimal(
        s.speaker_count,
    ) + " speakers"@;
    lemma_front_back(front, time, back);
    assert(super::view::row_meta(s) =~= front + time + back);
}

/// Where there is no recording, the list says so.
pub proof fn empty_lists_say_so(at: nat)
    ensures
        home_of(seq![], at).len() == 3,
        is_text(home_of(seq![], at).last(), "No recordings yet. Press N to start one."@),
{
}

proof fn lemma_raw_parts(source: Seq<Seq<char>>, more: Seq<Seq<char>>, width: nat)
    ensures
        raw_lines(source + more, width) == raw_lines(source, width) + raw_lines(more, width),
    decreases more.len(),
{
    if more.len() == 0 {
        assert(source + more =~= source);
        assert(raw_lines(more, width) =~= Seq::<Seq<SpanView>>::empty());
    } else {
        lemma_raw_parts(source, more.drop_last(), width);
        assert((source + more).drop_last() =~= source + more.drop_last());
        assert(raw_lines(source + more, width) =~= raw_lines(source, width) + raw_lines(
            more,
            width,
        ));
    }
}

/// A stored session is shown under its title, or its name where it has none, and
/// then line by line: a line that is not empty is wrapped, an empty one stays.
pub proof fn stored_sessions_are_shown(
    s: SummaryView,
    raw: Seq<char>,
    width: nat,
    before: Seq<Seq<char>>,
    line: Seq<char>,
    after: Seq<Seq<char>>,
)
    requires
        lines_of(raw) == before.push(line) + after,
    ensures
        ({
            let all = viewer_of(s, raw, width);
            let n = 2 + raw_lines(before, width).len() as int;
            &&& all[0][0].text == (if s.title.len() > 0 {
                s.title
            } else {
                s.name
            })
            &&& all[1].len() == 0
            &&& line.len() == 0 ==> all[n].len() == 0
            &&& line.len() > 0 ==> forall|i: int|
                0 <= i < wrapped(line, width).len() ==> is_text(
                    all[n + i],
                    #[trigger] wrapped(line, width)[i],
                )
            &&& all.skip(n + (if line.len() == 0 {
                1
            } else {
                wrapped(line, width).len() as int
            })) == raw_lines(after, width)
        }),
{
    lemma_raw_parts(before.push(line), after, width);
    assert(before.push(line).drop_last() =~= before);
    let all = viewer_of(s, raw, width);
    let n = 2 + raw_lines(before, width).len() as int;
    let used = if line.len() == 0 {
        1
    } else {
        wrapped(line, width).len() as int
    };
    assert(raw_lines(before.push(line), width).len() == n - 2 + used);
    assert(all.skip(n + used) =~= raw_lines(after, width));
    if line.len() > 0 {
        assert forall|i: int| 0 <= i < wrapped(line, width).len() implies is_text(
            all[n + i],
            #[trigger] wrapped(line, width)[i],
        ) by {
            assert(all[n + i] == raw_lines(before.push(line), width)[n - 2 + i]);
        }
    } else {
        assert(all[n] == raw_lines(before.push(line), width)[n - 2]);
    }
}

/// Whoever is asked whether to delete is told what the selected session is shown
/// as in the list.
pub proof fn deletion_names_the_session(a: AppView, text: Seq<char>)
    requires
        a.home.session_idx < a.home.sessions.len(),
    ensures
        ({
            let s = a.home.sessions[a.home.session_idx as int];
            &&& s.title.len() > 0 ==> delete_question(a) == "Delete \u{201c}"@ + truncated(
                s.title,
                30,
            ) + "\u{201d}?"@
            &&& s.title.len() == 0 ==> delete_question(a) == "Delete \u{201c}"@ + truncated(
                s.name,
                30,
            ) + "\u{201d}?"@
        }),
        is_text(confirm_of(text)[0], text),
{
}

// ---------------------------------------------------------------------------
// Lists to choose from
// ---------------------------------------------------------------------------

/// Each microphone has a line, in order, that ends with its name and begins with
/// a mark that only the selected one has.
pub proof fn microphones_are_listed(devices: Seq<DeviceView>, at: nat, i: int)
    requires
        0 <= i < devices.len(),
    ensures
        mics_of(devices, at).len() == devices.len() + 4,
        mics_of(devices, at)[2 + i].len() == 1,
        ends(mics_of(devices, at)[2 + i][0].text, "] "@ + devices[i].name),
        begins(
            mics_of(devices, at)[2 + i][0].text,
            if i == at {
                "> "@
            } else {
                "  "@
            },
        ),
{
    let d = devices[i];
    let front = if i == at {
        "> "@
    } else {
        "  "@
    };
    let middle = "["@ + crate::time::signed_decimal(d.index);
    lemma_front_back(front, middle, "] "@ + d.name);
    assert(mics_of(devices, at)[2 + i][0].text =~= front + middle + ("] "@ + d.name));
}

/// Each question has a line, in order: its name behind a mark that only the
/// selected one has.
pub proof fn questions_are_listed(templates: Seq<TemplateView>, at: nat, i: int)
    requires
        0 <= i < templates.len(),
    ensures
        questions_of(templates, at).len() == templates.len() + 2,
        i == at ==> is_text(questions_of(templates, at)[i], "> "@ + templates[i].name),
        i != at ==> is_text(questions_of(templates, at)[i], "  "@ + templates[i].name),
{
}

/// On a screen with room the list of microphones lies above everything, and the
/// chat beside a session is shown if and only if it is open.
pub proof fn screens_show_what_is_in_view(a: AppView, width: nat, height: nat)
    ensures
        screen_for(a, width, height) == Screen::TooSmall <==> width < 10 || height < 8,
        width >= 10 && height >= 8 ==> {
            let s = screen_for(a, width, height);
            &&& s == Screen::Microphones <==> a.modal.selecting_mic
            &&& s is Live <==> !a.modal.selecting_mic && !a.home.home_mode
            &&& s is Viewer <==> !a.modal.selecting_mic && a.home.home_mode
                && a.home.viewing is Some
            &&& s matches Screen::Live { chat } ==> chat == a.chat.open
            &&& s matches Screen::Viewer { chat } ==> chat == a.chat.open
        },
{
}

} // verus!

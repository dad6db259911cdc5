use yogurt::audio::Device;
use yogurt::config::{Config, Env};
use yogurt::llm::client::ChatMessage;
use yogurt::llm::templates::default_templates;
use yogurt::session::{SessionSummary, Status};
use yogurt::settings::Settings;
use yogurt::stt::Segment;
use yogurt::time::Stamp;
use yogurt::ui::app::{App, SttProfile, TranscriptLine};
use yogurt::ui::markdown::render_markdown;
use yogurt::ui::style::{Color, Line, Span};
use yogurt::ui::view::{
    centered_rect, chat_lines, confirm_lines, confirm_text, confirm_width, controls_text, divider_line,
    header_line, home_lines, level_meter, mic_lines, notice_line, repeat_char, screen_of,
    status_line, template_height, template_lines, transcript_lines, viewer_lines, windowed, Area,
    Screen,
};
use yogurt::ui::wrap::{truncate, word_wrap};

fn text(l: &Line) -> String {
    l.spans.iter().map(|s| s.text.clone()).collect()
}

fn texts(lines: &[Line]) -> Vec<String> {
    lines.iter().map(text).collect()
}

fn app() -> App {
    let env = Env { vars: vec![] };
    let cfg = Config::from_env(&env);
    App::new(
        vec![Device { index: 0, name: "Built-in".into() }, Device { index: 4, name: "USB".into() }],
        cfg,
        env,
        vec![SttProfile {
            id: "a/b".into(),
            label: "b".into(),
            provider: "a".into(),
            model: "b".into(),
        }],
        "/s".into(),
        default_templates(),
        vec![],
        Settings { glossary: String::new() },
        String::new(),
    )
}

fn summary(name: &str, title: &str) -> SessionSummary {
    SessionSummary {
        folder: format!("/s/{name}"),
        name: name.to_string(),
        title: title.to_string(),
        summary: String::new(),
        start_time: Some(Stamp { secs: 1_700_000_000, nanos: 0, offset: 3600 }),
        duration: 65_000_000,
        word_count: 12,
        speaker_count: 2,
    }
}

fn line(s: &str, partial: bool) -> TranscriptLine {
    TranscriptLine {
        seg: Segment {
            text: s.into(),
            speaker: "You".into(),
            start_time: 5_000_000,
            end_time: 6_000_000,
            confidence: 1,
            is_final: !partial,
            created_at: Stamp { secs: 0, nanos: 0, offset: 0 },
        },
        partial,
    }
}

#[test]
fn the_header_fills_the_width() {
    let h = header_line(Status::Idle, 60);
    let t = text(&h);
    assert!(t.starts_with("YOGURT - Meeting Recorder "));
    assert!(t.ends_with("\u{25cb} IDLE"));
    assert_eq!(t.chars().count(), 59);
    let narrow = header_line(Status::Recording, 10);
    assert_eq!(text(&narrow), "YOGURT - Meeting Recorder \u{25cf} RECORDING");
    assert_eq!(narrow.spans[2].style.fg, Some(Color::Red));
    assert!(narrow.spans[2].style.bold);
}

#[test]
fn the_transcript_is_wrapped_and_set_in() {
    let mut a = app();
    a.rec.lines = vec![line("one two three", false), line("four", true)];
    let out = transcript_lines(&a, 11);
    assert_eq!(
        texts(&out),
        vec!["[00:00:05] You", "  one two", "  three", "", "[00:00:05] You (partial)", "  four", ""]
    );
    assert!(out[5].spans[0].style.dim);
    assert!(!out[1].spans[0].style.dim);
}

#[test]
fn windows_show_the_end_and_scroll_up() {
    let lines = |n: usize| -> Vec<Line> {
        (0..n)
            .map(|i| Line {
                spans: vec![Span { text: i.to_string(), style: yogurt::ui::style::plain() }],
            })
            .collect()
    };
    assert_eq!(texts(&windowed(lines(5), 2, 0)), vec!["3", "4"]);
    assert_eq!(texts(&windowed(lines(5), 2, 1)), vec!["2", "3"]);
    assert_eq!(texts(&windowed(lines(5), 2, 99)), vec!["0", "1"]);
    assert_eq!(texts(&windowed(lines(2), 5, 1)), vec!["0", "1"]);
    assert!(windowed(lines(3), 0, 0).is_empty());
}

#[test]
fn the_chat_shows_both_sides() {
    let mut a = app();
    a.chat.msgs = vec![
        ChatMessage { role: "user".into(), content: "why".into() },
        ChatMessage { role: "assistant".into(), content: "**because**".into() },
    ];
    let out = chat_lines(&a, 40);
    assert_eq!(texts(&out), vec!["You:", "why", "", "AI:", "because", ""]);
    assert!(out[4].spans.iter().any(|s| s.style.bold));
}

#[test]
fn markdown_is_rendered() {
    let out = render_markdown("# Title\n\n- one\n- `two`\n", 40);
    let t = texts(&out);
    assert!(t.iter().any(|l| l == "Title"), "{t:?}");
    assert!(t.iter().any(|l| l.contains("one") && !l.contains('-')), "{t:?}");
    assert!(!t.iter().any(|l| l.contains('`')), "{t:?}");
}

#[test]
fn the_list_marks_the_selected_session() {
    let mut a = app();
    assert_eq!(
        texts(&home_lines(&a)),
        vec!["Recordings", "", "No recordings yet. Press N to start one."]
    );
    a.home.sessions = vec![summary("one", ""), summary("two", "Planning")];
    a.home.session_idx = 1;
    assert_eq!(
        texts(&home_lines(&a)),
        vec![
            "Recordings",
            "",
            "  one",
            "    2023-11-14 23:13 \u{2022} 00:01:05 \u{2022} 12 words \u{2022} 2 speakers",
            "> Planning",
            "    2023-11-14 23:13 \u{2022} 00:01:05 \u{2022} 12 words \u{2022} 2 speakers",
        ]
    );
}

#[test]
fn a_stored_session_is_shown() {
    let out = viewer_lines(&summary("one", "Planning"), "first line\n\nsecond", 40);
    assert_eq!(
        texts(&out),
        vec![
            "Planning  2023-11-14 23:13 \u{2022} 00:01:05 \u{2022} 12 words",
            "",
            "first line",
            "",
            "second",
        ]
    );
}

#[test]
fn lists_to_choose_from() {
    let mut a = app();
    a.modal.mic_idx = 1;
    let mics = texts(&mic_lines(&a));
    assert_eq!(mics[0], "Select microphone");
    assert_eq!(mics[2], "  [0] Built-in");
    assert_eq!(mics[3], "> [4] USB");
    let questions = texts(&template_lines(&a));
    assert_eq!(questions[0], "> TL;DR");
    assert_eq!(questions[questions.len() - 1], "Enter Ask \u{2022} Esc Close");
    assert_eq!(template_height(5), 9);
}

#[test]
fn the_status_bar_tells_duration_and_level() {
    let mut a = app();
    a.rec.audio_level = 0x8000;
    let l = status_line(&a, 7, 2);
    assert!(text(&l).starts_with(" Duration: 00:00:00 \u{2502} Words: 7 \u{2502} Speakers: 2 \u{2502} "));
    assert_eq!(l.spans.len(), 9);
    let half = level_meter(0x4000);
    assert_eq!(half.iter().filter(|s| s.text == "\u{2584}").count(), 4);
    assert_eq!(level_meter(0x8000)[7].style.fg, Some(Color::Red));
    assert!(level_meter(0).iter().all(|s| s.text == "\u{2581}"));
}

#[test]
fn the_controls_fit_the_view() {
    let mut a = app();
    assert_eq!(
        controls_text(&a),
        "\u{2191}/\u{2193} Navigate \u{2502} [Enter] View \u{2502} [N]ew Session \u{2502} [D]elete \u{2502} [Q]uit"
    );
    a.home.home_mode = false;
    a.rec.status = Status::Paused;
    assert_eq!(
        controls_text(&a),
        "[P] Resume \u{2502} [F]inish \u{2502} [M]ic \u{2502} [C]hat \u{2502} [Q]uit"
    );
    a.rec.status = Status::Recording;
    a.chat.open = true;
    assert_eq!(
        controls_text(&a),
        "[P]ause \u{2502} [F]inish \u{2502} [M]ic \u{2502} [Esc] Close Chat \u{2502} [Q]uit"
    );
}

#[test]
fn notices_are_styled() {
    let mut a = app();
    assert!(notice_line(&a).is_none());
    a.notice.text = "careful".into();
    assert_eq!(notice_line(&a).unwrap().style.fg, Some(Color::Yellow));
    a.notice.is_err = true;
    assert_eq!(notice_line(&a).unwrap().style.fg, Some(Color::Red));
}

#[test]
fn boxes_are_centred() {
    let r = centered_rect(Area { x: 10, y: 0, width: 80, height: 24 }, 44, 9);
    assert_eq!(r, Area { x: 28, y: 7, width: 44, height: 9 });
    let r = centered_rect(Area { x: 0, y: 0, width: 20, height: 4 }, 44, 9);
    assert_eq!(r, Area { x: 1, y: 1, width: 18, height: 2 });
}

#[test]
fn deleting_is_asked_for_by_name() {
    let mut a = app();
    a.home.sessions = vec![summary("one", "A very long title that does not fit at all")];
    let t = confirm_text(&a);
    assert_eq!(t, "Delete \u{201c}A very long title that does n\u{2026}\u{201d}?");
    assert_eq!(confirm_width(&t), t.chars().count() as u16 + 6);
    assert_eq!(confirm_width("x"), 24);
    assert_eq!(texts(&confirm_lines(&t))[2], "[Y]es / [N]o");
}

#[test]
fn the_screen_shows_what_there_is_room_for() {
    let mut a = app();
    assert_eq!(screen_of(&a, 9, 30), Screen::TooSmall);
    assert_eq!(screen_of(&a, 80, 7), Screen::TooSmall);
    assert_eq!(screen_of(&a, 80, 24), Screen::Recordings);
    a.home.viewing = Some(summary("one", ""));
    a.chat.open = true;
    assert_eq!(screen_of(&a, 80, 24), Screen::Viewer { chat: true });
    a.home.home_mode = false;
    a.chat.open = false;
    assert_eq!(screen_of(&a, 80, 24), Screen::Live { chat: false });
    a.modal.selecting_mic = true;
    assert_eq!(screen_of(&a, 80, 24), Screen::Microphones);
}

#[test]
fn wide_characters_count_twice() {
    assert_eq!(truncate("\u{65e5}\u{672c}\u{8a9e}", 5), "\u{65e5}\u{672c}\u{2026}");
    assert_eq!(truncate("abc", 3), "abc");
    assert_eq!(truncate("abcdef", 4), "abc\u{2026}");
    assert_eq!(truncate(&truncate("abcdef", 4), 4), "abc\u{2026}");
    assert_eq!(truncate("abcdef", 1), "\u{2026}");
    assert_eq!(truncate("abcdef", 0), "\u{2026}");
    assert_eq!(truncate("", 3), "");
    assert_eq!(word_wrap("\u{65e5}\u{672c}\u{8a9e}", 4), vec!["\u{65e5}\u{672c}", "\u{8a9e}"]);
    assert_eq!(word_wrap("one two three", 7), vec!["one two", "three"]);
    assert_eq!(word_wrap("abcdef", 0), vec!["a", "b", "c", "d", "e", "f"]);
    assert_eq!(repeat_char('x', 3), "xxx");
    assert_eq!(divider_line(2).text, "\u{2500}\u{2500}");
}

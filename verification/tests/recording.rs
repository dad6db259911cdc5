use yogurt::audio::mixer::MixMode;
use yogurt::json::{get_text, read_json, Json};
use yogurt::llm::client::{
    check_status, extract_json, first_choice, ChatMessage, LlmClient,
};
use yogurt::session::manager::{
    connect_failure, next_piece, progress, Active, Manager, ManagerConfig, RecoverError,
};
use yogurt::session::stream::{Streamer, SILENT_WARN_CHUNKS, TARGET_SEND_BYTES};
use yogurt::session::{Session, Status};
use yogurt::stt::Segment;
use yogurt::text::{decimal_string, lines, parse_i32, parse_u32, trim, words, chars_of};
use yogurt::time::{add_millis, millis_between, number_of, seconds_string, signed_string, Stamp};

const NOW: Stamp = Stamp { secs: 1_700_000_000, nanos: 0, offset: 0 };

fn manager() -> Manager {
    Manager::new(ManagerConfig {
        stt_provider: "elevenlabs".into(),
        stt_api_key: "k".into(),
        stt_model: "scribe_v1".into(),
        sample_rate: 16000,
        device_index: 1,
        sessions_dir: "/s".into(),
        keyterms: vec!["Datadog".into()],
    })
}

fn start(m: &Manager, current: Option<Status>) -> Result<Active, String> {
    let mut starting = m.start_session_with_stt(
        current, "talk", "elevenlabs", "k", "scribe_v1", &None, NOW)?;
    assert!(starting.wants_tap);
    assert_eq!(starting.keyterms, vec!["Datadog"]);
    starting.tap_opened();
    assert_eq!(starting.channels, 2);
    assert_eq!(starting.mix, Some(MixMode::Stereo));
    Ok(m.recording(starting).0)
}

fn seg(text: &str) -> Segment {
    Segment {
        text: text.into(),
        speaker: "A".into(),
        start_time: 0,
        end_time: 1,
        confidence: 1,
        is_final: true,
        created_at: NOW,
    }
}

#[test]
fn one_recording_at_a_time() {
    let m = manager();
    assert_eq!(start(&m, Some(Status::Recording)).unwrap_err(), "already recording");
    assert!(start(&m, Some(Status::Finished)).is_ok());
}

#[test]
fn a_recording_is_saved_with_its_audio() {
    let m = manager();
    let mut a = start(&m, None).unwrap();
    assert!(a.spool_dir.starts_with("/s/.recovery/"));
    let step = a.on_audio(&[1, 0, 2, 0]);
    assert!(step.record);
    assert!(a.pause());
    assert!(!a.on_audio(&[9, 9]).record);
    assert!(a.resume());
    a.add_segment(seg("hello world"));
    assert_eq!(a.snapshot(NOW).word_count, 2);
    let end = add_millis(NOW, 90_000);
    a.end(end);
    let mut active = Some(a);
    let ended = m.finish(&mut active, Err("late".into()), end).unwrap();
    assert!(active.is_none());
    assert!(m.finish(&mut active, Ok(()), end).is_none());
    assert!(ended.active.spool_dir.starts_with("/s/.recovery/"));
    let (saved, outcome) = ended.saved.unwrap();
    assert_eq!(&saved.wav[44..], &[1, 0, 2, 0]);
    assert_eq!(outcome.word_count, 2);
    assert!(outcome.stt_error.unwrap().contains("late"));
    assert!(saved.transcript.contains("hello world"));
    assert_eq!(saved.folder, "/s/2023-11-14_22-13-20_talk");
}

#[test]
fn an_empty_recording_is_not_saved() {
    let m = manager();
    let mut a = start(&m, None).unwrap();
    a.end(NOW);
    let mut active = Some(a);
    let ended = m.finish(&mut active, Ok(()), NOW).unwrap();
    assert!(ended.saved.is_none());
    assert!(active.is_none());
}

#[test]
fn a_recording_can_be_discarded() {
    let m = manager();
    let a = start(&m, None).unwrap();
    let spool = a.spool_dir.clone();
    let mut active = Some(a);
    assert_eq!(m.cancel(&mut active), Some(spool));
    assert!(active.is_none());
    assert_eq!(m.cancel(&mut active), None);
    assert!(m.finish(&mut active, Ok(()), NOW).is_none());
}

#[test]
fn audio_is_sent_in_pieces() {
    let mut s = Streamer::new();
    let half = vec![1u8; TARGET_SEND_BYTES / 2];
    assert!(s.on_chunk(Status::Recording, &half).send.is_none());
    assert_eq!(s.on_chunk(Status::Recording, &half).send.unwrap().len(), TARGET_SEND_BYTES);
    s.on_chunk(Status::Recording, &[5, 6]);
    assert_eq!(s.finish(), Some(vec![5, 6]));
    assert_eq!(s.finish(), None);
    assert!(s.on_chunk(Status::Finished, &[1, 1]).stop);
}

#[test]
fn long_silence_is_told_once() {
    let mut s = Streamer::new();
    let mut told = 0;
    for _ in 0..3 * SILENT_WARN_CHUNKS {
        if s.on_chunk(Status::Recording, &[0, 0]).notice.is_some() {
            told += 1;
        }
    }
    assert_eq!(told, 1);
}

#[test]
fn spools_are_recovered() {
    let m = manager();
    let starting = m
        .start_session_with_stt(None, "talk", "elevenlabs", "k", "m", &Some("0".into()), NOW)
        .unwrap();
    assert!(!starting.wants_tap);
    let (_, text) = m.recording(starting);
    let meta = read_json(&text).unwrap();
    assert_eq!(m.recover_one(&text, 64000, NOW).unwrap().session.name, "talk-recovered");
    let r = m.recover_value(&meta, 64000, NOW).unwrap();
    assert_eq!(r.session.name, "talk-recovered");
    assert_eq!(r.session.start_time, NOW);
    assert_eq!(r.sample_rate, 16000);
    assert_eq!(r.channels, 1);
    assert_eq!(r.end_time, add_millis(NOW, 2000));
    assert!(matches!(m.recover_value(&meta, 100, NOW), Err(RecoverError::TooShort)));
    let e = m.recover_one("{", 64000, NOW).unwrap_err();
    assert!(matches!(&e, RecoverError::BadMeta(_)));
    assert!(!e.message().is_empty());
    let e = m
        .recover_one("{\"name\":\"x\",\"sample_rate\":0,\"channels\":1}", 64000, NOW)
        .unwrap_err();
    assert!(!e.message().is_empty());
}

#[test]
fn progress_is_told_every_tenth() {
    assert_eq!(progress(0, 5, 100), None);
    assert_eq!(progress(0, 10, 100), Some(10));
    assert_eq!(progress(10, 19, 100), None);
    assert_eq!(progress(10, 100, 100), Some(100));
    assert_eq!(next_piece(10, 4, 3), 7);
    assert_eq!(next_piece(10, 9, 3), 10);
    assert_eq!(connect_failure("x", "no"), "connect to STT (x): no");
}

#[test]
fn sessions_have_plain_folder_names() {
    let s = Session::new("Q1: r\u{e9}view", Stamp { offset: -7200, ..NOW });
    assert_eq!(s.folder_name(), "2023-11-14_20-13-20_Q1__r_view");
    assert_eq!(s.id, "1700000000000000000");
    let unnamed = Session::new("", NOW);
    assert_eq!(unnamed.folder_name(), "2023-11-14_22-13-20");
    assert_eq!(unnamed.duration_formatted(add_millis(NOW, 3_725_000)), "01:02:05");
    let meta = Json::Object(s.to_metadata(NOW));
    assert_eq!(get_text(&meta, "end_time").unwrap(), "2023-11-14T20:13:20-02:00");
}

#[test]
fn moments_are_counted() {
    let later = add_millis(NOW, 1_234);
    assert_eq!(millis_between(NOW, later), 1_234);
    assert_eq!(millis_between(later, NOW), -1_234);
    assert_eq!(number_of(NOW), 1_700_000_000_000_000_000);
    assert_eq!(seconds_string(61_500), "61.5");
    assert_eq!(signed_string(-42), "-42");
}

#[test]
fn texts_are_taken_apart() {
    assert_eq!(trim(" \u{a0}x y\n"), "x y");
    assert_eq!(parse_u32("+42"), Some(42));
    assert_eq!(parse_u32("-1"), None);
    assert_eq!(parse_i32("-7"), Some(-7));
    assert_eq!(parse_i32("7x"), None);
    assert_eq!(decimal_string(1200), "1200");
    assert_eq!(lines(&chars_of("a\r\n\nb\n")).len(), 3);
    assert_eq!(words(&chars_of("  one\ttwo ")).len(), 2);
}

#[test]
fn requests_to_the_language_model() {
    let c = LlmClient::new("gemini", "key", "gemini-2.0-flash");
    assert!(c.url().ends_with("/chat/completions"));
    assert_eq!(c.authorization(), "Bearer key");
    let history = vec![ChatMessage { role: "user".into(), content: "earlier".into() }];
    let msgs = c.ask("system text", &history, "now");
    assert_eq!(msgs.len(), 3);
    assert_eq!(msgs[0].role, "system");
    assert_eq!(msgs[2].content, "now");
    let body = c.complete(&msgs, true);
    assert_eq!(get_text(&body, "model").unwrap(), "gemini-2.0-flash");
    assert_eq!(c.generate_meta("").unwrap_err(), "transcript is empty");
    assert!(c.generate_meta("hello").unwrap()[0].content.ends_with("Transcript:\nhello"));
}

#[test]
fn the_glossary_precedes_the_prompt() {
    let c = LlmClient::new("openai", "k", "m").with_glossary(Some("Terms: Datadog".into()));
    let msgs = c.ask("S", &[], "q");
    assert_eq!(msgs[0].content, "Terms: Datadog\n\nS");
}

#[test]
fn replies_of_the_language_model() {
    assert!(check_status(200, "").is_ok());
    assert_eq!(check_status(500, "oops").unwrap_err(), "chat completion: HTTP 500: oops");
    assert_eq!(first_choice(vec![Some("hi".into())]).unwrap(), "hi");
    assert_eq!(first_choice(vec![]).unwrap_err(), "no choices returned");
    assert_eq!(first_choice(vec![None]).unwrap_err(), "no choices returned");
    assert_eq!(extract_json("```json\n{\"a\": {}}\n```"), "{\"a\": {}}");
    assert_eq!(extract_json("nothing"), "nothing");
}

#[test]
fn files_are_sent_whole_and_saved() {
    let m = manager();
    let pcm: Vec<u8> = (0..(2 * TARGET_SEND_BYTES + 10)).map(|i| (i % 251) as u8).collect();
    let mut run = m.transcribe_file("standup", pcm.clone(), 22050, NOW);
    assert_eq!(run.session.status, Status::Recording);
    let mut sent = Vec::new();
    let mut pieces = 0;
    while let Some(chunk) = run.next_chunk() {
        assert!(chunk.len() <= TARGET_SEND_BYTES);
        sent.extend(chunk);
        pieces += 1;
    }
    assert_eq!(pieces, 3);
    assert_eq!(sent, pcm);
    run.session.transcript.add_segment(seg("done"));
    let end = add_millis(NOW, 5_000);
    let saved = m.finish_file(&mut run, end, end);
    assert_eq!(run.session.status, Status::Finished);
    assert_eq!(&saved.wav[44..], &pcm[..]);
    assert_eq!(u32::from_le_bytes([saved.wav[24], saved.wav[25], saved.wav[26], saved.wav[27]]), 22050);
    assert_eq!(saved.folder, "/s/2023-11-14_22-13-20_standup");
    assert!(saved.transcript.contains("done"));
}

#[test]
fn recovered_audio_is_sent_in_larger_pieces() {
    let m = manager();
    let meta = "{\"name\":\"x\",\"sample_rate\":16000,\"channels\":2}";
    let r = m.recover_one(meta, 128_000, NOW).unwrap();
    let mut run = r.run(vec![0u8; 128_000]);
    assert_eq!(run.next_chunk().unwrap().len(), 2 * TARGET_SEND_BYTES);
    assert_eq!(run.channels, 2);
}

#[test]
fn leap_seconds_are_counted_within_a_day() {
    // The leap second after 12:29:59, and that at the end of a day.
    let noon = Stamp { secs: 1_483_228_800 + 44_999, nanos: 1_500_000_000, offset: 0 };
    let next = Stamp { secs: noon.secs + 1, nanos: 0, offset: 0 };
    assert_eq!(millis_between(noon, next), 500);
    assert_eq!(millis_between(next, noon), -500);
    let midnight = Stamp { secs: 1_483_228_799, nanos: 1_500_000_000, offset: 0 };
    let after = Stamp { secs: 1_483_228_800, nanos: 0, offset: 0 };
    assert_eq!(millis_between(midnight, after), -500);
    assert_eq!(millis_between(midnight, midnight), 0);

    assert_eq!(add_millis(midnight, 499), Stamp { nanos: 1_999_000_000, ..midnight });
    assert_eq!(add_millis(midnight, 500), after);
    assert_eq!(add_millis(midnight, 1_000), Stamp { nanos: 500_000_000, ..after });
}

#[test]
fn whitespace_is_that_of_unicode() {
    for c in ['\t', '\u{b}', '\r', ' ', '\u{85}', '\u{1680}', '\u{2009}', '\u{2028}', '\u{3000}'] {
        assert_eq!(trim(&format!("{c}x{c}")), "x");
    }
    for c in ['\u{1c}', '\u{200b}', '\u{feff}'] {
        assert_eq!(trim(&format!("{c}x")), format!("{c}x"));
    }
}

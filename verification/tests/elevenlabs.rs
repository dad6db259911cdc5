use yogurt::audio::opus_enc::{ogg_opus_file, plan_opus};
use yogurt::audio::pcm::split_channel;
use yogurt::stt::elevenlabs::{
    audio_payload, check_status, deliver, merge_channels, silence_cut_point, upload_body, ClosePlan,
    Delivery, ElevenLabsClient, DEFAULT_LIVE_SECS,
};
use yogurt::stt::utterances::{sort_segments, to_segments, ElWord, ElevenLabsResponse};
use yogurt::stt::Segment;
use yogurt::time::Stamp;

const NOW: Stamp = Stamp { secs: 1_700_000_000, nanos: 0, offset: 0 };

fn tone(frames_ms: usize, amp: i16, rate: u32) -> Vec<u8> {
    let samples = rate as usize / 1000 * frames_ms;
    let mut out = Vec::with_capacity(samples * 2);
    for i in 0..samples {
        let v = if i % 2 == 0 { amp } else { -amp };
        out.extend_from_slice(&v.to_le_bytes());
    }
    out
}

#[test]
fn cuts_at_trailing_silence() {
    let rate = 16000;
    let mut pcm = tone(9000, 8000, rate); // 9s loud speech
    let silence_start = pcm.len();
    pcm.extend(tone(500, 0, rate)); // 0.5s silence
    pcm.extend(tone(500, 8000, rate)); // 0.5s speech again
    let cut = silence_cut_point(&pcm, rate, 1);
    assert!(
        cut > silence_start && cut < silence_start + rate as usize,
        "cut {cut} not inside silence at {silence_start}"
    );
    assert_eq!(cut % 2, 0);
}

#[test]
fn continuous_speech_keeps_everything() {
    let rate = 16000;
    let pcm = tone(10000, 8000, rate);
    assert_eq!(silence_cut_point(&pcm, rate, 1), pcm.len());
}

#[test]
fn split_channel_extracts_interleaved() {
    // Frames: L=1, R=2 repeated
    let mut pcm = Vec::new();
    for _ in 0..4 {
        pcm.extend_from_slice(&1i16.to_le_bytes());
        pcm.extend_from_slice(&2i16.to_le_bytes());
    }
    let left = split_channel(&pcm, 0, 2);
    let right = split_channel(&pcm, 1, 2);
    assert!(left.chunks_exact(2).all(|c| i16::from_le_bytes([c[0], c[1]]) == 1));
    assert!(right.chunks_exact(2).all(|c| i16::from_le_bytes([c[0], c[1]]) == 2));
    assert_eq!(left.len(), pcm.len() / 2);
}

/// The audio in an Ogg-Opus file, each frame's packet a stand-in for the
/// encoder's.
fn opus(pcm: &[u8], rate: u32, channels: u16) -> Option<Vec<u8>> {
    let plan = plan_opus(pcm, rate, channels).ok()?;
    let packets: Vec<Vec<u8>> = plan.frames.iter().map(|_| vec![0xf8u8; 60]).collect();
    ogg_opus_file(&packets, 312, rate, channels).ok()
}

#[test]
fn payload_prefers_opus_and_falls_back_to_wav() {
    let pcm = tone(1000, 4000, 16000);
    let p = audio_payload(&pcm, 16000, 1, opus(&pcm, 16000, 1));
    assert_eq!(p.filename, "audio.ogg");
    assert!(p.bytes.len() < pcm.len() / 4);

    let p = audio_payload(&pcm, 44100, 1, opus(&pcm, 44100, 1));
    assert_eq!(p.filename, "audio.wav");
    assert_eq!(&p.bytes[0..4], b"RIFF");
}

#[test]
fn the_upload_names_model_and_file() {
    let p = audio_payload(&[0, 0, 1, 0], 16000, 1, None);
    let body = upload_body(&p, "scribe_v1", &["Datadog".to_string()], false);
    let text = String::from_utf8_lossy(&body).to_string();
    assert!(text.contains("scribe_v1"));
    assert!(text.contains("filename=\"audio.wav\""));
    assert!(text.contains("Datadog"));
    assert!(text.contains("RIFF"));
}

#[test]
fn failed_uploads_are_reported() {
    assert!(check_status(200, "").is_ok());
    let e = check_status(401, "denied").unwrap_err();
    assert!(e.contains("401") && e.contains("denied"), "{e}");
}

fn word(text: &str, start: i64, end: i64, speaker: &str) -> ElWord {
    ElWord {
        text: text.into(),
        kind: "word".into(),
        start,
        end,
        speaker_id: speaker.into(),
    }
}

fn talk() -> ElevenLabsResponse {
    let mut space = word(" ", 500_000, 600_000, "speaker_0");
    space.kind = "spacing".into();
    ElevenLabsResponse {
        text: String::new(),
        words: vec![
            word("hello", 0, 500_000, "speaker_0"),
            space,
            word("there", 600_000, 800_000, "speaker_0"),
            word("hi", 700_000, 900_000, "speaker_1"),
            word("again", 4_000_000, 4_500_000, "speaker_0"),
        ],
    }
}

#[test]
fn words_in_a_row_of_one_speaker_are_grouped() {
    let segs = to_segments(&talk(), false, NOW);
    let got: Vec<(&str, &str)> =
        segs.iter().map(|s| (s.speaker.as_str(), s.text.as_str())).collect();
    assert_eq!(got, vec![("A", "hello there"), ("B", "hi"), ("A", "again")]);
    assert_eq!(segs[0].start_time, 0);
    assert_eq!(segs[0].end_time, 800_000);
}

#[test]
fn channels_are_grouped_apart_and_by_pause() {
    let segs = to_segments(&talk(), true, NOW);
    let got: Vec<(&str, &str)> =
        segs.iter().map(|s| (s.speaker.as_str(), s.text.as_str())).collect();
    assert_eq!(got, vec![("You", "hello there"), ("A", "hi"), ("You", "again")]);
}

#[test]
fn a_response_without_words_is_one_segment() {
    let resp = ElevenLabsResponse { text: "all of it".into(), words: vec![] };
    let segs = to_segments(&resp, false, NOW);
    assert_eq!(segs.len(), 1);
    assert_eq!(segs[0].text, "all of it");
    assert!(to_segments(&resp, true, NOW).is_empty());
}

fn segment(text: &str, speaker: &str, start: i64) -> Segment {
    Segment {
        text: text.into(),
        speaker: speaker.into(),
        start_time: start,
        end_time: start + 1,
        confidence: 1_000_000,
        is_final: true,
        created_at: NOW,
    }
}

#[test]
fn sorting_keeps_the_order_of_equal_starts() {
    let sorted = sort_segments(vec![
        segment("c", "A", 7),
        segment("a", "A", 3),
        segment("b", "B", 3),
    ]);
    let texts: Vec<&str> = sorted.iter().map(|s| s.text.as_str()).collect();
    assert_eq!(texts, vec!["a", "b", "c"]);
}

#[test]
fn channels_are_merged_in_time() {
    let merged = merge_channels(
        vec![segment("first", "You", 0)],
        5_000_000,
        &[segment("tail", "You", 1_000_000), segment("other", "A", 1_000_000)],
        vec![segment("remote", "A", 3_000_000)],
    );
    let texts: Vec<&str> = merged.iter().map(|s| s.text.as_str()).collect();
    assert_eq!(texts, vec!["first", "remote", "tail"]);
    assert_eq!(merged[2].start_time, 6_000_000);
    assert_eq!(merged[2].speaker, "You");
}

#[test]
fn a_closed_client_delivers_once() {
    let mut c = ElevenLabsClient::new("key", 16000, 1, "scribe_v1", vec![], &None, 0);
    c.connect(0);
    assert!(matches!(c.close(), ClosePlan::Nothing));
    assert!(matches!(c.close(), ClosePlan::Closed));
}

#[test]
fn live_windows_and_close_cover_the_audio() {
    let mut c = ElevenLabsClient::new("key", 16000, 1, "scribe_v1", vec![], &None, 0);
    c.connect(0);
    let pcm = tone(10_000, 8000, 16000);
    let early = c.send_audio(&pcm, 1);
    assert!(early.is_none());
    let window = c.maybe_flush_live(DEFAULT_LIVE_SECS * 1000).unwrap();
    assert_eq!(window.start, 0);
    assert_eq!(window.bytes, pcm);
    assert!(c.maybe_flush_live(DEFAULT_LIVE_SECS * 2000).is_none());
    let out = c.window_done(window.start, window.bytes.len(), Ok(vec![segment("live", "A", 0)]));
    assert_eq!(out.segments.len(), 1);
    assert!(out.error.is_none());
    match c.close() {
        ClosePlan::Mono { pcm: whole, replace } => {
            assert_eq!(whole, pcm);
            assert!(replace);
        }
        _ => panic!("expected the whole recording"),
    }
}

#[test]
fn results_are_delivered_in_full() {
    assert!(matches!(deliver(vec![segment("a", "A", 0)], false, true), Delivery::Replace(v) if v.len() == 1));
    assert!(matches!(deliver(vec![segment("a", "A", 0)], false, false), Delivery::Each(v) if v.len() == 1));
}

use yogurt::stt::assemblyai::{
    connect_url, handle_message, on_command, on_read, read_failure, AssemblyAiClient, CommandStep,
    Incoming, Outgoing, ReadStep, SttEvent,
};
use yogurt::stt::local::{make_local_segment, LocalBuffer};
use yogurt::stt::parakeet::{
    check_parakeet, chunk_ranges, parakeet_segments, ParakeetClient, CHUNK_SAMPLES,
};
use yogurt::stt::whisper::{
    check_whisper, resolve_model, whisper_segments, WhisperClient, WhisperPiece,
};
use yogurt::stt::{
    channel_speaker, format_micros, label_speaker, parse_speaker, provider_of, speaker_letter,
    MissingClient, Provider, Segment, SttClient, Transcript,
};
use yogurt::time::Stamp;

const NOW: Stamp = Stamp { secs: 1_700_000_000, nanos: 0, offset: 0 };

fn seg(speaker: &str, text: &str, is_final: bool) -> Segment {
    Segment {
        text: text.into(),
        speaker: speaker.into(),
        start_time: 61_500_000,
        end_time: 62_000_000,
        confidence: 900_000,
        is_final,
        created_at: NOW,
    }
}

#[test]
fn transcripts_collect_final_segments() {
    let mut t = Transcript::new();
    t.add_segment(seg("A", "one", false));
    assert!(t.segments.is_empty());
    assert!(t.partial.is_some());
    t.add_segment(seg("A", "one two", true));
    t.add_segment(seg("B", "three", true));
    t.add_segment(seg("A", "four", true));
    assert_eq!(t.segments.len(), 3);
    assert_eq!(t.word_count(), 4);
    assert_eq!(t.speakers(), vec!["A", "B"]);
    assert!(t.to_plain_text().starts_with("[00:01:01] Speaker A:\none two\n\n"));
}

#[test]
fn speakers_are_labelled() {
    assert_eq!(label_speaker(""), "Unknown");
    assert_eq!(label_speaker("You"), "You");
    assert_eq!(label_speaker("B"), "Speaker B");
    assert_eq!(parse_speaker("speaker_3"), Some(3));
    assert_eq!(parse_speaker("nobody"), None);
    assert_eq!(speaker_letter("speaker_1", 'A'), "B");
    assert_eq!(speaker_letter("x", 'A'), "A");
    assert_eq!(channel_speaker("speaker_0"), "You");
    assert_eq!(format_micros(3_661_000_000), "01:01:01");
    assert_eq!(format_micros(-5), "00:00:00");
}

#[test]
fn providers_go_by_name() {
    assert_eq!(provider_of("elevenlabs"), Provider::ElevenLabs);
    assert_eq!(provider_of("whisper"), Provider::Whisper);
    assert_eq!(provider_of("parakeet"), Provider::Parakeet);
    assert_eq!(provider_of("assemblyai"), Provider::AssemblyAi);
    assert_eq!(provider_of("something"), Provider::AssemblyAi);
}

#[test]
fn missing_clients_say_so() {
    let mut c = MissingClient { name: "whisper".into() };
    assert!(c.connect().unwrap_err().contains("whisper"));
    assert!(c.send_audio(&[0, 0]).is_ok());
    assert!(c.close().is_ok());
}

#[test]
fn turns_become_segments() {
    let event = handle_message(
        "{\"type\":\"Turn\",\"transcript\":\"hello there\",\"end_of_turn\":true,\"words\":[\
         {\"text\":\"hello\",\"start\":1000,\"end\":1400,\"confidence\":0.5},\
         {\"text\":\"there\",\"start\":1500,\"end\":2000,\"confidence\":1.0}]}",
        NOW,
    );
    match event {
        SttEvent::Segment(s) => {
            assert_eq!(s.text, "hello there");
            assert_eq!(s.start_time, 1_000_000);
            assert_eq!(s.end_time, 2_000_000);
            assert_eq!(s.confidence, 750_000);
            assert!(s.is_final);
        }
        _ => panic!("expected a segment"),
    }
    assert!(matches!(handle_message("{\"type\":\"Begin\"}", NOW), SttEvent::Nothing));
    assert!(matches!(handle_message("no json", NOW), SttEvent::Nothing));
}

#[test]
fn the_socket_is_told_the_format() {
    let url = connect_url(16000, "universal-streaming-multilingual");
    assert!(url.starts_with("wss://"));
    assert!(url.contains("sample_rate=16000"));
    assert!(url.contains("universal-streaming-multilingual"));
}

#[test]
fn the_socket_owner_terminates_and_stops() {
    assert_eq!(on_command(false, Outgoing::Audio), (CommandStep::SendAudio, false));
    assert_eq!(on_command(false, Outgoing::Terminate), (CommandStep::SendTerminate, true));
    assert_eq!(on_command(false, Outgoing::Empty), (CommandStep::Read, false));
    assert_eq!(on_read(false, Incoming::Text), ReadStep::Handle);
    assert_eq!(on_read(false, Incoming::Close), ReadStep::Stop);
    assert_eq!(on_read(false, Incoming::Timeout), ReadStep::Continue);
    assert_eq!(on_read(false, Incoming::Failed), ReadStep::Report);
    assert_eq!(on_read(true, Incoming::Failed), ReadStep::Stop);
    assert!(read_failure("gone").ends_with("gone"));
}

#[test]
fn local_models_lie_below_home() {
    assert_eq!(resolve_model("", "/h"), "/h/.yogurt/whisper/ggml-base.bin");
    assert_eq!(resolve_model("path:/m.bin", "/h"), "/m.bin");
    assert!(check_whisper("/m", true, 16000).is_ok());
    assert!(check_whisper("/m", false, 16000).unwrap_err().contains("/m"));
    assert_eq!(
        check_whisper("/m", true, 8000).unwrap_err(),
        "whisper requires 16kHz audio (got 8000Hz)"
    );
    assert!(check_parakeet("/p", &None, 16000).is_err());
}

#[test]
fn local_transcripts_become_segments() {
    let segs = whisper_segments(
        &[
            WhisperPiece { text: " hello ".into(), t0: 100, t1: 250 },
            WhisperPiece { text: "  ".into(), t0: 250, t1: 300 },
        ],
        NOW,
    );
    assert_eq!(segs.len(), 1);
    assert_eq!(segs[0].text, "hello");
    assert_eq!(segs[0].start_time, 1_000_000);
    assert_eq!(segs[0].end_time, 2_500_000);
    let segs = parakeet_segments(&[("first".into(), 240), ("second".into(), 10)], NOW);
    assert_eq!(segs.len(), 2);
    assert!(make_local_segment("  ", 0, 1, NOW).is_none());
}

#[test]
fn long_audio_is_cut_into_chunks() {
    let n = CHUNK_SAMPLES as usize;
    assert_eq!(chunk_ranges(2 * n + 5), vec![(0, n), (n, 2 * n), (2 * n, 2 * n + 5)]);
    assert!(chunk_ranges(0).is_empty());
}

#[test]
fn local_audio_is_handed_out_once() {
    let mut b = LocalBuffer::new();
    b.send_audio(&[1, 2]);
    b.send_audio(&[3, 4]);
    assert_eq!(b.close(), Some(vec![1, 2, 3, 4]));
    assert!(b.close().is_none());
}

#[test]
fn audio_goes_out_only_while_connected() {
    let mut c = AssemblyAiClient::new("k", 16000, "m");
    assert!(!c.sends());
    c.opened();
    assert!(c.sends());
    assert!(c.url().contains("speech_model=m"));
    c.lost();
    assert!(!c.sends());
    assert!(c.close());
    assert!(!c.close());
}

#[test]
fn local_clients_know_their_models() {
    let w = WhisperClient::new(16000, "small", "/h");
    assert_eq!(w.model_path, "/h/.yogurt/whisper/ggml-small.bin");
    assert!(w.connect(true).is_ok());
    assert!(w.connect(false).is_err());
    let p = ParakeetClient::new(16000, "v3", "/h");
    assert_eq!(p.model_path, "/h/.yogurt/parakeet/parakeet-tdt-0.6b-v3");
    let files = vec!["encoder.onnx".to_string(), "decoder_joint.onnx".to_string()];
    assert!(p.connect(&Some(files)).is_ok());
    assert!(p.connect(&Some(vec!["encoder.onnx".to_string()])).is_err());
}

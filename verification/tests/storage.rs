use yogurt::json::{
    field, get_text, get_unsigned, print_json, print_json_line, read_json, try_read_json, Json,
};
use yogurt::llm::client::ChatMessage;
use yogurt::llm::templates::default_templates;
use yogurt::session::storage::{
    ensure_templates_file, load_templates, templates_text, Entry, Storage,
};
use yogurt::session::{Session, Status};
use yogurt::stt::Segment;
use yogurt::time::Stamp;

/// 2023-11-14 22:13:20 UTC.
const NOW: Stamp = Stamp { secs: 1_700_000_000, nanos: 250_000_000, offset: 3600 };

fn seg(speaker: &str, text: &str) -> Segment {
    Segment {
        text: text.into(),
        speaker: speaker.into(),
        start_time: 0,
        end_time: 1_000_000,
        confidence: 1_000_000,
        is_final: true,
        created_at: NOW,
    }
}

#[test]
fn apply_speaker_names_rewrites_files() {
    let storage = Storage::new("/sessions".to_string());
    let mut sess = Session::new("t", NOW);
    sess.transcript.replace_segments(vec![
        seg("You", "hi"),
        seg("A", "hello"),
        seg("B", "hey"),
    ]);
    let saved = storage.save(&sess, &[0u8; 64000], 16000, 1, NOW);

    let names = vec![("A".to_string(), "Daniel".to_string())];
    let renaming = storage.apply_speaker_names(
        sess.transcript.segments,
        &names,
        &Some(saved.metadata),
    );
    assert_eq!(renaming.changed, 1);

    let (txt, meta) = renaming.files.unwrap();
    assert!(txt.contains("Daniel:"), "renamed label in txt: {txt}");
    assert!(txt.contains("Speaker B:"), "unmapped speaker keeps letter");
    assert!(txt.contains("You:"), "You untouched");

    let meta = read_json(&meta).unwrap();
    let speaker_names = field(&meta, "speaker_names").unwrap();
    assert_eq!(get_text(speaker_names, "A").unwrap(), "Daniel");
}

fn chat_msg(role: &str, content: &str) -> ChatMessage {
    ChatMessage {
        role: role.into(),
        content: content.into(),
    }
}

#[test]
fn chat_round_trip_and_forgiving_load() {
    let storage = Storage::new("/sessions".to_string());

    let msgs = vec![chat_msg("user", "hi"), chat_msg("assistant", "hello")];
    let raw = storage.save_chat(&msgs);
    assert!(raw.contains("\"Role\""), "capitalized keys: {raw}");

    let loaded = storage.load_chat(&Some(raw));
    assert_eq!(loaded.len(), 2);
    assert_eq!(loaded[0].role, "user");
    assert_eq!(loaded[1].content, "hello");

    // A missing file and garbage both read as empty.
    assert!(storage.load_chat(&None).is_empty());
    assert!(storage.load_chat(&Some("{not json".to_string())).is_empty());
}

#[test]
fn global_chat_reads_back() {
    let storage = Storage::new("/sessions".to_string());
    assert!(storage.load_global_chat(&None).is_empty());
    let raw = storage.save_chat(&[chat_msg("user", "hey")]);
    assert_eq!(storage.load_global_chat(&Some(raw)).len(), 1);
}

#[test]
fn a_saved_session_is_listed_with_its_values() {
    let storage = Storage::new("/sessions".to_string());
    let mut sess = Session::new("Weekly sync", NOW);
    sess.transcript.replace_segments(vec![seg("A", "one two"), seg("B", "three")]);
    sess.end_time = Some(Stamp { secs: NOW.secs + 61, ..NOW });
    sess.status = Status::Finished;
    let saved = storage.save(&sess, &[0, 0], 16000, 1, NOW);
    assert_eq!(saved.folder, "/sessions/2023-11-14_23-13-20_Weekly_sync");
    assert_eq!(saved.wav.len(), 46);
    let meta = read_json(&saved.metadata).unwrap();
    assert_eq!(get_text(&meta, "start_time").unwrap(), "2023-11-14T23:13:20.250+01:00");

    let entries = vec![Entry {
        name: "2023-11-14_23-13-20_Weekly_sync".to_string(),
        metadata: Some(saved.metadata),
    }];
    let listed = storage.list_sessions(&entries);
    assert_eq!(listed.len(), 1);
    assert_eq!(listed[0].name, "Weekly sync");
    assert_eq!(listed[0].start_time, Some(NOW));
    assert_eq!(listed[0].duration, 61_000_000);
    assert_eq!(listed[0].word_count, 3);
    assert_eq!(listed[0].speaker_count, 2);
    assert_eq!(listed[0].folder, saved.folder);
}

#[test]
fn the_newest_session_comes_first() {
    let storage = Storage::new("/s".to_string());
    let entry = |name: &str| Entry {
        name: name.to_string(),
        metadata: Some(format!("{{\"name\":\"{name}\"}}")),
    };
    let mut entries = vec![
        entry("2024-01-01_00-00-00_a"),
        entry("2024-03-01_00-00-00_c"),
        entry("2024-02-01_00-00-00_b"),
    ];
    entries.push(Entry { name: "2024-04-01_no_metadata".to_string(), metadata: None });
    let names: Vec<String> = storage.list_sessions(&entries).iter().map(|s| s.name.clone()).collect();
    assert_eq!(
        names,
        vec!["2024-03-01_00-00-00_c", "2024-02-01_00-00-00_b", "2024-01-01_00-00-00_a"]
    );
}

#[test]
fn titles_are_added_and_other_members_kept() {
    let storage = Storage::new("/s".to_string());
    let (meta, doc) = storage.save_meta(
        &Some("{\"name\":\"n\",\"word_count\":7}".to_string()),
        "Planning",
        "We planned.",
    );
    let meta = read_json(&meta).unwrap();
    assert_eq!(get_text(&meta, "title").unwrap(), "Planning");
    assert_eq!(get_text(&meta, "summary").unwrap(), "We planned.");
    assert_eq!(get_text(&meta, "name").unwrap(), "n");
    assert_eq!(get_unsigned(&meta, "word_count"), Some(7));
    assert_eq!(doc, "# Planning\n\nWe planned.\n");
}

#[test]
fn missing_transcripts_are_said_to_be_missing() {
    let storage = Storage::new("/s".to_string());
    assert_eq!(storage.load_transcript(None), "(transcript not available)");
    assert_eq!(storage.load_transcript(Some("hi".to_string())), "hi");
}

#[test]
fn templates_read_back() {
    let defaults = default_templates();
    let raw = templates_text(&defaults);
    let loaded = load_templates(&Some(raw)).unwrap();
    assert_eq!(loaded.len(), defaults.len());
    assert_eq!(loaded[0].name, "TL;DR");
    assert_eq!(loaded[4].prompt, defaults[4].prompt);
    assert!(load_templates(&None).is_none());
    assert!(load_templates(&Some("nonsense".to_string())).is_none());
}

#[test]
fn json_is_read_into_values() {
    let j = read_json("{\"a\": [1, 2.50, null], \"b\": {\"c\": \"x\\n\"}, \"d\": true}").unwrap();
    match field(&j, "a").unwrap() {
        Json::Array(v) => {
            assert_eq!(v.len(), 3);
            assert!(matches!(&v[0], Json::Number(n) if n == "1"));
            assert!(matches!(&v[2], Json::Null));
        }
        _ => panic!("expected an array"),
    }
    assert_eq!(get_text(field(&j, "b").unwrap(), "c").unwrap(), "x\n");
    assert!(try_read_json("{").is_err());
}

#[test]
fn values_are_printed_with_sorted_members() {
    let j = Json::Object(vec![
        ("b".to_string(), Json::Text("say \"hi\"\n\u{1}\u{e9}".to_string())),
        ("a".to_string(), Json::Array(vec![Json::Number("7".to_string()), Json::Null])),
    ]);
    assert_eq!(
        print_json_line(&j),
        "{\"a\":[7,null],\"b\":\"say \\\"hi\\\"\\n\\u0001\u{e9}\"}"
    );
    assert_eq!(
        print_json(&j),
        "{\n  \"a\": [\n    7,\n    null\n  ],\n  \"b\": \"say \\\"hi\\\"\\n\\u0001\u{e9}\"\n}"
    );
}

#[test]
fn printed_values_read_back() {
    let j = Json::Object(vec![
        ("text".to_string(), Json::Text("\u{65e5} \\ / \t\u{1f600}".to_string())),
        ("count".to_string(), Json::Number("18446744073709551615".to_string())),
        ("seconds".to_string(), Json::Number("61.25".to_string())),
        ("less".to_string(), Json::Number("-999999999999.999".to_string())),
        ("on".to_string(), Json::Bool(true)),
        ("none".to_string(), Json::Null),
    ]);
    for text in [print_json(&j), print_json_line(&j)] {
        let back = read_json(&text).unwrap();
        assert_eq!(get_text(&back, "text").unwrap(), "\u{65e5} \\ / \t\u{1f600}");
        assert_eq!(get_unsigned(&back, "count"), Some(u64::MAX));
        assert!(matches!(field(&back, "seconds"), Some(Json::Number(n)) if n == "61.25"));
        assert!(matches!(field(&back, "less"), Some(Json::Number(n)) if n == "-999999999999.999"));
        assert!(matches!(field(&back, "on"), Some(Json::Bool(true))));
        assert!(matches!(field(&back, "none"), Some(Json::Null)));
        match back {
            Json::Object(members) => assert_eq!(members.len(), 6),
            _ => panic!("expected an object"),
        }
    }
}

#[test]
fn chats_of_any_length_read_back() {
    let storage = Storage::new("/s".to_string());
    assert_eq!(storage.save_chat(&[]), "[]");
    let msgs: Vec<ChatMessage> =
        (0..5).map(|i| chat_msg("user", &format!("line {i}\n\"quoted\" \u{2026}"))).collect();
    let back = storage.load_chat(&Some(storage.save_chat(&msgs)));
    assert_eq!(back.len(), 5);
    for (a, b) in msgs.iter().zip(&back) {
        assert_eq!(a.role, b.role);
        assert_eq!(a.content, b.content);
    }
}

#[test]
fn the_templates_file_is_written_once() {
    let names = |ts: &[yogurt::llm::templates::Template]| -> Vec<String> {
        ts.iter().map(|t| t.name.clone()).collect()
    };
    for unreadable in [None, Some("nonsense".to_string()), Some("{}".to_string())] {
        let (first, written) = ensure_templates_file(&unreadable);
        assert_eq!(names(&first), names(&default_templates()));
        let (second, again) = ensure_templates_file(&written);
        assert_eq!(names(&second), names(&first));
        assert!(again.is_none());
    }
    let own = Some("[{\"name\":\"Mine\",\"prompt\":\"Do it\"}]".to_string());
    let (templates, written) = ensure_templates_file(&own);
    assert_eq!(names(&templates), ["Mine"]);
    assert!(written.is_none());
}

#[test]
fn a_session_is_listed_after_names_and_title_were_set() {
    let storage = Storage::new("/s".to_string());
    let mut sess = Session::new("Sync", NOW);
    sess.transcript.replace_segments(vec![seg("A", "one two"), seg("B", "three")]);
    sess.end_time = Some(Stamp { secs: NOW.secs + 2, ..NOW });
    let saved = storage.save(&sess, &[0, 0], 16000, 1, NOW);
    let names = vec![
        ("B".to_string(), "Zo\u{eb} \"Z\"".to_string()),
        ("A".to_string(), "Ann".to_string()),
    ];
    let renaming =
        storage.apply_speaker_names(sess.transcript.segments, &names, &Some(saved.metadata));
    let (titled, _) = storage.save_meta(&Some(renaming.files.unwrap().1), "Plan", "Done.");
    let meta = read_json(&titled).unwrap();
    let kept = field(&meta, "speaker_names").unwrap();
    assert_eq!(get_text(kept, "A").unwrap(), "Ann");
    assert_eq!(get_text(kept, "B").unwrap(), "Zo\u{eb} \"Z\"");
    let listed =
        storage.list_sessions(&[Entry { name: "d".to_string(), metadata: Some(titled) }]);
    assert_eq!(listed[0].name, "Sync");
    assert_eq!(listed[0].title, "Plan");
    assert_eq!(listed[0].summary, "Done.");
    assert_eq!(listed[0].start_time, Some(NOW));
    assert_eq!(listed[0].duration, 2_000_000);
    assert_eq!(listed[0].word_count, 3);
    assert_eq!(listed[0].speaker_count, 2);
}

use yogurt::audio::Device;
use yogurt::config::{Config, Env};
use yogurt::llm::client::ChatMessage;
use yogurt::llm::templates::default_templates;
use yogurt::session::{SessionEvent, SessionSummary, Status};
use yogurt::settings::Settings;
use yogurt::stt::Segment;
use yogurt::time::Stamp;
use yogurt::ui::app::{App, SttProfile};
use yogurt::ui::msg::{Action, AppMsg, ChatScope, Key, KeyContext, KeyPress, SaveReport};

fn profile(provider: &str, model: &str) -> SttProfile {
    SttProfile {
        id: format!("{provider}/{model}"),
        label: model.to_string(),
        provider: provider.to_string(),
        model: model.to_string(),
    }
}

fn app() -> App {
    let env = Env {
        vars: vec![
            ("ASSEMBLYAI_API_KEY".to_string(), "a".to_string()),
            ("ELEVENLABS_API_KEY".to_string(), "e".to_string()),
            ("OPENAI_API_KEY".to_string(), "o".to_string()),
        ],
    };
    let cfg = Config::from_env(&env);
    App::new(
        vec![
            Device { index: 0, name: "Built-in".into() },
            Device { index: 4, name: "USB".into() },
        ],
        cfg,
        env,
        vec![
            profile("assemblyai", "universal-streaming-multilingual"),
            profile("elevenlabs", "scribe_v1"),
        ],
        "/s".into(),
        default_templates(),
        vec![],
        Settings { glossary: "Datadog\n".into() },
        String::new(),
    )
}

fn context(chat: &str) -> KeyContext {
    KeyContext {
        chat_lines: vec![chat.to_string()],
        settings_lines: vec!["Telepatia".to_string()],
        live_text: "live words".to_string(),
    }
}

fn press(app: &mut App, key: Key) -> Vec<Action> {
    app.update(AppMsg::Key(KeyPress { key, ctrl: false }, context("")))
}

fn type_in(app: &mut App, key: Key, chat: &str) -> Vec<Action> {
    app.update(AppMsg::Key(KeyPress { key, ctrl: false }, context(chat)))
}

fn summary(name: &str) -> SessionSummary {
    SessionSummary {
        folder: format!("/s/{name}"),
        name: name.to_string(),
        title: String::new(),
        summary: String::new(),
        start_time: None,
        duration: 0,
        word_count: 3,
        speaker_count: 1,
    }
}

fn seg(text: &str, is_final: bool) -> Segment {
    Segment {
        text: text.into(),
        speaker: "A".into(),
        start_time: 0,
        end_time: 1,
        confidence: 1,
        is_final,
        created_at: Stamp { secs: 0, nanos: 0, offset: 0 },
    }
}

#[test]
fn it_begins_with_the_list_of_sessions() {
    let a = app();
    assert!(a.home.home_mode);
    assert_eq!(a.prefs.stt_model, "assemblyai/universal-streaming-multilingual");
    let first = a.kick_initial_load();
    assert!(matches!(first[..], [Action::LoadSessions]));
}

#[test]
fn a_recording_is_started_and_finished() {
    let mut a = app();
    let out = press(&mut a, Key::Char('n'));
    assert!(out.iter().any(|x| matches!(x, Action::StartSession { provider, api_key, .. }
        if provider == "assemblyai" && api_key == "a")));
    assert!(!a.home.home_mode);
    assert!(matches!(a.chat.scope, ChatScope::Live(1)));
    a.update(AppMsg::Session(SessionEvent::Status(Status::Recording)));
    assert!(matches!(press(&mut a, Key::Char('p'))[..], [Action::Pause]));
    assert!(matches!(press(&mut a, Key::Char('f'))[..], [Action::Finish]));
    let out = a.update(AppMsg::SaveResult(SaveReport {
        folder: Some("/s/x".into()),
        transcript: "hello".into(),
        word_count: 1,
        stt_err: None,
        err: None,
    }));
    assert!(out.iter().any(|x| matches!(x, Action::LoadSessions)));
}

#[test]
fn quitting_waits_for_the_recording() {
    let mut a = app();
    press(&mut a, Key::Char('n'));
    a.update(AppMsg::Session(SessionEvent::Status(Status::Recording)));
    assert!(matches!(press(&mut a, Key::Char('q'))[..], [Action::Finish]));
    assert!(a.quitting && !a.should_quit);
    a.update(AppMsg::SaveResult(SaveReport {
        folder: Some("/s/x".into()),
        transcript: String::new(),
        word_count: 0,
        stt_err: None,
        err: None,
    }));
    assert!(a.should_quit);
    let mut b = app();
    press(&mut b, Key::Char('q'));
    assert!(b.should_quit);
}

#[test]
fn partial_lines_give_way_to_final_ones() {
    let mut a = app();
    a.update(AppMsg::Session(SessionEvent::Segment(seg("he", false))));
    a.update(AppMsg::Session(SessionEvent::Segment(seg("hello", false))));
    assert_eq!(a.rec.lines.len(), 1);
    assert!(a.rec.lines[0].partial);
    a.update(AppMsg::Session(SessionEvent::Segment(seg("hello there", true))));
    assert_eq!(a.rec.lines.len(), 1);
    assert!(!a.rec.lines[0].partial);
    assert_eq!(a.rec.lines[0].seg.text, "hello there");
    a.update(AppMsg::Session(SessionEvent::Replace(vec![seg("x", true), seg("y", true)])));
    assert_eq!(a.rec.lines.len(), 2);
    a.update(AppMsg::Session(SessionEvent::Segment(seg("z", false))));
    press(&mut a, Key::Up);
    a.update(AppMsg::Session(SessionEvent::AudioLevel(3)));
    let partial: Vec<bool> = a.rec.lines.iter().map(|l| l.partial).collect();
    assert_eq!(partial, vec![false, false, true]);
}

#[test]
fn deleting_asks_first() {
    let mut a = app();
    a.update(AppMsg::SessionsLoaded(vec![summary("one"), summary("two")]));
    press(&mut a, Key::Down);
    assert!(press(&mut a, Key::Char('d')).is_empty());
    assert!(a.modal.confirm_delete);
    assert!(press(&mut a, Key::Char('n')).is_empty());
    assert!(!a.modal.confirm_delete);
    press(&mut a, Key::Char('d'));
    let out = press(&mut a, Key::Char('y'));
    assert!(out.iter().any(|x| matches!(x, Action::DeleteFolder(f) if f == "/s/two")));
}

#[test]
fn questions_are_asked_and_answered() {
    let mut a = app();
    a.update(AppMsg::SessionsLoaded(vec![summary("one")]));
    let out = press(&mut a, Key::Enter);
    assert!(out.iter().any(|x| matches!(x, Action::LoadTranscript(f) if f == "/s/one")));
    a.transcript_loaded("what was said".into());
    a.chat_loaded(vec![]);
    press(&mut a, Key::Char('c'));
    assert!(a.chat.open);
    let out = type_in(&mut a, Key::Enter, " why? ");
    assert!(out.iter().any(|x| matches!(x, Action::Ask { question, system, .. }
        if question == "why?" && system.contains("what was said"))));
    assert!(a.chat_loading());
    a.update(AppMsg::ChatResponse {
        scope: ChatScope::Session("/s/one".into()),
        content: "because".into(),
        err: None,
        folder_exists: true,
    });
    assert!(!a.chat_loading());
    assert_eq!(a.chat.msgs.len(), 2);
    assert_eq!(a.chat.msgs[1].content, "because");
}

#[test]
fn late_answers_do_not_appear_elsewhere() {
    let mut a = app();
    a.chat_loaded(vec![ChatMessage { role: "user".into(), content: "old".into() }]);
    a.update(AppMsg::ChatResponse {
        scope: ChatScope::Session("/s/gone".into()),
        content: "late".into(),
        err: None,
        folder_exists: true,
    });
    assert_eq!(a.chat.msgs.len(), 1);
}

#[test]
fn leaving_a_conversation_stores_it() {
    let mut a = app();
    a.update(AppMsg::SessionsLoaded(vec![summary("one")]));
    a.chat_loaded(vec![ChatMessage { role: "user".into(), content: "hi".into() }]);
    let out = press(&mut a, Key::Enter);
    assert!(out.iter().any(|x| matches!(x, Action::SaveGlobalChat(m) if m.len() == 1)));
    assert!(out.iter().any(|x| matches!(x, Action::LoadChat(ChatScope::Session(f)) if f == "/s/one")));
}

#[test]
fn the_list_is_read_again_under_an_open_session() {
    let mut a = app();
    a.update(AppMsg::SessionsLoaded(vec![summary("one"), summary("two")]));
    press(&mut a, Key::Down);
    press(&mut a, Key::Enter);
    assert_eq!(a.home.viewing.as_ref().unwrap().folder, "/s/two");
    let mut renamed = summary("two");
    renamed.title = "Planning".into();
    a.update(AppMsg::SessionsLoaded(vec![renamed]));
    assert_eq!(a.home.session_idx, 0);
    assert_eq!(a.home.viewing.as_ref().unwrap().title, "Planning");
    a.update(AppMsg::SessionsLoaded(vec![summary("one")]));
    assert_eq!(a.home.viewing.as_ref().unwrap().folder, "/s/two");
}

#[test]
fn a_microphone_is_chosen() {
    let mut a = app();
    a.home.home_mode = false;
    press(&mut a, Key::Char('m'));
    assert!(a.modal.selecting_mic);
    press(&mut a, Key::Down);
    let out = press(&mut a, Key::Enter);
    assert!(matches!(out[..], [Action::SetDevice(4)]));
    assert!(!a.modal.selecting_mic);
}

#[test]
fn the_microphone_can_change_while_recording() {
    for key in ['m', 'M'] {
        for status in [Status::Idle, Status::Recording, Status::Paused, Status::Finished] {
            let mut a = app();
            a.home.home_mode = false;
            a.rec.status = status;
            a.modal.mic_idx = 1;
            assert!(press(&mut a, Key::Char(key)).is_empty());
            assert!(a.modal.selecting_mic);
            assert_eq!(a.modal.mic_idx, 0);
        }
    }
}

#[test]
fn one_key_discards_a_recording() {
    let mut a = app();
    press(&mut a, Key::Char('n'));
    assert!(press(&mut a, Key::Char('x')).is_empty());
    a.update(AppMsg::Session(SessionEvent::Status(Status::Recording)));
    for key in ['a', 'p', 'f', 'm'] {
        assert!(!press(&mut a, Key::Char(key)).iter().any(|x| matches!(x, Action::Cancel)));
    }
    assert!(press(&mut a, Key::Char('x')).is_empty());
    press(&mut a, Key::Esc);
    assert!(matches!(press(&mut a, Key::Char('x'))[..], [Action::Cancel]));
    assert!(!a.should_quit);
}

#[test]
fn settings_are_kept() {
    let mut a = app();
    let out = press(&mut a, Key::Char('s'));
    assert!(matches!(&out[..], [Action::OpenGlossary(l)] if l == &vec!["Datadog".to_string()]));
    assert!(a.modal.settings_open);
    a.glossary_saved(Ok(()));
    assert_eq!(a.notice.text, "Glossary saved \u{2014} 1 term");
    a.glossary_saved(Err("full".into()));
    assert_eq!(a.notice.text, "Could not save glossary: full");
    assert!(a.notice.is_err);
    a.model_saved("Scribe", Ok(()));
    assert_eq!(a.notice.text, "STT model set to Scribe");
}

#[test]
fn notices_tell_of_failed_saves() {
    let mut a = app();
    a.update(AppMsg::SaveResult(SaveReport {
        folder: None,
        transcript: String::new(),
        word_count: 0,
        stt_err: None,
        err: Some("disk full".into()),
    }));
    assert!(a.notice.is_err);
    assert!(a.notice.text.contains("disk full"));
    let failed = || AppMsg::MetaGenerated { title: String::new(), speakers: vec![], err: Some("no".into()) };
    a.update(failed());
    assert!(a.notice.text.contains("disk full"));
    let mut b = app();
    b.update(failed());
    assert_eq!(b.notice.text, "Saved (could not generate title: no)");
    b.update(AppMsg::MetaGenerated { title: "T".into(), speakers: vec!["Ann".into(), "Bo".into()], err: None });
    assert_eq!(b.notice.text, "\u{201c}T\u{201d} \u{2014} speakers: Ann, Bo");
    a.update(AppMsg::Tick(Some("00:00:09".into())));
    assert_eq!(a.rec.duration, "00:00:09");
    a.update(AppMsg::Resize);
}

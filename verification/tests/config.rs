use yogurt::config::{env_or_default, parse_provider_model, provider_api_key, Config, Env};
use yogurt::disclaim::{exit_code, maybe_reexec_disclaimed, ChildEnd};
use yogurt::headless::{
    override_config, pending_notice, session_name, wants_meta, CaptureCheck, Checked,
};
use yogurt::paths::{clean_path, extension, file_stem, join_path};

fn env(vars: &[(&str, &str)]) -> Env {
    Env { vars: vars.iter().map(|(k, v)| (k.to_string(), v.to_string())).collect() }
}

#[test]
fn the_defaults_need_only_a_key() {
    let cfg = Config::from_env(&env(&[("ASSEMBLYAI_API_KEY", "k")]));
    assert_eq!(cfg.stt_provider, "assemblyai");
    assert_eq!(cfg.stt_model, "universal-streaming-multilingual");
    assert_eq!(cfg.stt_api_key, "k");
    assert_eq!(cfg.llm_provider, "openai");
    assert_eq!(cfg.llm_model, "gpt-4o-mini");
    assert_eq!(cfg.sessions_dir, "./sessions");
    assert_eq!(cfg.sample_rate, 16000);
    assert_eq!(cfg.audio_device, -1);
    assert!(cfg.validate().is_empty());
}

#[test]
fn variables_set_providers_rate_and_device() {
    let e = env(&[
        ("STT_MODEL", "ElevenLabs/scribe_v1"),
        ("ELEVENLABS_API_KEY", "e"),
        ("LLM_MODEL", "gemini/gemini-2.0-flash"),
        ("GEMINI_API_KEY", "g"),
        ("YOGURT_SAMPLE_RATE", "48000"),
        ("YOGURT_AUDIO_DEVICE", "2"),
    ]);
    let cfg = Config::from_env(&e);
    assert_eq!(cfg.stt_provider, "elevenlabs");
    assert_eq!(cfg.stt_model, "scribe_v1");
    assert_eq!(cfg.stt_api_key, "e");
    assert_eq!(cfg.llm_api_key, "g");
    assert_eq!(cfg.sample_rate, 48000);
    assert_eq!(cfg.audio_device, 2);
    let named = Config::from_env(&env(&[("YOGURT_AUDIO_DEVICE", "USB mic")]));
    assert_eq!(named.audio_device, -1);
    assert_eq!(named.device_name, "USB mic");
}

#[test]
fn what_is_missing_or_wrong_is_told() {
    let cfg = Config::from_env(&env(&[("YOGURT_SAMPLE_RATE", "11025")]));
    let errs = cfg.validate();
    assert_eq!(errs.len(), 2);
    assert!(errs[0].contains("ASSEMBLYAI_API_KEY"), "{}", errs[0]);
    assert!(errs[1].contains("11025"));
    let local = Config::from_env(&env(&[("STT_MODEL", "whisper/base")]));
    assert!(local.validate().is_empty());
}

#[test]
fn models_are_named_with_their_provider() {
    assert_eq!(
        parse_provider_model("OpenAI/gpt/4", "x"),
        ("openai".to_string(), "gpt/4".to_string())
    );
    assert_eq!(parse_provider_model("base", "x"), ("x".to_string(), "base".to_string()));
    let e = env(&[("GEMINI_API_KEY", "g"), ("EMPTY", "")]);
    assert_eq!(provider_api_key(&e, "gemini"), "g");
    assert_eq!(provider_api_key(&e, "openai"), "");
    assert_eq!(env_or_default(&e, "EMPTY", "d"), "d");
    let mut cfg = Config::from_env(&e);
    cfg.set_stt_model("gemini/x", &e);
    assert_eq!(cfg.stt_api_key, "g");
    assert_eq!(cfg.api_key_for("gemini", &e), "g");
}

#[test]
fn the_sessions_directory_is_absolute() {
    let cfg = Config::from_env(&env(&[]));
    assert_eq!(cfg.abs_sessions_dir(&Some("/home/me".to_string())), "/home/me/sessions");
    assert_eq!(cfg.abs_sessions_dir(&None), "sessions");
}

#[test]
fn paths_are_taken_apart() {
    assert_eq!(join_path("/a", "b"), "/a/b");
    assert_eq!(join_path("/a", "/b"), "/b");
    assert_eq!(clean_path("/a/./b/"), "/a/b");
    assert_eq!(extension("/x/talk.tar.GZ"), "GZ");
    assert_eq!(extension(".hidden"), "");
    assert_eq!(file_stem("/x/talk.tar.gz"), Some("talk.tar".to_string()));
    assert_eq!(file_stem(".."), None);
}

#[test]
fn the_command_line_overrides() {
    let cfg = Config::from_env(&env(&[]));
    let cfg = override_config(cfg, Some("/tmp/x".to_string()), 3);
    assert_eq!(cfg.sessions_dir, "/tmp/x");
    assert_eq!(cfg.audio_device, 3);
    let cfg = override_config(cfg, None, -1);
    assert_eq!(cfg.sessions_dir, "/tmp/x");
    assert_eq!(cfg.audio_device, 3);
}

#[test]
fn files_give_sessions_their_name() {
    assert_eq!(session_name(None, "/x/standup.wav"), "standup");
    assert_eq!(session_name(Some("n".to_string()), "/x/standup.wav"), "n");
    assert_eq!(session_name(None, ".."), "recording");
}

#[test]
fn summaries_need_a_key_and_a_transcript() {
    assert!(wants_meta("key", "words"));
    assert!(!wants_meta("", "words"));
    assert!(!wants_meta("key", " \n\t"));
}

#[test]
fn crashed_recordings_are_announced() {
    assert!(pending_notice(0).is_none());
    assert_eq!(
        pending_notice(12).unwrap(),
        "12 crashed recording(s) found \u{2014} run: yogurt --recover"
    );
}

#[test]
fn a_check_needs_audio() {
    let mut c = CaptureCheck::new();
    assert_eq!(
        c.verdict(Checked::Microphone).unwrap_err(),
        "no audio captured \u{2014} check mic permission and device"
    );
    assert!(c.verdict(Checked::SystemAudio).unwrap_err().starts_with("no system audio"));
    c.on_chunk(&[0, 1, 0, 0]);
    c.on_chunk(&[1, 0]);
    assert_eq!(c.bytes, 6);
    assert_eq!(c.peak, 512);
    assert!(c.verdict(Checked::Microphone).is_ok());
}

#[test]
fn the_program_starts_itself_once() {
    assert!(maybe_reexec_disclaimed(true, false));
    assert!(!maybe_reexec_disclaimed(true, true));
    assert!(!maybe_reexec_disclaimed(false, false));
    assert_eq!(exit_code(ChildEnd::Exited(7)), 7);
    assert_eq!(exit_code(ChildEnd::Signaled(9)), 137);
    assert_eq!(exit_code(ChildEnd::Lost), 1);
}

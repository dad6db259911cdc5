//! Configuration from environment variables.

use crate::paths::{clean_path, cleaned, join_path, path_join};
use crate::text::{
    chars_of, concat2, concat3, decimal, decimal_string, find_char, first_index, lowercase,
    opt_text, owned, parse_i32, parse_signed, parse_u32, parse_unsigned, same, string_between,
    texts, uppercase,
};
use vstd::prelude::*;

verus! {

broadcast use vstd::string::group_string_axioms;

// ---------------------------------------------------------------------------
// The environment
// ---------------------------------------------------------------------------

/// Environment variables, by name.
#[derive(Debug)]
pub struct Env {
    pub vars: Vec<(String, String)>,
}

impl View for Env {
    type V = Seq<(Seq<char>, Seq<char>)>;

    open spec fn view(&self) -> Seq<(Seq<char>, Seq<char>)> {
        self.vars@.map_values(|v: (String, String)| (v.0@, v.1@))
    }
}

/// The value of a variable, if it is set.
pub open spec fn env_value(vars: Seq<(Seq<char>, Seq<char>)>, key: Seq<char>) -> Option<Seq<char>>
    decreases vars.len(),
{
    if vars.len() == 0 {
        None
    } else if vars[0].0 == key {
        Some(vars[0].1)
    } else {
        env_value(vars.drop_first(), key)
    }
}

impl Env {
    /// The value of a variable, if it is set.
    pub fn get(&self, key: &str) -> (r: Option<String>)
        ensures
            opt_text(r) == env_value(self@, key@),
    {
        let mut i: usize = 0;
        assert(self@.skip(0) =~= self@);
        while i < self.vars.len()
            invariant
                i <= self.vars@.len(),
                env_value(self@, key@) == env_value(self@.skip(i as int), key@),
            decreases self.vars@.len() - i,
        {
            assert(self@.skip(i as int)[0] == (self.vars@[i as int].0@, self.vars@[i as int].1@));
            assert(self@.skip(i as int).drop_first() =~= self@.skip(i + 1));
            if same(self.vars[i].0.as_str(), key) {
                return Some(self.vars[i].1.clone());
            }
            i += 1;
        }
        None
    }
}

/// The value of a variable, or a default where it is not set or empty.
pub open spec fn value_or(vars: Seq<(Seq<char>, Seq<char>)>, key: Seq<char>, default: Seq<char>) -> Seq<
    char,
> {
    match env_value(vars, key) {
        Some(v) => if v.len() > 0 {
            v
        } else {
            default
        },
        None => default,
    }
}

/// The value of a variable, or a default where it is not set or empty.
pub fn env_or_default(env: &Env, key: &str, default: &str) -> (r: String)
    ensures
        r@ == value_or(env@, key@, default@),
{
    match env.get(key) {
        Some(v) => if v.as_str().unicode_len() > 0 {
            v
        } else {
            owned(default)
        },
        None => owned(default),
    }
}

/// The API key of a provider; empty where none is set.
pub open spec fn key_of(vars: Seq<(Seq<char>, Seq<char>)>, provider: Seq<char>) -> Seq<char> {
    match env_value(vars, uppercase(provider) + "_API_KEY"@) {
        Some(v) => v,
        None => seq![],
    }
}

/// The API key of a provider; empty where none is set.
pub fn provider_api_key(env: &Env, provider: &str) -> (r: String)
    ensures
        r@ == key_of(env@, provider@),
{
    let name = concat2(provider.to_uppercase().as_str(), "_API_KEY");
    match env.get(name.as_str()) {
        Some(v) => v,
        None => {
            let e = String::new();
            assert(e@ =~= Seq::<char>::empty());
            e
        },
    }
}

/// `provider/model` in its two parts, the provider in lower case; without a
/// slash the whole is the model of the default provider.
pub open spec fn provider_model(s: Seq<char>, default_provider: Seq<char>) -> (
    Seq<char>,
    Seq<char>,
) {
    let i = first_index(s, '/');
    if i < s.len() {
        (lowercase(s.take(i)), s.skip(i + 1))
    } else {
        (default_provider, s)
    }
}

/// `provider/model` in its two parts: the provider in lower case, and the model.
/// Without a slash the whole is the model of the default provider.
pub fn parse_provider_model(s: &str, default_provider: &str) -> (r: (String, String))
    ensures
        (r.0@, r.1@) == provider_model(s@, default_provider@),
{
    let c = chars_of(s);
    let i = find_char(&c, '/');
    if i < c.len() {
        let p = string_between(&c, 0, i);
        let m = string_between(&c, i + 1, c.len());
        assert(p@ =~= s@.take(i as int));
        assert(m@ =~= s@.skip(i + 1));
        (p.as_str().to_lowercase(), m)
    } else {
        (owned(default_provider), owned(s))
    }
}

// ---------------------------------------------------------------------------
// The configuration
// ---------------------------------------------------------------------------

/// What the program is configured to do.
#[derive(Debug)]
pub struct Config {
    pub stt_provider: String,
    pub stt_model: String,
    pub stt_api_key: String,
    pub llm_provider: String,
    pub llm_model: String,
    pub llm_api_key: String,
    pub sessions_dir: String,
    pub sample_rate: u32,
    /// The index of the microphone; -1 means the default one.
    pub audio_device: i32,
    pub device_name: String,
}

/// The contents of a [`Config`].
pub struct ConfigView {
    pub stt_provider: Seq<char>,
    pub stt_model: Seq<char>,
    pub stt_api_key: Seq<char>,
    pub llm_provider: Seq<char>,
    pub llm_model: Seq<char>,
    pub llm_api_key: Seq<char>,
    pub sessions_dir: Seq<char>,
    pub sample_rate: nat,
    pub audio_device: int,
    pub device_name: Seq<char>,
}

impl View for Config {
    type V = ConfigView;

    open spec fn view(&self) -> ConfigView {
        ConfigView {
            stt_provider: self.stt_provider@,
            stt_model: self.stt_model@,
            stt_api_key: self.stt_api_key@,
            llm_provider: self.llm_provider@,
            llm_model: self.llm_model@,
            llm_api_key: self.llm_api_key@,
            sessions_dir: self.sessions_dir@,
            sample_rate: self.sample_rate as nat,
            audio_device: self.audio_device as int,
            device_name: self.device_name@,
        }
    }
}

/// The model setting for speech-to-text: its own variable, else the older one.
pub open spec fn stt_setting(vars: Seq<(Seq<char>, Seq<char>)>) -> Seq<char> {
    value_or(
        vars,
        "STT_MODEL"@,
        "assemblyai/"@ + value_or(
            vars,
            "YOGURT_SPEECH_MODEL"@,
            "universal-streaming-multilingual"@,
        ),
    )
}

/// The model setting for chat: its own variable, else the older one.
pub open spec fn llm_setting(vars: Seq<(Seq<char>, Seq<char>)>) -> Seq<char> {
    value_or(
        vars,
        "LLM_MODEL"@,
        "openai/"@ + value_or(vars, "OPENAI_MODEL"@, "gpt-4o-mini"@),
    )
}

/// The configuration that environment variables give.
pub open spec fn config_from(vars: Seq<(Seq<char>, Seq<char>)>) -> ConfigView {
    let stt = provider_model(stt_setting(vars), "assemblyai"@);
    let llm = provider_model(llm_setting(vars), "openai"@);
    let device = env_value(vars, "YOGURT_AUDIO_DEVICE"@);
    ConfigView {
        stt_provider: stt.0,
        stt_model: stt.1,
        stt_api_key: key_of(vars, stt.0),
        llm_provider: llm.0,
        llm_model: llm.1,
        llm_api_key: key_of(vars, llm.0),
        sessions_dir: value_or(vars, "YOGURT_SESSIONS_DIR"@, "./sessions"@),
        sample_rate: match env_value(vars, "YOGURT_SAMPLE_RATE"@) {
            Some(t) => match parse_unsigned(t, u32::MAX as nat) {
                Some(n) => n,
                None => 16000,
            },
            None => 16000,
        },
        audio_device: match device {
            Some(d) => match parse_signed(d) {
                Some(n) => n,
                None => -1,
            },
            None => -1,
        },
        device_name: match device {
            Some(d) => match parse_signed(d) {
                Some(n) => seq![],
                None => d,
            },
            None => seq![],
        },
    }
}

/// The sample rates that recordings can have.
pub open spec fn is_known_rate(rate: int) -> bool {
    rate == 8000 || rate == 16000 || rate == 22050 || rate == 44100 || rate == 48000
}

/// Whether a provider needs no API key: it runs on this machine.
pub open spec fn is_local(provider: Seq<char>) -> bool {
    provider == "whisper"@ || provider == "parakeet"@
}

/// The notice for a missing API key.
pub open spec fn key_error(provider: Seq<char>) -> Seq<char> {
    "missing STT API key: set "@ + uppercase(provider)
        + "_API_KEY (or use STT_MODEL=whisper/<model> or parakeet/<model>)"@
}

/// The notice for an unknown sample rate.
pub open spec fn rate_error(rate: nat) -> Seq<char> {
    "invalid YOGURT_SAMPLE_RATE "@ + decimal(rate)
        + " (use 8000, 16000, 22050, 44100 or 48000)"@
}

/// What is wrong with a configuration.
pub open spec fn config_errors(c: ConfigView) -> Seq<Seq<char>> {
    let key = if c.stt_api_key.len() == 0 && !is_local(c.stt_provider) {
        seq![key_error(c.stt_provider)]
    } else {
        seq![]
    };
    let rate = if is_known_rate(c.sample_rate as int) {
        seq![]
    } else {
        seq![rate_error(c.sample_rate)]
    };
    key + rate
}

impl Config {
    /// The configuration that environment variables give.
    pub fn from_env(env: &Env) -> (r: Config)
        ensures
            r@ == config_from(env@),
    {
        let legacy = concat2(
            "assemblyai/",
            env_or_default(
                env,
                "YOGURT_SPEECH_MODEL",
                "universal-streaming-multilingual",
            ).as_str(),
        );
        let stt_raw = env_or_default(env, "STT_MODEL", legacy.as_str());
        let (stt_provider, stt_model) = parse_provider_model(stt_raw.as_str(), "assemblyai");
        let stt_api_key = provider_api_key(env, stt_provider.as_str());
        let older = concat2(
            "openai/",
            env_or_default(env, "OPENAI_MODEL", "gpt-4o-mini").as_str(),
        );
        let llm_raw = env_or_default(env, "LLM_MODEL", older.as_str());
        let (llm_provider, llm_model) = parse_provider_model(llm_raw.as_str(), "openai");
        let llm_api_key = provider_api_key(env, llm_provider.as_str());
        let sample_rate: u32 = match env.get("YOGURT_SAMPLE_RATE") {
            Some(t) => match parse_u32(t.as_str()) {
                Some(n) => n,
                None => 16000,
            },
            None => 16000,
        };
        let mut audio_device: i32 = -1;
        let mut device_name = String::new();
        assert(device_name@ =~= Seq::<char>::empty());
        if let Some(d) = env.get("YOGURT_AUDIO_DEVICE") {
            match parse_i32(d.as_str()) {
                Some(n) => {
                    audio_device = n;
                },
                None => {
                    device_name = d;
                },
            }
        }
        Config {
            stt_provider,
            stt_model,
            stt_api_key,
            llm_provider,
            llm_model,
            llm_api_key,
            sessions_dir: env_or_default(env, "YOGURT_SESSIONS_DIR", "./sessions"),
            sample_rate,
            audio_device,
            device_name,
        }
    }

    /// What is wrong with the configuration; nothing where it can be used.
    pub fn validate(&self) -> (r: Vec<String>)
        ensures
            texts(r@) == config_errors(self@),
    {
        let mut errs: Vec<String> = Vec::new();
        let local = same(self.stt_provider.as_str(), "whisper") || same(
            self.stt_provider.as_str(),
            "parakeet",
        );
        if self.stt_api_key.as_str().unicode_len() == 0 && !local {
            errs.push(
                concat3(
                    "missing STT API key: set ",
                    self.stt_provider.as_str().to_uppercase().as_str(),
                    "_API_KEY (or use STT_MODEL=whisper/<model> or parakeet/<model>)",
                ),
            );
        }
        let rate = self.sample_rate;
        if !(rate == 8000 || rate == 16000 || rate == 22050 || rate == 44100 || rate == 48000) {
            errs.push(
                concat3(
                    "invalid YOGURT_SAMPLE_RATE ",
                    decimal_string(rate as u64).as_str(),
                    " (use 8000, 16000, 22050, 44100 or 48000)",
                ),
            );
        }
        assert(texts(errs@) =~= config_errors(self@));
        errs
    }

    /// Sets provider and model for speech-to-text, with the provider's API key.
    pub fn set_stt_model(&mut self, raw: &str, env: &Env)
        ensures
            ({
                let stt = provider_model(raw@, "assemblyai"@);
                final(self)@ == (ConfigView {
                    stt_provider: stt.0,
                    stt_model: stt.1,
                    stt_api_key: key_of(env@, stt.0),
                    ..old(self)@
                })
            }),
    {
        let (provider, model) = parse_provider_model(raw, "assemblyai");
        self.stt_api_key = provider_api_key(env, provider.as_str());
        self.stt_provider = provider;
        self.stt_model = model;
    }

    /// The API key of a provider; empty where none is set.
    pub fn api_key_for(&self, provider: &str, env: &Env) -> (r: String)
        ensures
            r@ == key_of(env@, provider@),
    {
        provider_api_key(env, provider)
    }

    /// The directory of the sessions, below the working directory where it is
    /// relative, without names that stand for the directory itself.
    pub fn abs_sessions_dir(&self, cwd: &Option<String>) -> (r: String)
        ensures
            r@ == cleaned(
                match opt_text(*cwd) {
                    Some(dir) => path_join(dir, self@.sessions_dir),
                    None => self@.sessions_dir,
                },
            ),
    {
        match cwd {
            Some(dir) => {
                let p = join_path(dir.as_str(), self.sessions_dir.as_str());
                clean_path(p.as_str())
            },
            None => clean_path(self.sessions_dir.as_str()),
        }
    }
}

/// With nothing set but the key of the default provider, the configuration is
/// valid and uses that provider at the default sample rate.
pub proof fn default_needs_only_a_key(vars: Seq<(Seq<char>, Seq<char>)>)
    requires
        env_value(vars, "STT_MODEL"@) is None,
        env_value(vars, "YOGURT_SPEECH_MODEL"@) is None,
        env_value(vars, "YOGURT_SAMPLE_RATE"@) is None,
        key_of(vars, lowercase("assemblyai"@)).len() > 0,
    ensures
        config_from(vars).stt_provider == lowercase("assemblyai"@),
        config_from(vars).stt_model == "universal-streaming-multilingual"@,
        config_errors(config_from(vars)) == Seq::<Seq<char>>::empty(),
{
    reveal_strlit("assemblyai/");
    reveal_strlit("assemblyai");
    reveal_strlit("universal-streaming-multilingual");
    let s = stt_setting(vars);
    crate::text::lemma_index_from(s, '/', 0);
    let i = first_index(s, '/');
    assert(s[10] == '/');
    assert(i == 10) by {
        if i < 10 {
            assert(s[i] == "assemblyai/"@[i]);
        }
    }
    assert(s.take(10) =~= "assemblyai"@);
    assert(s.skip(11) =~= "universal-streaming-multilingual"@);
}

/// A model setting names provider and model with a slash between them, of which
/// the first counts; a setting without a slash names a model of the default
/// provider.
pub proof fn settings_name_provider_and_model(
    provider: Seq<char>,
    model: Seq<char>,
    default: Seq<char>,
)
    requires
        !provider.contains('/'),
    ensures
        provider_model(provider + seq!['/'] + model, default) == (lowercase(provider), model),
        provider_model(provider, default) == (default, provider),
{
    let s = provider + seq!['/'] + model;
    crate::text::lemma_index_from(s, '/', 0);
    let i = first_index(s, '/');
    assert(s[provider.len() as int] == '/');
    assert(i == provider.len()) by {
        if i < provider.len() {
            assert(provider[i] == '/');
        }
    }
    assert(s.take(i) =~= provider);
    assert(s.skip(i + 1) =~= model);
    crate::text::lemma_index_from(provider, '/', 0);
    let k = first_index(provider, '/');
    if k < provider.len() {
        assert(provider.contains(provider[k]));
    }
}

/// Whether a list of variables sets one to a value: the first that has the name
/// counts.
pub open spec fn sets(
    vars: Seq<(Seq<char>, Seq<char>)>,
    name: Seq<char>,
    value: Seq<char>,
    i: int,
) -> bool {
    &&& 0 <= i < vars.len()
    &&& vars[i] == (name, value)
    &&& forall|k: int| 0 <= k < i ==> (#[trigger] vars[k]).0 != name
}

/// The value of a variable is the one that it is set to; one that is not set has
/// none.
pub proof fn variables_have_their_values(
    vars: Seq<(Seq<char>, Seq<char>)>,
    name: Seq<char>,
    value: Seq<char>,
    i: int,
)
    ensures
        sets(vars, name, value, i) ==> env_value(vars, name) == Some(value),
        (forall|k: int| 0 <= k < vars.len() ==> (#[trigger] vars[k]).0 != name) ==> env_value(
            vars,
            name,
        ) is None,
    decreases vars.len(),
{
    if vars.len() > 0 && vars[0].0 != name {
        let rest = vars.drop_first();
        variables_have_their_values(rest, name, value, i - 1);
        if sets(vars, name, value, i) {
            assert forall|k: int| 0 <= k < i - 1 implies (#[trigger] rest[k]).0 != name by {
                assert(rest[k] == vars[k + 1]);
            }
            assert(sets(rest, name, value, i - 1));
        }
        if forall|k: int| 0 <= k < vars.len() ==> (#[trigger] vars[k]).0 != name {
            assert forall|k: int| 0 <= k < rest.len() implies (#[trigger] rest[k]).0 != name by {
                assert(rest[k] == vars[k + 1]);
            }
        }
    }
}

/// What the variables are for: `STT_MODEL` and `LLM_MODEL` name the providers and
/// models, whose keys are used; `YOGURT_SESSIONS_DIR`, `YOGURT_SAMPLE_RATE` and
/// `YOGURT_AUDIO_DEVICE` set directory, sample rate and microphone, the last one
/// by index or by name; and what is not set has its default.
pub proof fn the_environment_configures(
    vars: Seq<(Seq<char>, Seq<char>)>,
    provider: Seq<char>,
    model: Seq<char>,
    n: nat,
)
    requires
        !provider.contains('/'),
        provider.len() > 0,
        n <= i32::MAX,
    ensures
        ({
            let c = config_from(vars);
            let named = provider + seq!['/'] + model;
            &&& env_value(vars, "STT_MODEL"@) == Some(named) ==> {
                &&& c.stt_provider == lowercase(provider)
                &&& c.stt_model == model
                &&& c.stt_api_key == key_of(vars, lowercase(provider))
            }
            &&& env_value(vars, "LLM_MODEL"@) == Some(named) ==> {
                &&& c.llm_provider == lowercase(provider)
                &&& c.llm_model == model
                &&& c.llm_api_key == key_of(vars, lowercase(provider))
            }
            &&& env_value(vars, "YOGURT_SESSIONS_DIR"@) is None ==> c.sessions_dir == "./sessions"@
            &&& env_value(vars, "YOGURT_SESSIONS_DIR"@) == Some(provider) ==> c.sessions_dir
                == provider
            &&& env_value(vars, "YOGURT_SAMPLE_RATE"@) == Some(decimal(n)) ==> c.sample_rate == n
            &&& env_value(vars, "YOGURT_SAMPLE_RATE"@) is None ==> c.sample_rate == 16000
            &&& env_value(vars, "YOGURT_AUDIO_DEVICE"@) == Some(decimal(n)) ==> c.audio_device == n
                && c.device_name.len() == 0
            &&& env_value(vars, "YOGURT_AUDIO_DEVICE"@) is None ==> c.audio_device == -1
                && c.device_name.len() == 0
            &&& env_value(vars, "YOGURT_AUDIO_DEVICE"@) matches Some(d) ==> (parse_signed(d) is None
                ==> c.device_name == d && c.audio_device == -1)
        }),
{
    settings_name_provider_and_model(provider, model, "assemblyai"@);
    settings_name_provider_and_model(provider, model, "openai"@);
    crate::text::numbers_are_read_back(n, u32::MAX as nat);
}

/// A configuration can be used if and only if its sample rate is one of the five
/// known ones and there is a key for its provider, unless that is a local one.
pub proof fn usable_configurations_have_no_errors(c: ConfigView)
    ensures
        config_errors(c).len() == 0 <==> {
            &&& c.stt_api_key.len() > 0 || c.stt_provider == "whisper"@ || c.stt_provider
                == "parakeet"@
            &&& c.sample_rate == 8000 || c.sample_rate == 16000 || c.sample_rate == 22050
                || c.sample_rate == 44100 || c.sample_rate == 48000
        },
{
}

} // verus!

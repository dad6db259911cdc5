//! The state of the interface, and how it changes. What a change is to be is
//! said by [`crate::ui::model`].

use super::laws::steps_stay_sound;
use super::model::{
    after_save, app_step, as_lines, asking, chat_dir, chat_loading, history, in_session, input_text,
    live_folder, live_saved, meta_actions, meta_notice, next_in, noticed, on_meta, on_reply,
    on_saved, on_segment, on_session, on_sessions, on_status, one_less, partial_is_last, persisting,
    placeholder, saying, scoped, sound, with_folder, zero_clock, AppView, HomeView, LineView, ModalView,
    NoticeView, PaneView, PrefsView, ProfileView, RecView, SetupView,
};
use super::msg::{
    action_views, opt_scope, push_action, Action, ActionView, AppMsg, ChatScope, Key, SaveReport,
    ScopeView,
};
use crate::audio::{device_views, Device};
use crate::config::{Config, Env};
use crate::llm::client::{chat_views, copy_chat, ChatMessage, ChatView};
use crate::llm::templates::{template_views, Template};
use crate::session::{summary_views, SessionEvent, SessionSummary, Status, SummaryView};
use crate::settings::{glossary_terms, Settings};
use crate::stt::{segment_views, Segment};
use crate::text::{
    chars_of, concat2, concat3, decimal, decimal_string, has_prefix, join, lines, opt_text, owned,
    same, texts, trim,
};
use vstd::prelude::*;

verus! {

broadcast use vstd::string::group_string_axioms;

/// A line of the live transcript.
#[derive(Debug)]
pub struct TranscriptLine {
    pub seg: Segment,
    pub partial: bool,
}

impl View for TranscriptLine {
    type V = LineView;

    open spec fn view(&self) -> LineView {
        LineView { seg: self.seg@, partial: self.partial }
    }
}

/// The contents of a list of lines.
pub open spec fn transcript_views(v: Seq<TranscriptLine>) -> Seq<LineView> {
    v.map_values(|l: TranscriptLine| l@)
}

/// A speech-to-text model that can be chosen.
#[derive(Debug)]
pub struct SttProfile {
    pub id: String,
    pub label: String,
    pub provider: String,
    pub model: String,
}

impl View for SttProfile {
    type V = ProfileView;

    open spec fn view(&self) -> ProfileView {
        ProfileView {
            id: self.id@,
            label: self.label@,
            provider: self.provider@,
            model: self.model@,
        }
    }
}

/// The contents of a list of models.
pub open spec fn profile_views(v: Seq<SttProfile>) -> Seq<ProfileView> {
    v.map_values(|p: SttProfile| p@)
}

/// What the interface was set up with.
#[derive(Debug)]
pub struct Setup {
    pub devices: Vec<Device>,
    pub cfg: Config,
    pub env: Env,
    pub profiles: Vec<SttProfile>,
    pub base_dir: String,
    pub templates: Vec<Template>,
}

impl View for Setup {
    type V = SetupView;

    open spec fn view(&self) -> SetupView {
        SetupView {
            devices: device_views(self.devices@),
            cfg: self.cfg@,
            env: self.env@,
            profiles: profile_views(self.profiles@),
            base_dir: self.base_dir@,
            templates: template_views(self.templates@),
        }
    }
}

/// The recording and its transcript.
#[derive(Debug)]
pub struct Rec {
    pub status: Status,
    pub audio_level: u32,
    pub duration: String,
    pub lines: Vec<TranscriptLine>,
    /// The line that is still being transcribed.
    pub partial_idx: Option<usize>,
    pub scroll: usize,
}

impl View for Rec {
    type V = RecView;

    open spec fn view(&self) -> RecView {
        RecView {
            status: self.status,
            audio_level: self.audio_level as nat,
            duration: self.duration@,
            lines: transcript_views(self.lines@),
            partial_idx: match self.partial_idx {
                Some(i) => Some(i as nat),
                None => None,
            },
            scroll: self.scroll as nat,
        }
    }
}

/// What the user is told.
#[derive(Debug)]
pub struct Notice {
    pub text: String,
    pub is_err: bool,
}

impl View for Notice {
    type V = NoticeView;

    open spec fn view(&self) -> NoticeView {
        NoticeView { text: self.text@, is_err: self.is_err }
    }
}

/// The stored sessions, and the one in view.
#[derive(Debug)]
pub struct Home {
    pub home_mode: bool,
    pub sessions: Vec<SessionSummary>,
    pub session_idx: usize,
    pub viewing: Option<SessionSummary>,
    pub view_raw: String,
    pub summary_open: bool,
    pub summary_scroll: usize,
    pub summary_pending: bool,
}

impl View for Home {
    type V = HomeView;

    open spec fn view(&self) -> HomeView {
        HomeView {
            home_mode: self.home_mode,
            sessions: summary_views(self.sessions@),
            session_idx: self.session_idx as nat,
            viewing: match self.viewing {
                Some(s) => Some(s@),
                None => None,
            },
            view_raw: self.view_raw@,
            summary_open: self.summary_open,
            summary_scroll: self.summary_scroll as nat,
            summary_pending: self.summary_pending,
        }
    }
}

/// The conversation: `msgs` always holds the current scope's.
#[derive(Debug)]
pub struct Pane {
    pub open: bool,
    pub msgs: Vec<ChatMessage>,
    pub scroll: usize,
    pub scope: ChatScope,
    /// Scope of the question that awaits its reply, if any.
    pub pending: Option<ChatScope>,
    /// Generation counter for live scopes; counts the recordings.
    pub live_seq: u64,
    /// Generation and folder of the last finished recording, so that a late
    /// reply can still land in the saved session.
    pub finished_live: Option<(u64, String)>,
}

impl View for Pane {
    type V = PaneView;

    open spec fn view(&self) -> PaneView {
        PaneView {
            open: self.open,
            msgs: chat_views(self.msgs@),
            scroll: self.scroll as nat,
            scope: self.scope@,
            pending: opt_scope(self.pending),
            live_seq: self.live_seq as nat,
            finished_live: match self.finished_live {
                Some((n, f)) => Some((n as nat, f@)),
                None => None,
            },
        }
    }
}

/// What can lie above the views.
#[derive(Debug)]
pub struct Modal {
    pub selecting_mic: bool,
    pub mic_idx: usize,
    pub template_open: bool,
    pub template_idx: usize,
    pub settings_open: bool,
    pub settings_tab: usize,
    pub stt_picker_open: bool,
    pub stt_idx: usize,
    pub confirm_delete: bool,
}

impl View for Modal {
    type V = ModalView;

    open spec fn view(&self) -> ModalView {
        ModalView {
            selecting_mic: self.selecting_mic,
            mic_idx: self.mic_idx as nat,
            template_open: self.template_open,
            template_idx: self.template_idx as nat,
            settings_open: self.settings_open,
            settings_tab: self.settings_tab as nat,
            stt_picker_open: self.stt_picker_open,
            stt_idx: self.stt_idx as nat,
            confirm_delete: self.confirm_delete,
        }
    }
}

/// What the user has set.
#[derive(Debug)]
pub struct Prefs {
    pub settings: Settings,
    pub stt_model: String,
}

impl View for Prefs {
    type V = PrefsView;

    open spec fn view(&self) -> PrefsView {
        PrefsView { glossary: self.settings.glossary@, stt_model: self.stt_model@ }
    }
}

/// The state of the interface.
#[derive(Debug)]
pub struct App {
    pub setup: Setup,
    pub rec: Rec,
    pub notice: Notice,
    pub home: Home,
    pub chat: Pane,
    pub modal: Modal,
    pub prefs: Prefs,
    pub quitting: bool,
    pub should_quit: bool,
}

impl View for App {
    type V = AppView;

    open spec fn view(&self) -> AppView {
        AppView {
            setup: self.setup@,
            rec: self.rec@,
            notice: self.notice@,
            home: self.home@,
            chat: self.chat@,
            modal: self.modal@,
            prefs: self.prefs@,
            quitting: self.quitting,
            should_quit: self.should_quit,
        }
    }
}

/// What the input field for questions holds.
pub fn chat_input_text(lines: &[String]) -> (r: String)
    ensures
        r@ == input_text(texts(lines@)),
{
    trim(join(lines, " ").as_str())
}

pub(crate) fn placeholder_text(scope: &ChatScope) -> (r: String)
    ensures
        r@ == placeholder(scope@),
{
    match scope {
        ChatScope::Global => owned("Ask anything..."),
        _ => owned("Ask about the transcript..."),
    }
}

pub(crate) fn is_live(status: Status) -> (r: bool)
    ensures
        r == in_session(status),
{
    status == Status::Recording || status == Status::Paused
}

pub(crate) fn less(n: usize) -> (r: usize)
    ensures
        r == one_less(n as nat),
{
    if n == 0 {
        0
    } else {
        n - 1
    }
}

pub(crate) fn step_in(i: usize, len: usize) -> (r: usize)
    ensures
        r == next_in(i as nat, len as nat),
{
    if i < len && len - i > 1 {
        i + 1
    } else {
        i
    }
}

pub(crate) fn empty() -> (r: String)
    ensures
        r@ == Seq::<char>::empty(),
{
    let e = String::new();
    assert(e@ =~= Seq::<char>::empty());
    e
}

impl App {
    pub(crate) fn set_notice(&mut self, text: String, is_err: bool)
        ensures
            final(self)@ == noticed(old(self)@, text@, is_err),
    {
        self.notice.text = text;
        self.notice.is_err = is_err;
    }

    // --- Conversations ---

    /// Whether a question of the current scope awaits its reply.
    pub fn chat_loading(&self) -> (r: bool)
        ensures
            r == chat_loading(self@),
    {
        match &self.chat.pending {
            Some(s) => s.is_same(&self.chat.scope),
            None => false,
        }
    }

    fn saved_folder(&self, n: u64) -> (r: Option<String>)
        ensures
            opt_text(r) == live_folder(self@, n as nat),
    {
        match &self.chat.finished_live {
            Some((m, f)) => if *m == n {
                Some(f.clone())
            } else {
                None
            },
            None => None,
        }
    }

    fn chat_dir(&self, scope: &ChatScope, exists: bool) -> (r: Option<String>)
        ensures
            opt_text(r) == chat_dir(self@, scope@, exists),
    {
        match scope {
            ChatScope::Global => Some(self.setup.base_dir.clone()),
            ChatScope::Session(f) => if exists {
                Some(f.clone())
            } else {
                None
            },
            ChatScope::Live(n) => self.saved_folder(*n),
        }
    }

    pub(crate) fn persist_chat(&self, out: &mut Vec<Action>)
        ensures
            action_views(final(out)@) == action_views(old(out)@) + persisting(self@),
    {
        if self.chat.msgs.len() == 0 {
            return;
        }
        match &self.chat.scope {
            ChatScope::Global => push_action(
                out,
                Action::SaveGlobalChat(copy_chat(&self.chat.msgs)),
            ),
            ChatScope::Session(f) => push_action(
                out,
                Action::SaveChat {
                    folder: f.clone(),
                    must_exist: true,
                    msgs: copy_chat(&self.chat.msgs),
                },
            ),
            ChatScope::Live(n) => {
                if let Some(f) = self.saved_folder(*n) {
                    push_action(
                        out,
                        Action::SaveChat {
                            folder: f,
                            must_exist: false,
                            msgs: copy_chat(&self.chat.msgs),
                        },
                    );
                }
            },
        }
    }

    /// The single scope transition: store the outgoing conversation, read the
    /// incoming one.
    pub(crate) fn set_chat_scope(&mut self, scope: ChatScope, out: &mut Vec<Action>)
        ensures
            final(self)@ == scoped(old(self)@, scope@).app,
            action_views(final(out)@) == action_views(old(out)@) + scoped(
                old(self)@,
                scope@,
            ).actions,
    {
        if scope.is_same(&self.chat.scope) {
            return;
        }
        self.persist_chat(out);
        match &scope {
            ChatScope::Live(_) => {},
            _ => push_action(out, Action::LoadChat(scope.copy())),
        }
        self.chat.scope = scope;
        self.chat.msgs = Vec::new();
        assert(chat_views(self.chat.msgs@) =~= Seq::<ChatView>::empty());
        self.chat.scroll = 0;
    }

    pub(crate) fn cmd_ask(&mut self, question: String, live_text: &str, out: &mut Vec<Action>)
        ensures
            final(self)@ == asking(old(self)@, question@, live_text@).app,
            action_views(final(out)@) == action_views(old(out)@) + asking(
                old(self)@,
                question@,
                live_text@,
            ).actions,
    {
        let scope = self.chat.scope.copy();
        let system = match &scope {
            ChatScope::Global => owned(
                "You are a helpful assistant inside a meeting-recorder app. No recording is currently open. Answer concisely.",
            ),
            _ => concat2(
                "You are a helpful assistant answering questions about a live meeting recording. Answer concisely based on the transcript below. If the transcript is empty or the answer isn't there, say so.\n\nTranscript so far:\n",
                match &self.home.viewing {
                    Some(_) => self.home.view_raw.as_str(),
                    None => live_text,
                },
            ),
        };
        // The turns before exclude the one just added.
        let n = less(self.chat.msgs.len());
        let before = vstd::slice::slice_subrange(self.chat.msgs.as_slice(), 0, n);
        let turns = copy_chat(before);
        assert(chat_views(turns@) =~= history(chat_views(self.chat.msgs@)));
        self.chat.pending = Some(self.chat.scope.copy());
        push_action(
            out,
            Action::Ask {
                scope,
                system,
                history: turns,
                question,
                glossary: self.prefs.settings.llm_prompt(),
            },
        );
    }

    pub(crate) fn say(&mut self, turn: String)
        ensures
            final(self)@ == saying(old(self)@, turn@),
    {
        let ghost before = chat_views(self.chat.msgs@);
        let ghost said = turn@;
        self.chat.msgs.push(ChatMessage { role: owned("user"), content: turn });
        assert(chat_views(self.chat.msgs@) =~= before.push(
            ChatView { role: "user"@, content: said },
        ));
        self.chat.scroll = 0;
    }

    pub(crate) fn cmd_generate_meta(
        &self,
        folder: String,
        transcript: String,
        out: &mut Vec<Action>,
    )
        ensures
            action_views(final(out)@) == action_views(old(out)@) + meta_actions(
                self@,
                folder@,
                transcript@,
            ),
    {
        if self.setup.cfg.llm_api_key.as_str().unicode_len() == 0 || trim(
            transcript.as_str(),
        ).as_str().unicode_len() == 0 {
            return;
        }
        push_action(
            out,
            Action::GenerateMeta { folder, transcript, glossary: self.prefs.settings.llm_prompt() },
        );
    }

    // --- Session events ---

    fn add_line(&mut self, seg: Segment)
        requires
            sound(old(self)@),
        ensures
            final(self)@ == on_segment(old(self)@, seg@),
    {
        if seg.is_final && self.notice.is_err && self.rec.status == Status::Recording {
            self.set_notice(empty(), false);
        }
        let last = seg.is_final;
        let line = TranscriptLine { seg, partial: !last };
        let ghost before = transcript_views(self.rec.lines@);
        let ghost v = line@;
        match self.rec.partial_idx {
            Some(i) => {
                self.rec.lines.set(i, line);
                assert(transcript_views(self.rec.lines@) =~= before.update(i as int, v));
                if last {
                    self.rec.partial_idx = None;
                }
            },
            None => {
                if !last {
                    self.rec.partial_idx = Some(self.rec.lines.len());
                }
                self.rec.lines.push(line);
                assert(transcript_views(self.rec.lines@) =~= before.push(v));
            },
        }
    }

    fn set_status(&mut self, s: Status)
        ensures
            final(self)@ == on_status(old(self)@, s),
    {
        self.rec.status = s;
        match s {
            Status::Idle => {
                self.rec.duration = owned("00:00:00");
                self.rec.audio_level = 0;
                self.home.home_mode = true;
            },
            Status::Finished => {
                self.rec.duration = owned("00:00:00");
                self.rec.audio_level = 0;
            },
            Status::Recording => {
                self.home.home_mode = false;
            },
            Status::Paused => {},
        }
    }

    fn replace_lines(&mut self, segs: Vec<Segment>)
        ensures
            final(self)@ == (AppView {
                rec: RecView {
                    partial_idx: None,
                    lines: as_lines(segment_views(segs@)),
                    ..old(self)@.rec
                },
                ..old(self)@
            }),
    {
        let ghost all = as_lines(segment_views(segs@));
        let mut fresh: Vec<TranscriptLine> = Vec::new();
        let mut i: usize = 0;
        while i < segs.len()
            invariant
                i <= segs@.len(),
                all == as_lines(segment_views(segs@)),
                transcript_views(fresh@) =~= all.take(i as int),
            decreases segs@.len() - i,
        {
            let ghost before = transcript_views(fresh@);
            fresh.push(TranscriptLine { seg: segs[i].copy(), partial: false });
            assert(transcript_views(fresh@) =~= before.push(all[i as int]));
            i += 1;
        }
        assert(all.take(i as int) =~= all);
        self.rec.partial_idx = None;
        self.rec.lines = fresh;
    }

    fn handle_session_event(&mut self, ev: SessionEvent)
        requires
            sound(old(self)@),
        ensures
            final(self)@ == on_session(old(self)@, ev@),
    {
        match ev {
            SessionEvent::Segment(seg) => self.add_line(seg),
            SessionEvent::Replace(segs) => self.replace_lines(segs),
            SessionEvent::Status(s) => self.set_status(s),
            SessionEvent::Error(e) => self.set_notice(e, true),
            SessionEvent::AudioLevel(l) => {
                self.rec.audio_level = l;
            },
            SessionEvent::Notice(n) => self.set_notice(n, false),
        }
    }
}

impl App {
    // --- Results of work ---

    fn leave_live(&mut self, folder: &Option<String>, out: &mut Vec<Action>)
        ensures
            final(self)@ == after_save(old(self)@, opt_text(*folder)).app,
            action_views(final(out)@) == action_views(old(out)@) + after_save(
                old(self)@,
                opt_text(*folder),
            ).actions,
    {
        if is_live(self.rec.status) {
            return;
        }
        self.note_saved(folder);
        self.set_chat_scope(ChatScope::Global, out);
        let local = has_prefix(&chars_of(self.prefs.stt_model.as_str()), &chars_of("parakeet/"));
        self.home.home_mode = !local;
    }

    fn note_saved(&mut self, folder: &Option<String>)
        ensures
            final(self)@ == live_saved(old(self)@, opt_text(*folder)),
    {
        let generation: Option<u64> = match &self.chat.scope {
            ChatScope::Live(n) => Some(*n),
            _ => None,
        };
        if let Some(n) = generation {
            if let Some(f) = folder {
                self.chat.finished_live = Some((n, f.clone()));
            }
        }
    }

    fn handle_save(&mut self, s: SaveReport, out: &mut Vec<Action>)
        ensures
            final(self)@ == on_saved(old(self)@, s@).app,
            action_views(final(out)@) == action_views(old(out)@) + on_saved(
                old(self)@,
                s@,
            ).actions,
    {
        let ghost o = after_save(self@, s@.folder);
        self.leave_live(&s.folder, out);
        let ghost acts = action_views(out@);
        match s.err {
            Some(e) => {
                self.set_notice(concat2("Error saving: ", e.as_str()), true);
            },
            None => match s.folder {
                Some(folder) => {
                    if self.quitting {
                        self.should_quit = true;
                        return;
                    }
                    if s.word_count == 0 {
                        let reason = match s.stt_err {
                            Some(e) => e,
                            None => owned("no words transcribed"),
                        };
                        self.set_notice(
                            concat2("Saved audio, but transcript is EMPTY: ", reason.as_str()),
                            true,
                        );
                    } else {
                        match s.stt_err {
                            Some(e) => self.set_notice(
                                concat3("Saved (transcription incomplete: ", e.as_str(), ")"),
                                true,
                            ),
                            None => self.set_notice(
                                owned("Saved \u{2014} generating title & summary..."),
                                false,
                            ),
                        }
                        self.cmd_generate_meta(folder, s.transcript, out);
                    }
                },
                None => {
                    self.set_notice(owned("Session ended (nothing to save)"), false);
                },
            },
        }
        if self.quitting {
            self.should_quit = true;
        }
        push_action(out, Action::LoadSessions);
    }

    fn handle_meta(
        &mut self,
        title: String,
        speakers: Vec<String>,
        err: Option<String>,
        out: &mut Vec<Action>,
    )
        ensures
            final(self)@ == on_meta(old(self)@, title@, texts(speakers@), opt_text(err)).app,
            action_views(final(out)@) == action_views(old(out)@) + on_meta(
                old(self)@,
                title@,
                texts(speakers@),
                opt_text(err),
            ).actions,
    {
        self.home.summary_pending = false;
        if !self.notice.is_err {
            let text = match err {
                Some(e) => concat3("Saved (could not generate title: ", e.as_str(), ")"),
                None => if speakers.len() == 0 {
                    concat3("\u{201c}", title.as_str(), "\u{201d}")
                } else {
                    let mut t = concat3(
                        "\u{201c}",
                        title.as_str(),
                        "\u{201d} \u{2014} speakers: ",
                    );
                    t.append(join(&speakers, ", ").as_str());
                    t
                },
            };
            assert(text@ == meta_notice(title@, texts(speakers@), opt_text(err)));
            self.set_notice(text, false);
        }
        push_action(out, Action::LoadSessions);
    }

    fn handle_reply(
        &mut self,
        scope: ChatScope,
        content: String,
        err: Option<String>,
        exists: bool,
        out: &mut Vec<Action>,
    )
        ensures
            final(self)@ == on_reply(old(self)@, scope@, content@, opt_text(err), exists).app,
            action_views(final(out)@) == action_views(old(out)@) + on_reply(
                old(self)@,
                scope@,
                content@,
                opt_text(err),
                exists,
            ).actions,
    {
        let answered = match &self.chat.pending {
            Some(p) => p.is_same(&scope),
            None => false,
        };
        if answered {
            self.chat.pending = None;
        }
        let msg = ChatMessage {
            role: owned("assistant"),
            content: match err {
                Some(e) => concat2("Error: ", e.as_str()),
                None => content,
            },
        };
        if scope.is_same(&self.chat.scope) {
            let ghost before = chat_views(self.chat.msgs@);
            let ghost m = msg@;
            self.chat.msgs.push(msg);
            assert(chat_views(self.chat.msgs@) =~= before.push(m));
            self.persist_chat(out);
        } else {
            match self.chat_dir(&scope, exists) {
                Some(folder) => push_action(out, Action::AppendChat { folder, msg }),
                None => self.set_notice(
                    owned("Chat reply discarded (recording ended without saving)"),
                    true,
                ),
            }
        }
    }

    fn handle_sessions(&mut self, sessions: Vec<SessionSummary>)
        ensures
            final(self)@ == on_sessions(old(self)@, summary_views(sessions@)),
    {
        let n = sessions.len();
        let fresh = match &self.home.viewing {
            Some(v) => find_folder(&sessions, v.folder.as_str()),
            None => None,
        };
        if let Some(f) = fresh {
            self.home.viewing = Some(f);
        }
        self.home.sessions = sessions;
        if self.home.session_idx >= n {
            self.home.session_idx = less(n);
        }
    }
}

/// The choice of a model as it is named in settings.
pub open spec fn model_id(provider: Seq<char>, model: Seq<char>) -> Seq<char> {
    provider + "/"@ + model
}

impl App {
    /// The interface at its start: the home list, with the conversation that
    /// belongs to it.
    pub fn new(
        devices: Vec<Device>,
        cfg: Config,
        env: Env,
        profiles: Vec<SttProfile>,
        base_dir: String,
        templates: Vec<Template>,
        chat: Vec<ChatMessage>,
        settings: Settings,
        stt_model: String,
    ) -> (r: App)
        requires
            profiles@.len() > 0,
        ensures
            r@.setup == (SetupView {
                devices: device_views(devices@),
                cfg: cfg@,
                env: env@,
                profiles: profile_views(profiles@),
                base_dir: base_dir@,
                templates: template_views(templates@),
            }),
            r@.rec == (RecView {
                status: Status::Idle,
                audio_level: 0,
                duration: zero_clock(),
                lines: seq![],
                partial_idx: None,
                scroll: 0,
            }),
            r@.notice == (NoticeView { text: seq![], is_err: false }),
            r@.home == (HomeView {
                home_mode: true,
                sessions: seq![],
                session_idx: 0,
                viewing: None,
                view_raw: seq![],
                summary_open: true,
                summary_scroll: 0,
                summary_pending: false,
            }),
            r@.chat == (PaneView {
                open: false,
                msgs: chat_views(chat@),
                scroll: 0,
                scope: ScopeView::Global,
                pending: None,
                live_seq: 0,
                finished_live: None,
            }),
            r@.modal == (ModalView {
                selecting_mic: false,
                mic_idx: 0,
                template_open: false,
                template_idx: 0,
                settings_open: false,
                settings_tab: 0,
                stt_picker_open: false,
                stt_idx: 0,
                confirm_delete: false,
            }),
            r@.prefs.glossary == settings.glossary@,
            r@.prefs.stt_model == (if stt_model@.len() == 0 {
                model_id(cfg@.stt_provider, cfg@.stt_model)
            } else {
                stt_model@
            }),
            !r@.quitting,
            !r@.should_quit,
            sound(r@),
            partial_is_last(r@),
    {
        let chosen = if stt_model.as_str().unicode_len() == 0 {
            concat3(cfg.stt_provider.as_str(), "/", cfg.stt_model.as_str())
        } else {
            stt_model
        };
        let r = App {
            setup: Setup { devices, cfg, env, profiles, base_dir, templates },
            rec: Rec {
                status: Status::Idle,
                audio_level: 0,
                duration: owned("00:00:00"),
                lines: Vec::new(),
                partial_idx: None,
                scroll: 0,
            },
            notice: Notice { text: empty(), is_err: false },
            home: Home {
                home_mode: true,
                sessions: Vec::new(),
                session_idx: 0,
                viewing: None,
                view_raw: empty(),
                summary_open: true,
                summary_scroll: 0,
                summary_pending: false,
            },
            chat: Pane {
                open: false,
                msgs: chat,
                scroll: 0,
                scope: ChatScope::Global,
                pending: None,
                live_seq: 0,
                finished_live: None,
            },
            modal: Modal {
                selecting_mic: false,
                mic_idx: 0,
                template_open: false,
                template_idx: 0,
                settings_open: false,
                settings_tab: 0,
                stt_picker_open: false,
                stt_idx: 0,
                confirm_delete: false,
            },
            prefs: Prefs { settings, stt_model: chosen },
            quitting: false,
            should_quit: false,
        };
        assert(r@.rec.lines =~= Seq::<LineView>::empty());
        assert(r@.home.sessions =~= Seq::<SummaryView>::empty());
        r
    }

    /// What is to be done first: the list of sessions is read.
    pub fn kick_initial_load(&self) -> (r: Vec<Action>)
        ensures
            action_views(r@) == seq![ActionView::LoadSessions],
    {
        let mut out: Vec<Action> = Vec::new();
        assert(action_views(out@) =~= Seq::<ActionView>::empty());
        push_action(&mut out, Action::LoadSessions);
        assert(action_views(out@) =~= seq![ActionView::LoadSessions]);
        out
    }

    /// Reacts to a message; tells what is to be done.
    pub fn update(&mut self, msg: AppMsg) -> (r: Vec<Action>)
        requires
            sound(old(self)@),
        ensures
            final(self)@ == app_step(old(self)@, msg@).app,
            action_views(r@) == app_step(old(self)@, msg@).actions,
            sound(final(self)@),
    {
        let mut out: Vec<Action> = Vec::new();
        proof {
            steps_stay_sound(self@, msg@);
            assert(action_views(out@) =~= Seq::<ActionView>::empty());
        }
        match msg {
            AppMsg::Key(press, c) => self.handle_key(press, &c, &mut out),
            AppMsg::Resize => {},
            AppMsg::Tick(d) => {
                if let Some(t) = d {
                    self.rec.duration = t;
                }
            },
            AppMsg::Session(ev) => self.handle_session_event(ev),
            AppMsg::SaveResult(s) => self.handle_save(s, &mut out),
            AppMsg::MetaGenerated { title, speakers, err } => self.handle_meta(
                title,
                speakers,
                err,
                &mut out,
            ),
            AppMsg::ChatResponse { scope, content, err, folder_exists } => self.handle_reply(
                scope,
                content,
                err,
                folder_exists,
                &mut out,
            ),
            AppMsg::SessionsLoaded(v) => self.handle_sessions(v),
        }
        out
    }

    /// The conversation of the current scope was read.
    pub fn chat_loaded(&mut self, msgs: Vec<ChatMessage>)
        ensures
            final(self)@ == (AppView {
                chat: PaneView { msgs: chat_views(msgs@), ..old(self)@.chat },
                ..old(self)@
            }),
    {
        self.chat.msgs = msgs;
    }

    /// The transcript of the session in view was read.
    pub fn transcript_loaded(&mut self, text: String)
        ensures
            final(self)@ == (AppView {
                home: HomeView { view_raw: text@, ..old(self)@.home },
                ..old(self)@
            }),
    {
        self.home.view_raw = text;
    }

    /// The choice of a model was stored, or not.
    pub fn model_saved(&mut self, label: &str, result: Result<(), String>)
        ensures
            final(self)@ == (match result {
                Ok(_) => noticed(old(self)@, "STT model set to "@ + label@, false),
                Err(e) => noticed(old(self)@, "Could not save STT model: "@ + e@, true),
            }),
    {
        match result {
            Ok(_) => self.set_notice(concat2("STT model set to ", label), false),
            Err(e) => self.set_notice(concat2("Could not save STT model: ", e.as_str()), true),
        }
    }

    /// The glossary was stored, or not.
    pub fn glossary_saved(&mut self, result: Result<(), String>)
        ensures
            final(self)@ == (match result {
                Ok(_) => noticed(
                    old(self)@,
                    glossary_notice(glossary_terms(old(self)@.prefs.glossary).len()),
                    false,
                ),
                Err(e) => noticed(old(self)@, "Could not save glossary: "@ + e@, true),
            }),
    {
        match result {
            Ok(_) => {
                let n = self.prefs.settings.keyterms().len();
                let mut text = concat3(
                    "Glossary saved \u{2014} ",
                    decimal_string(n as u64).as_str(),
                    " term",
                );
                if n != 1 {
                    text.append("s");
                }
                assert(text@ == glossary_notice(n as nat));
                self.set_notice(text, false);
            },
            Err(e) => self.set_notice(concat2("Could not save glossary: ", e.as_str()), true),
        }
    }
}

/// The notice that a glossary of so many terms was stored.
pub open spec fn glossary_notice(n: nat) -> Seq<char> {
    let text = "Glossary saved \u{2014} "@ + decimal(n) + " term"@;
    if n == 1 {
        text
    } else {
        text + "s"@
    }
}

fn find_folder(sessions: &Vec<SessionSummary>, folder: &str) -> (r: Option<SessionSummary>)
    ensures
        r is Some <==> with_folder(summary_views(sessions@), folder@) is Some,
        r matches Some(s) ==> s@ == with_folder(summary_views(sessions@), folder@)->0,
{
    let ghost views = summary_views(sessions@);
    let mut i: usize = 0;
    assert(views.skip(0) =~= views);
    while i < sessions.len()
        invariant
            i <= sessions@.len(),
            views == summary_views(sessions@),
            with_folder(views, folder@) == with_folder(views.skip(i as int), folder@),
        decreases sessions@.len() - i,
    {
        assert(views.skip(i as int)[0] == sessions@[i as int]@);
        assert(views.skip(i as int).drop_first() =~= views.skip(i + 1));
        if same(sessions[i].folder.as_str(), folder) {
            return Some(sessions[i].copy());
        }
        i += 1;
    }
    None
}

} // verus!

//! What the interface is to do: its state as a mathematical value, and the step
//! from one state to the next.

use super::msg::{ActionView, ContextView, Key, KeyPress, MsgView, SaveView, ScopeView};
use crate::audio::DeviceView;
use crate::config::{key_of, ConfigView};
use crate::llm::client::ChatView;
use crate::llm::templates::TemplateView;
use crate::session::{SessionEventView, Status, SummaryView};
use crate::settings::{glossary_prompt, glossary_terms};
use crate::stt::SegmentView;
use crate::text::{countable, joined, lines_of, starts_with, trimmed, uppercase};
use vstd::prelude::*;

verus! {

// ---------------------------------------------------------------------------
// The state
// ---------------------------------------------------------------------------

/// A line of the live transcript.
pub struct LineView {
    pub seg: SegmentView,
    pub partial: bool,
}

/// A speech-to-text model that can be chosen.
pub struct ProfileView {
    pub id: Seq<char>,
    pub label: Seq<char>,
    pub provider: Seq<char>,
    pub model: Seq<char>,
}

/// What the interface was set up with.
pub struct SetupView {
    pub devices: Seq<DeviceView>,
    pub cfg: ConfigView,
    pub env: Seq<(Seq<char>, Seq<char>)>,
    pub profiles: Seq<ProfileView>,
    pub base_dir: Seq<char>,
    pub templates: Seq<TemplateView>,
}

/// The recording and its transcript.
pub struct RecView {
    pub status: Status,
    pub audio_level: nat,
    pub duration: Seq<char>,
    pub lines: Seq<LineView>,
    pub partial_idx: Option<nat>,
    pub scroll: nat,
}

/// What the user is told.
pub struct NoticeView {
    pub text: Seq<char>,
    pub is_err: bool,
}

/// The stored sessions.
pub struct HomeView {
    pub home_mode: bool,
    pub sessions: Seq<SummaryView>,
    pub session_idx: nat,
    pub viewing: Option<SummaryView>,
    pub view_raw: Seq<char>,
    pub summary_open: bool,
    pub summary_scroll: nat,
    pub summary_pending: bool,
}

/// The conversation.
pub struct PaneView {
    pub open: bool,
    pub msgs: Seq<ChatView>,
    pub scroll: nat,
    pub scope: ScopeView,
    pub pending: Option<ScopeView>,
    pub live_seq: nat,
    pub finished_live: Option<(nat, Seq<char>)>,
}

/// What can lie above the views.
pub struct ModalView {
    pub selecting_mic: bool,
    pub mic_idx: nat,
    pub template_open: bool,
    pub template_idx: nat,
    pub settings_open: bool,
    pub settings_tab: nat,
    pub stt_picker_open: bool,
    pub stt_idx: nat,
    pub confirm_delete: bool,
}

/// What the user has set.
pub struct PrefsView {
    pub glossary: Seq<char>,
    pub stt_model: Seq<char>,
}

/// The state of the interface.
pub struct AppView {
    pub setup: SetupView,
    pub rec: RecView,
    pub notice: NoticeView,
    pub home: HomeView,
    pub chat: PaneView,
    pub modal: ModalView,
    pub prefs: PrefsView,
    pub quitting: bool,
    pub should_quit: bool,
}

/// A state, and what is to be done on the way to it.
pub struct Outcome {
    pub app: AppView,
    pub actions: Seq<ActionView>,
}

/// The line that is being transcribed is one of the lines, and the chosen model
/// one of the models.
pub open spec fn sound(a: AppView) -> bool {
    &&& a.rec.partial_idx matches Some(i) ==> i < a.rec.lines.len()
    &&& a.modal.stt_idx < a.setup.profiles.len()
}

/// At most one line is still being transcribed: the last one, whose place is
/// kept.
pub open spec fn partial_is_last(a: AppView) -> bool {
    &&& a.rec.partial_idx matches Some(i) ==> i + 1 == a.rec.lines.len()
    &&& forall|i: int|
        0 <= i < a.rec.lines.len() ==> ((#[trigger] a.rec.lines[i]).partial <==> a.rec.partial_idx
            == Some(i as nat))
}

/// Nothing is to be done.
pub open spec fn quietly(a: AppView) -> Outcome {
    Outcome { app: a, actions: seq![] }
}

/// One thing is to be done.
pub open spec fn doing(a: AppView, action: ActionView) -> Outcome {
    Outcome { app: a, actions: seq![action] }
}

/// What is to be done before, then another thing.
pub open spec fn then_doing(o: Outcome, action: ActionView) -> Outcome {
    Outcome { actions: o.actions.push(action), ..o }
}

/// With a notice.
pub open spec fn noticed(a: AppView, text: Seq<char>, is_err: bool) -> AppView {
    AppView { notice: NoticeView { text, is_err }, ..a }
}

/// Whether a session is being recorded or paused.
pub open spec fn in_session(s: Status) -> bool {
    s is Recording || s is Paused
}

/// One more, as far as the machine can count.
pub open spec fn one_more(n: nat) -> nat {
    countable(n + 1)
}

/// One less, down to none.
pub open spec fn one_less(n: nat) -> nat {
    if n == 0 {
        0
    } else {
        (n - 1) as nat
    }
}

/// The next position in a list of a length, if there is one.
pub open spec fn next_in(i: nat, len: nat) -> nat {
    if i + 1 < len {
        i + 1
    } else {
        i
    }
}

// ---------------------------------------------------------------------------
// Conversations
// ---------------------------------------------------------------------------

/// The folder of the recording with a generation number, once it is saved.
pub open spec fn live_folder(a: AppView, n: nat) -> Option<Seq<char>> {
    match a.chat.finished_live {
        Some((m, f)) => if m == n {
            Some(f)
        } else {
            None
        },
        None => None,
    }
}

/// Where a scope's conversation is stored, if anywhere; `exists` tells whether a
/// session's folder is still there.
pub open spec fn chat_dir(a: AppView, scope: ScopeView, exists: bool) -> Option<Seq<char>> {
    match scope {
        ScopeView::Global => Some(a.setup.base_dir),
        ScopeView::Session(f) => if exists {
            Some(f)
        } else {
            None
        },
        ScopeView::Live(n) => live_folder(a, n),
    }
}

/// What stores the current conversation; an empty one is not stored.
pub open spec fn persisting(a: AppView) -> Seq<ActionView> {
    if a.chat.msgs.len() == 0 {
        seq![]
    } else {
        match a.chat.scope {
            ScopeView::Global => seq![ActionView::SaveGlobalChat(a.chat.msgs)],
            ScopeView::Session(f) => seq![ActionView::SaveChat(f, true, a.chat.msgs)],
            ScopeView::Live(n) => match live_folder(a, n) {
                Some(f) => seq![ActionView::SaveChat(f, false, a.chat.msgs)],
                None => seq![],
            },
        }
    }
}

/// Changes the scope: the outgoing conversation is stored, the incoming one
/// read. A pending question stays pending.
pub open spec fn scoped(a: AppView, scope: ScopeView) -> Outcome {
    if scope == a.chat.scope {
        quietly(a)
    } else {
        Outcome {
            app: AppView { chat: PaneView { scope, msgs: seq![], scroll: 0, ..a.chat }, ..a },
            actions: if scope is Live {
                persisting(a)
            } else {
                persisting(a).push(ActionView::LoadChat(scope))
            },
        }
    }
}

/// What the input field for questions shows while empty.
pub open spec fn placeholder(scope: ScopeView) -> Seq<char> {
    if scope is Global {
        "Ask anything..."@
    } else {
        "Ask about the transcript..."@
    }
}

/// Whether a question of the current scope awaits its reply.
pub open spec fn chat_loading(a: AppView) -> bool {
    a.chat.pending == Some(a.chat.scope)
}

/// What the input field for questions holds.
pub open spec fn input_text(lines: Seq<Seq<char>>) -> Seq<char> {
    trimmed(joined(lines, " "@))
}

/// The language model's instructions for a question.
pub open spec fn instructions(a: AppView, live_text: Seq<char>) -> Seq<char> {
    if a.chat.scope is Global {
        "You are a helpful assistant inside a meeting-recorder app. No recording is currently open. Answer concisely."@
    } else {
        "You are a helpful assistant answering questions about a live meeting recording. Answer concisely based on the transcript below. If the transcript is empty or the answer isn't there, say so.\n\nTranscript so far:\n"@
            + (if a.home.viewing is Some {
            a.home.view_raw
        } else {
            live_text
        })
    }
}

/// The conversation without its last turn.
pub open spec fn history(msgs: Seq<ChatView>) -> Seq<ChatView> {
    if msgs.len() == 0 {
        msgs
    } else {
        msgs.drop_last()
    }
}

/// Asks a question whose turn was just added to the conversation.
pub open spec fn asking(a: AppView, question: Seq<char>, live_text: Seq<char>) -> Outcome {
    doing(
        AppView { chat: PaneView { pending: Some(a.chat.scope), ..a.chat }, ..a },
        ActionView::Ask(
            a.chat.scope,
            instructions(a, live_text),
            history(a.chat.msgs),
            question,
            glossary_prompt(a.prefs.glossary),
        ),
    )
}

/// Adds a turn of the user's to the conversation, then asks a question.
pub open spec fn saying(a: AppView, turn: Seq<char>) -> AppView {
    AppView {
        chat: PaneView {
            msgs: a.chat.msgs.push(ChatView { role: "user"@, content: turn }),
            scroll: 0,
            ..a.chat
        },
        ..a
    }
}

/// What asks for title and summary, where a language model is set up and the
/// transcript holds anything.
pub open spec fn meta_actions(a: AppView, folder: Seq<char>, transcript: Seq<char>) -> Seq<
    ActionView,
> {
    if a.setup.cfg.llm_api_key.len() == 0 || trimmed(transcript).len() == 0 {
        seq![]
    } else {
        seq![ActionView::GenerateMeta(folder, transcript, glossary_prompt(a.prefs.glossary))]
    }
}

// ---------------------------------------------------------------------------
// Session events
// ---------------------------------------------------------------------------

/// A segment arrived. A final one takes the place of the partial line, if there
/// is one; and transcription that works again ends the notice of its failure.
pub open spec fn on_segment(a: AppView, seg: SegmentView) -> AppView {
    let b = if seg.is_final && a.notice.is_err && a.rec.status is Recording {
        noticed(a, seq![], false)
    } else {
        a
    };
    let line = LineView { seg, partial: !seg.is_final };
    match b.rec.partial_idx {
        Some(i) => AppView {
            rec: RecView {
                lines: b.rec.lines.update(i as int, line),
                partial_idx: if seg.is_final {
                    None
                } else {
                    Some(i)
                },
                ..b.rec
            },
            ..b
        },
        None => AppView {
            rec: RecView {
                lines: b.rec.lines.push(line),
                partial_idx: if seg.is_final {
                    None
                } else {
                    Some(b.rec.lines.len())
                },
                ..b.rec
            },
            ..b
        },
    }
}

/// Segments as lines.
pub open spec fn as_lines(segs: Seq<SegmentView>) -> Seq<LineView> {
    segs.map_values(|s: SegmentView| LineView { seg: s, partial: false })
}

/// The clock before anything was recorded.
pub open spec fn zero_clock() -> Seq<char> {
    "00:00:00"@
}

/// The session's status changed.
pub open spec fn on_status(a: AppView, s: Status) -> AppView {
    match s {
        Status::Idle => AppView {
            rec: RecView { status: s, duration: zero_clock(), audio_level: 0, ..a.rec },
            home: HomeView { home_mode: true, ..a.home },
            ..a
        },
        Status::Finished => AppView {
            rec: RecView { status: s, duration: zero_clock(), audio_level: 0, ..a.rec },
            ..a
        },
        Status::Recording => AppView {
            rec: RecView { status: s, ..a.rec },
            home: HomeView { home_mode: false, ..a.home },
            ..a
        },
        Status::Paused => AppView { rec: RecView { status: s, ..a.rec }, ..a },
    }
}

/// Something happened in the session.
pub open spec fn on_session(a: AppView, ev: SessionEventView) -> AppView {
    match ev {
        SessionEventView::Segment(seg) => on_segment(a, seg),
        SessionEventView::Replace(segs) => AppView {
            rec: RecView { partial_idx: None, lines: as_lines(segs), ..a.rec },
            ..a
        },
        SessionEventView::Status(s) => on_status(a, s),
        SessionEventView::Error(e) => noticed(a, e, true),
        SessionEventView::AudioLevel(l) => AppView {
            rec: RecView { audio_level: l, ..a.rec },
            ..a
        },
        SessionEventView::Notice(n) => noticed(a, n, false),
    }
}

// ---------------------------------------------------------------------------
// Results of work
// ---------------------------------------------------------------------------

/// The recording of the current scope, if that is a live one, was saved to a
/// folder.
pub open spec fn live_saved(a: AppView, folder: Option<Seq<char>>) -> AppView {
    match (a.chat.scope, folder) {
        (ScopeView::Live(n), Some(f)) => AppView {
            chat: PaneView { finished_live: Some((n, f)), ..a.chat },
            ..a
        },
        _ => a,
    }
}

/// Leaves the live view after a save, unless another recording has begun: that
/// one's view and conversation are not touched. A local batch model's transcript
/// stays in view.
pub open spec fn after_save(a: AppView, folder: Option<Seq<char>>) -> Outcome {
    if in_session(a.rec.status) {
        quietly(a)
    } else {
        let o = scoped(live_saved(a, folder), ScopeView::Global);
        Outcome {
            app: AppView {
                home: HomeView {
                    home_mode: !starts_with(a.prefs.stt_model, "parakeet/"@),
                    ..o.app.home
                },
                ..o.app
            },
            ..o
        }
    }
}

/// The notice of a save, and whether it is an error.
pub open spec fn save_notice(s: SaveView) -> (Seq<char>, bool) {
    match s.err {
        Some(e) => ("Error saving: "@ + e, true),
        None => match s.folder {
            None => ("Session ended (nothing to save)"@, false),
            Some(_) => if s.word_count == 0 {
                (
                    "Saved audio, but transcript is EMPTY: "@ + (match s.stt_err {
                        Some(e) => e,
                        None => "no words transcribed"@,
                    }),
                    true,
                )
            } else {
                match s.stt_err {
                    Some(e) => ("Saved (transcription incomplete: "@ + e + ")"@, true),
                    None => ("Saved \u{2014} generating title & summary..."@, false),
                }
            },
        },
    }
}

/// A save came to its end. Quitting waits for it.
pub open spec fn on_saved(a: AppView, s: SaveView) -> Outcome {
    let o = after_save(a, s.folder);
    if s.err is None && s.folder is Some && a.quitting {
        Outcome { app: AppView { should_quit: true, ..o.app }, ..o }
    } else {
        let (text, is_err) = save_notice(s);
        let b = noticed(o.app, text, is_err);
        let meta = if s.err is None && s.folder is Some && s.word_count > 0 {
            meta_actions(b, s.folder->0, s.transcript)
        } else {
            seq![]
        };
        Outcome {
            app: AppView { should_quit: b.should_quit || a.quitting, ..b },
            actions: (o.actions + meta).push(ActionView::LoadSessions),
        }
    }
}

/// The notice of title and summary.
pub open spec fn meta_notice(
    title: Seq<char>,
    speakers: Seq<Seq<char>>,
    err: Option<Seq<char>>,
) -> Seq<char> {
    match err {
        Some(e) => "Saved (could not generate title: "@ + e + ")"@,
        None => if speakers.len() == 0 {
            "\u{201c}"@ + title + "\u{201d}"@
        } else {
            "\u{201c}"@ + title + "\u{201d} \u{2014} speakers: "@ + joined(speakers, ", "@)
        },
    }
}

/// Title and summary were generated. A visible error outranks their
/// announcement.
pub open spec fn on_meta(
    a: AppView,
    title: Seq<char>,
    speakers: Seq<Seq<char>>,
    err: Option<Seq<char>>,
) -> Outcome {
    let b = AppView { home: HomeView { summary_pending: false, ..a.home }, ..a };
    doing(
        if b.notice.is_err {
            b
        } else {
            noticed(b, meta_notice(title, speakers, err), false)
        },
        ActionView::LoadSessions,
    )
}

/// The notice of a reply that nobody can see anymore.
pub open spec fn discarded_text() -> Seq<char> {
    "Chat reply discarded (recording ended without saving)"@
}

/// A reply came. It goes to the conversation that it belongs to, though that be
/// no longer the one in view.
pub open spec fn on_reply(
    a: AppView,
    scope: ScopeView,
    content: Seq<char>,
    err: Option<Seq<char>>,
    exists: bool,
) -> Outcome {
    let b = if a.chat.pending == Some(scope) {
        AppView { chat: PaneView { pending: None, ..a.chat }, ..a }
    } else {
        a
    };
    let msg = ChatView {
        role: "assistant"@,
        content: match err {
            Some(e) => "Error: "@ + e,
            None => content,
        },
    };
    if scope == b.chat.scope {
        let c = AppView { chat: PaneView { msgs: b.chat.msgs.push(msg), ..b.chat }, ..b };
        Outcome { app: c, actions: persisting(c) }
    } else {
        match chat_dir(b, scope, exists) {
            Some(dir) => doing(b, ActionView::AppendChat(dir, msg)),
            None => quietly(noticed(b, discarded_text(), true)),
        }
    }
}

/// The first session with a folder; none where none has it.
pub open spec fn with_folder(sessions: Seq<SummaryView>, folder: Seq<char>) -> Option<SummaryView>
    decreases sessions.len(),
{
    if sessions.len() == 0 {
        None
    } else if sessions[0].folder == folder {
        Some(sessions[0])
    } else {
        with_folder(sessions.drop_first(), folder)
    }
}

/// The list of sessions was read. The selection stays within it, and the session
/// in view is shown as it is now.
pub open spec fn on_sessions(a: AppView, sessions: Seq<SummaryView>) -> AppView {
    AppView {
        home: HomeView {
            sessions,
            session_idx: if a.home.session_idx >= sessions.len() {
                one_less(sessions.len())
            } else {
                a.home.session_idx
            },
            viewing: match a.home.viewing {
                Some(v) => match with_folder(sessions, v.folder) {
                    Some(fresh) => Some(fresh),
                    None => Some(v),
                },
                None => None,
            },
            ..a.home
        },
        ..a
    }
}

// ---------------------------------------------------------------------------
// Keys
// ---------------------------------------------------------------------------

/// Chooses among the speech-to-text models.
#[verifier::opaque]
pub open spec fn picker_key(a: AppView, key: Key) -> Outcome {
    match key {
        Key::Esc => quietly(
            AppView { modal: ModalView { stt_picker_open: false, ..a.modal }, ..a },
        ),
        Key::Up | Key::Char('k') => quietly(
            AppView { modal: ModalView { stt_idx: one_less(a.modal.stt_idx), ..a.modal }, ..a },
        ),
        Key::Down | Key::Char('j') => quietly(
            AppView {
                modal: ModalView {
                    stt_idx: next_in(a.modal.stt_idx, a.setup.profiles.len()),
                    ..a.modal
                },
                ..a
            },
        ),
        Key::Enter => {
            let p = a.setup.profiles[a.modal.stt_idx as int];
            doing(
                AppView {
                    prefs: PrefsView { stt_model: p.id, ..a.prefs },
                    modal: ModalView { stt_picker_open: false, ..a.modal },
                    ..a
                },
                ActionView::SaveModel(p.id, p.label),
            )
        },
        _ => quietly(a),
    }
}

/// Leaves the glossary's editor and keeps what it holds.
pub open spec fn glossary_kept(a: AppView, lines: Seq<Seq<char>>) -> Outcome {
    let glossary = joined(lines, "\n"@);
    Outcome {
        app: AppView {
            prefs: PrefsView { glossary, ..a.prefs },
            modal: ModalView { settings_open: false, ..a.modal },
            ..a
        },
        actions: seq![
            ActionView::SetKeyterms(glossary_terms(glossary)),
            ActionView::SaveGlossary(glossary),
        ],
    }
}

/// A key in the settings: the arrows and digits change the page, the rest goes
/// to the page.
#[verifier::opaque]
pub open spec fn settings_key(a: AppView, press: KeyPress, c: ContextView) -> Outcome {
    match press.key {
        Key::Left | Key::Char('1') => quietly(
            AppView { modal: ModalView { settings_tab: 0, ..a.modal }, ..a },
        ),
        Key::Right | Key::Char('2') => quietly(
            AppView { modal: ModalView { settings_tab: 1, ..a.modal }, ..a },
        ),
        key => if a.modal.settings_tab == 1 {
            let o = picker_key(a, key);
            if key is Esc {
                Outcome {
                    app: AppView {
                        modal: ModalView { settings_open: false, ..o.app.modal },
                        ..o.app
                    },
                    ..o
                }
            } else {
                o
            }
        } else if key == Key::Char('c') && press.ctrl {
            quietly(AppView { modal: ModalView { settings_open: false, ..a.modal }, ..a })
        } else if key is Esc {
            glossary_kept(a, c.settings_lines)
        } else {
            doing(a, ActionView::EditGlossary)
        },
    }
}

/// A key in the question whether to delete a session.
#[verifier::opaque]
pub open spec fn delete_key(a: AppView, key: Key) -> Outcome {
    match key {
        Key::Char('y') | Key::Char('Y') => if a.home.session_idx < a.home.sessions.len() {
            Outcome {
                app: AppView {
                    home: HomeView { session_idx: one_less(a.home.session_idx), ..a.home },
                    modal: ModalView { confirm_delete: false, ..a.modal },
                    ..a
                },
                actions: seq![
                    ActionView::DeleteFolder(a.home.sessions[a.home.session_idx as int].folder),
                    ActionView::LoadSessions,
                ],
            }
        } else {
            quietly(AppView { modal: ModalView { confirm_delete: false, ..a.modal }, ..a })
        },
        Key::Char('n') | Key::Char('N') | Key::Esc => quietly(
            AppView { modal: ModalView { confirm_delete: false, ..a.modal }, ..a },
        ),
        _ => quietly(a),
    }
}

/// A key in the list of quick questions. The chosen one's name is shown, its
/// prompt is asked.
#[verifier::opaque]
pub open spec fn template_key(a: AppView, key: Key, c: ContextView) -> Outcome {
    match key {
        Key::Esc => quietly(AppView { modal: ModalView { template_open: false, ..a.modal }, ..a }),
        Key::Up | Key::Char('k') => quietly(
            AppView {
                modal: ModalView { template_idx: one_less(a.modal.template_idx), ..a.modal },
                ..a
            },
        ),
        Key::Down | Key::Char('j') => quietly(
            AppView {
                modal: ModalView {
                    template_idx: next_in(a.modal.template_idx, a.setup.templates.len()),
                    ..a.modal
                },
                ..a
            },
        ),
        Key::Enter => {
            let b = AppView { modal: ModalView { template_open: false, ..a.modal }, ..a };
            if a.modal.template_idx < a.setup.templates.len() {
                let t = a.setup.templates[a.modal.template_idx as int];
                asking(saying(b, t.name), t.prompt, c.live_text)
            } else {
                quietly(b)
            }
        },
        _ => quietly(a),
    }
}

/// The most bytes that a question is typed with.
pub open spec fn chat_limit() -> nat {
    500
}

/// Whether a key may change the question: always to make it shorter or to move
/// in it, else as long as it is short enough.
pub open spec fn edits_chat(key: Key, len: nat) -> bool {
    len < chat_limit() || key is Backspace || key is Delete || key is Left || key is Right
}

/// The bytes of a text.
pub open spec fn byte_len(s: Seq<char>) -> nat {
    vstd::utf8::encode_utf8(s).len()
}

/// A key in the chat.
#[verifier::opaque]
pub open spec fn chat_key(a: AppView, press: KeyPress, c: ContextView) -> Outcome {
    let text = input_text(c.chat_lines);
    let key = press.key;
    if key is Esc || (key == Key::Char('c') && press.ctrl) {
        quietly(AppView { chat: PaneView { open: false, ..a.chat }, ..a })
    } else if key == Key::Char('?') && text.len() == 0 && a.setup.templates.len() > 0 {
        quietly(
            AppView { modal: ModalView { template_open: true, template_idx: 0, ..a.modal }, ..a },
        )
    } else if key is Enter {
        if text.len() > 0 && !chat_loading(a) {
            let o = asking(saying(a, text), text, c.live_text);
            Outcome {
                app: o.app,
                actions: seq![ActionView::ClearChat(placeholder(a.chat.scope))] + o.actions,
            }
        } else {
            quietly(a)
        }
    } else if key is Up {
        quietly(AppView { chat: PaneView { scroll: one_more(a.chat.scroll), ..a.chat }, ..a })
    } else if key is Down {
        quietly(AppView { chat: PaneView { scroll: one_less(a.chat.scroll), ..a.chat }, ..a })
    } else if edits_chat(key, byte_len(text)) {
        doing(a, ActionView::EditChat)
    } else {
        quietly(a)
    }
}

/// A key in the list of microphones.
#[verifier::opaque]
pub open spec fn mic_key(a: AppView, key: Key) -> Outcome {
    match key {
        Key::Up | Key::Char('k') => quietly(
            AppView { modal: ModalView { mic_idx: one_less(a.modal.mic_idx), ..a.modal }, ..a },
        ),
        Key::Down | Key::Char('j') => quietly(
            AppView {
                modal: ModalView {
                    mic_idx: next_in(a.modal.mic_idx, a.setup.devices.len()),
                    ..a.modal
                },
                ..a
            },
        ),
        Key::Enter => {
            let b = AppView { modal: ModalView { selecting_mic: false, ..a.modal }, ..a };
            if a.modal.mic_idx < a.setup.devices.len() {
                let d = a.setup.devices[a.modal.mic_idx as int];
                doing(
                    noticed(b, "Microphone: "@ + d.name, false),
                    ActionView::SetDevice(d.index),
                )
            } else {
                quietly(b)
            }
        },
        Key::Esc | Key::Char('q') => quietly(
            AppView { modal: ModalView { selecting_mic: false, ..a.modal }, ..a },
        ),
        _ => quietly(a),
    }
}

/// What tells that a language model is to be set up for something.
pub open spec fn setup_text(provider: Seq<char>, what: Seq<char>) -> Seq<char> {
    "Set LLM_MODEL and "@ + uppercase(provider) + "_API_KEY to enable "@ + what
}

/// Opens the chat, where a language model is set up.
#[verifier::opaque]
pub open spec fn chat_opened(a: AppView) -> Outcome {
    if a.setup.cfg.llm_api_key.len() == 0 {
        quietly(noticed(a, setup_text(a.setup.cfg.llm_provider, "chat"@), true))
    } else {
        doing(
            AppView { chat: PaneView { open: true, scroll: 0, ..a.chat }, ..a },
            ActionView::ChatPlaceholder(placeholder(a.chat.scope)),
        )
    }
}

/// Shows or hides the summary of the session in view; one that is missing is
/// generated.
#[verifier::opaque]
pub open spec fn summary_toggled(a: AppView) -> Outcome {
    match a.home.viewing {
        None => quietly(a),
        Some(v) => if v.summary.len() > 0 {
            quietly(
                AppView { home: HomeView { summary_open: !a.home.summary_open, ..a.home }, ..a },
            )
        } else if a.setup.cfg.llm_api_key.len() == 0 {
            quietly(noticed(a, setup_text(a.setup.cfg.llm_provider, "summaries"@), true))
        } else if trimmed(a.home.view_raw).len() == 0 {
            quietly(
                noticed(a, "Transcript is empty \u{2014} nothing to summarize"@, true),
            )
        } else if a.home.summary_pending {
            quietly(a)
        } else {
            let b = noticed(
                AppView {
                    home: HomeView { summary_pending: true, summary_open: true, ..a.home },
                    ..a
                },
                "Generating summary..."@,
                false,
            );
            Outcome { app: b, actions: meta_actions(b, v.folder, a.home.view_raw) }
        },
    }
}

/// Returns to the recording in progress.
#[verifier::opaque]
pub open spec fn back_to_live(a: AppView) -> Outcome {
    scoped(
        AppView {
            home: HomeView { home_mode: false, viewing: None, ..a.home },
            chat: PaneView { open: false, ..a.chat },
            ..a
        },
        ScopeView::Live(a.chat.live_seq),
    )
}

/// The next generation number.
pub open spec fn next_seq(n: nat) -> nat {
    if n < u64::MAX {
        n + 1
    } else {
        n
    }
}

/// The chosen speech-to-text model, if it is one of the models.
pub open spec fn profile_of(profiles: Seq<ProfileView>, id: Seq<char>) -> Option<ProfileView>
    decreases profiles.len(),
{
    if profiles.len() == 0 {
        None
    } else if profiles[0].id == id {
        Some(profiles[0])
    } else {
        profile_of(profiles.drop_first(), id)
    }
}

/// What starts a recording: with the chosen model, else with the configured one.
pub open spec fn start_action(a: AppView) -> ActionView {
    match profile_of(a.setup.profiles, a.prefs.stt_model) {
        Some(p) => ActionView::StartSession(p.provider, p.model, key_of(a.setup.env, p.provider)),
        None => ActionView::StartSession(
            a.setup.cfg.stt_provider,
            a.setup.cfg.stt_model,
            a.setup.cfg.stt_api_key,
        ),
    }
}

/// Begins a recording with an empty transcript and a conversation of its own.
#[verifier::opaque]
pub open spec fn begun(a: AppView) -> Outcome {
    let seq = next_seq(a.chat.live_seq);
    let o = scoped(
        AppView {
            rec: RecView {
                lines: seq![],
                partial_idx: None,
                scroll: 0,
                duration: zero_clock(),
                ..a.rec
            },
            notice: NoticeView { text: seq![], ..a.notice },
            home: HomeView { home_mode: false, viewing: None, ..a.home },
            chat: PaneView { open: false, live_seq: seq, ..a.chat },
            ..a
        },
        ScopeView::Live(seq),
    );
    then_doing(o, start_action(a))
}

/// Quits; a recording is finished and saved first.
#[verifier::opaque]
pub open spec fn quit(a: AppView) -> Outcome {
    if in_session(a.rec.status) {
        doing(AppView { quitting: true, ..a }, ActionView::Finish)
    } else {
        Outcome { app: AppView { should_quit: true, ..a }, actions: persisting(a) }
    }
}

/// The glossary's lines as they are edited.
pub open spec fn editor_lines(glossary: Seq<char>) -> Seq<Seq<char>> {
    if glossary.len() == 0 {
        seq![seq![]]
    } else {
        lines_of(glossary)
    }
}

/// Opens a stored session: its transcript and its conversation are read.
#[verifier::opaque]
pub open spec fn viewed(a: AppView) -> Outcome {
    if a.home.viewing is None && a.home.session_idx < a.home.sessions.len() {
        let s = a.home.sessions[a.home.session_idx as int];
        let o = scoped(a, ScopeView::Session(s.folder));
        Outcome {
            app: AppView {
                home: HomeView {
                    viewing: Some(s),
                    summary_open: true,
                    summary_scroll: 0,
                    summary_pending: false,
                    ..o.app.home
                },
                rec: RecView { scroll: 0, ..o.app.rec },
                ..o.app
            },
            actions: seq![ActionView::LoadTranscript(s.folder)] + o.actions,
        }
    } else {
        quietly(a)
    }
}

/// A key in the home view.
#[verifier::opaque]
pub open spec fn home_key(a: AppView, key: Key) -> Outcome {
    match key {
        Key::Up | Key::Char('k') => quietly(
            if a.home.viewing is Some {
                AppView { rec: RecView { scroll: one_more(a.rec.scroll), ..a.rec }, ..a }
            } else {
                AppView {
                    home: HomeView { session_idx: one_less(a.home.session_idx), ..a.home },
                    ..a
                }
            },
        ),
        Key::Down | Key::Char('j') => quietly(
            if a.home.viewing is Some {
                AppView { rec: RecView { scroll: one_less(a.rec.scroll), ..a.rec }, ..a }
            } else {
                AppView {
                    home: HomeView {
                        session_idx: next_in(a.home.session_idx, a.home.sessions.len()),
                        ..a.home
                    },
                    ..a
                }
            },
        ),
        Key::Enter => viewed(a),
        Key::Esc => if a.home.viewing is None && in_session(a.rec.status) {
            back_to_live(a)
        } else {
            scoped(
                AppView {
                    home: HomeView { viewing: None, ..a.home },
                    chat: PaneView { open: false, ..a.chat },
                    ..a
                },
                ScopeView::Global,
            )
        },
        Key::Char('c') | Key::Char('C') => chat_opened(a),
        Key::Char('s') | Key::Char('S') => if a.home.viewing is Some {
            summary_toggled(a)
        } else {
            doing(
                AppView {
                    modal: ModalView { settings_tab: 0, settings_open: true, ..a.modal },
                    ..a
                },
                ActionView::OpenGlossary(editor_lines(a.prefs.glossary)),
            )
        },
        Key::PageUp => quietly(
            if a.home.viewing is Some {
                AppView {
                    home: HomeView { summary_scroll: one_less(a.home.summary_scroll), ..a.home },
                    ..a
                }
            } else {
                a
            },
        ),
        Key::PageDown => quietly(
            if a.home.viewing is Some {
                AppView {
                    home: HomeView { summary_scroll: one_more(a.home.summary_scroll), ..a.home },
                    ..a
                }
            } else {
                a
            },
        ),
        Key::Char('n') | Key::Char('N') => if in_session(a.rec.status) {
            back_to_live(a)
        } else {
            begun(a)
        },
        Key::Char('d') | Key::Char('D') => quietly(
            if a.home.viewing is None && a.home.sessions.len() > 0 {
                AppView { modal: ModalView { confirm_delete: true, ..a.modal }, ..a }
            } else {
                a
            },
        ),
        Key::Char('q') | Key::Char('Q') => quit(a),
        _ => quietly(a),
    }
}

/// A key in the live view.
#[verifier::opaque]
pub open spec fn live_key(a: AppView, key: Key) -> Outcome {
    match key {
        Key::Esc => if in_session(a.rec.status) {
            quietly(a)
        } else {
            scoped(
                AppView { home: HomeView { home_mode: true, viewing: None, ..a.home }, ..a },
                ScopeView::Global,
            )
        },
        Key::Char('n') | Key::Char('N') => if in_session(a.rec.status) {
            quietly(a)
        } else {
            begun(a)
        },
        Key::Char('p') | Key::Char('P') => match a.rec.status {
            Status::Recording => doing(a, ActionView::Pause),
            Status::Paused => doing(a, ActionView::Resume),
            _ => quietly(a),
        },
        Key::Char('f') | Key::Char('F') => if in_session(a.rec.status) {
            doing(a, ActionView::Finish)
        } else {
            quietly(a)
        },
        Key::Char('x') | Key::Char('X') => if in_session(a.rec.status) {
            doing(a, ActionView::Cancel)
        } else {
            quietly(a)
        },
        Key::Char('m') | Key::Char('M') => quietly(
            AppView { modal: ModalView { selecting_mic: true, mic_idx: 0, ..a.modal }, ..a },
        ),
        Key::Char('c') | Key::Char('C') => chat_opened(a),
        Key::Char('q') | Key::Char('Q') => quit(a),
        Key::Up => quietly(
            AppView { rec: RecView { scroll: one_more(a.rec.scroll), ..a.rec }, ..a },
        ),
        Key::Down => quietly(
            AppView { rec: RecView { scroll: one_less(a.rec.scroll), ..a.rec }, ..a },
        ),
        _ => quietly(a),
    }
}

/// A key where nothing lies above the views.
#[verifier::opaque]
pub open spec fn base_key(a: AppView, press: KeyPress) -> Outcome {
    if press.key == Key::Char('c') && press.ctrl {
        quit(a)
    } else if a.modal.selecting_mic {
        mic_key(a, press.key)
    } else if a.home.home_mode {
        home_key(a, press.key)
    } else {
        live_key(a, press.key)
    }
}

/// A key goes to what lies on top.
pub open spec fn on_key(a: AppView, press: KeyPress, c: ContextView) -> Outcome {
    if a.modal.confirm_delete {
        delete_key(a, press.key)
    } else if a.modal.template_open {
        template_key(a, press.key, c)
    } else if a.modal.stt_picker_open {
        picker_key(a, press.key)
    } else if a.modal.settings_open {
        settings_key(a, press, c)
    } else if a.chat.open {
        chat_key(a, press, c)
    } else {
        base_key(a, press)
    }
}

/// What a message leads to.
pub open spec fn app_step(a: AppView, msg: MsgView) -> Outcome {
    match msg {
        MsgView::Key(press, c) => on_key(a, press, c),
        MsgView::Resize => quietly(a),
        MsgView::Tick(d) => quietly(
            match d {
                Some(t) => AppView { rec: RecView { duration: t, ..a.rec }, ..a },
                None => a,
            },
        ),
        MsgView::Session(ev) => quietly(on_session(a, ev)),
        MsgView::SaveResult(s) => on_saved(a, s),
        MsgView::MetaGenerated(title, speakers, err) => on_meta(a, title, speakers, err),
        MsgView::ChatResponse(scope, content, err, exists) => on_reply(
            a,
            scope,
            content,
            err,
            exists,
        ),
        MsgView::SessionsLoaded(v) => quietly(on_sessions(a, v)),
    }
}

/// The state after a series of messages.
pub open spec fn after_messages(a: AppView, msgs: Seq<MsgView>) -> AppView
    decreases msgs.len(),
{
    if msgs.len() == 0 {
        a
    } else {
        app_step(after_messages(a, msgs.drop_last()), msgs.last()).app
    }
}

} // verus!

//! What the interface reacts to, and what it asks to be done.

use crate::llm::client::{chat_views, ChatMessage, ChatView};
use crate::session::{summary_views, SessionEvent, SessionEventView, SessionSummary, SummaryView};
use crate::text::{opt_text, same, texts};
use vstd::prelude::*;

verus! {

broadcast use vstd::string::group_string_axioms;

/// Which conversation the chat pane is showing, or a reply belongs to.
#[derive(Debug)]
pub enum ChatScope {
    /// Home list, no session open.
    Global,
    /// A stored session, by its folder.
    Session(String),
    /// A live recording with no folder yet. The generation counter keeps a reply
    /// to one recording out of the next.
    Live(u64),
}

/// The contents of a [`ChatScope`].
pub enum ScopeView {
    Global,
    Session(Seq<char>),
    Live(nat),
}

impl View for ChatScope {
    type V = ScopeView;

    open spec fn view(&self) -> ScopeView {
        match self {
            ChatScope::Global => ScopeView::Global,
            ChatScope::Session(f) => ScopeView::Session(f@),
            ChatScope::Live(n) => ScopeView::Live(*n as nat),
        }
    }
}

impl ChatScope {
    /// A copy of the scope.
    pub fn copy(&self) -> (r: ChatScope)
        ensures
            r@ == self@,
    {
        match self {
            ChatScope::Global => ChatScope::Global,
            ChatScope::Session(f) => ChatScope::Session(f.clone()),
            ChatScope::Live(n) => ChatScope::Live(*n),
        }
    }

    /// Whether two scopes are the same.
    pub fn is_same(&self, other: &ChatScope) -> (r: bool)
        ensures
            r == (self@ == other@),
    {
        match (self, other) {
            (ChatScope::Global, ChatScope::Global) => true,
            (ChatScope::Session(a), ChatScope::Session(b)) => same(a.as_str(), b.as_str()),
            (ChatScope::Live(a), ChatScope::Live(b)) => *a == *b,
            _ => false,
        }
    }
}

/// The scope of an optional one.
pub open spec fn opt_scope(s: Option<ChatScope>) -> Option<ScopeView> {
    match s {
        Some(v) => Some(v@),
        None => None,
    }
}

/// The keys that the interface knows.
#[derive(Debug, Clone, Copy, PartialEq, Eq, Structural)]
pub enum Key {
    Char(char),
    Enter,
    Esc,
    Up,
    Down,
    Left,
    Right,
    PageUp,
    PageDown,
    Backspace,
    Delete,
    Other,
}

/// A key, and whether the control key was held with it.
#[derive(Debug, Clone, Copy, PartialEq, Eq, Structural)]
pub struct KeyPress {
    pub key: Key,
    pub ctrl: bool,
}

/// What stood in the input fields when a key was pressed, and the transcript of
/// the live session.
#[derive(Debug)]
pub struct KeyContext {
    pub chat_lines: Vec<String>,
    pub settings_lines: Vec<String>,
    pub live_text: String,
}

/// The contents of a [`KeyContext`].
pub struct ContextView {
    pub chat_lines: Seq<Seq<char>>,
    pub settings_lines: Seq<Seq<char>>,
    pub live_text: Seq<char>,
}

impl View for KeyContext {
    type V = ContextView;

    open spec fn view(&self) -> ContextView {
        ContextView {
            chat_lines: texts(self.chat_lines@),
            settings_lines: texts(self.settings_lines@),
            live_text: self.live_text@,
        }
    }
}

/// How a save went.
#[derive(Debug)]
pub struct SaveReport {
    pub folder: Option<String>,
    pub transcript: String,
    /// Words in the saved transcript; 0 means that none were transcribed.
    pub word_count: usize,
    /// Transcription failure during close: the audio was still saved.
    pub stt_err: Option<String>,
    pub err: Option<String>,
}

/// The contents of a [`SaveReport`].
pub struct SaveView {
    pub folder: Option<Seq<char>>,
    pub transcript: Seq<char>,
    pub word_count: nat,
    pub stt_err: Option<Seq<char>>,
    pub err: Option<Seq<char>>,
}

impl View for SaveReport {
    type V = SaveView;

    open spec fn view(&self) -> SaveView {
        SaveView {
            folder: opt_text(self.folder),
            transcript: self.transcript@,
            word_count: self.word_count as nat,
            stt_err: opt_text(self.stt_err),
            err: opt_text(self.err),
        }
    }
}

/// Everything that the interface reacts to.
#[derive(Debug)]
pub enum AppMsg {
    Key(KeyPress, KeyContext),
    Resize,
    /// A second passed; the duration of the live session, if there is one.
    Tick(Option<String>),
    Session(SessionEvent),
    SaveResult(SaveReport),
    MetaGenerated { title: String, speakers: Vec<String>, err: Option<String> },
    /// `folder_exists` tells whether the folder of a session's scope is still
    /// there.
    ChatResponse { scope: ChatScope, content: String, err: Option<String>, folder_exists: bool },
    SessionsLoaded(Vec<SessionSummary>),
}

/// The contents of an [`AppMsg`].
pub enum MsgView {
    Key(KeyPress, ContextView),
    Resize,
    Tick(Option<Seq<char>>),
    Session(SessionEventView),
    SaveResult(SaveView),
    MetaGenerated(Seq<char>, Seq<Seq<char>>, Option<Seq<char>>),
    ChatResponse(ScopeView, Seq<char>, Option<Seq<char>>, bool),
    SessionsLoaded(Seq<SummaryView>),
}

impl View for AppMsg {
    type V = MsgView;

    open spec fn view(&self) -> MsgView {
        match self {
            AppMsg::Key(k, c) => MsgView::Key(*k, c@),
            AppMsg::Resize => MsgView::Resize,
            AppMsg::Tick(d) => MsgView::Tick(opt_text(*d)),
            AppMsg::Session(e) => MsgView::Session(e@),
            AppMsg::SaveResult(s) => MsgView::SaveResult(s@),
            AppMsg::MetaGenerated { title, speakers, err } => MsgView::MetaGenerated(
                title@,
                texts(speakers@),
                opt_text(*err),
            ),
            AppMsg::ChatResponse { scope, content, err, folder_exists } => MsgView::ChatResponse(
                scope@,
                content@,
                opt_text(*err),
                *folder_exists,
            ),
            AppMsg::SessionsLoaded(v) => MsgView::SessionsLoaded(summary_views(v@)),
        }
    }
}

/// What the interface asks to be done.
#[derive(Debug)]
pub enum Action {
    /// Read the list of stored sessions.
    LoadSessions,
    /// Start recording with a provider.
    StartSession { provider: String, model: String, api_key: String },
    /// Finish the recording and save it.
    Finish,
    /// Discard the recording.
    Cancel,
    Pause,
    Resume,
    /// Record from this microphone next time.
    SetDevice(i32),
    /// Store the conversation without a session.
    SaveGlobalChat(Vec<ChatMessage>),
    /// Store a conversation in a folder; where `must_exist`, only if the folder
    /// is still there.
    SaveChat { folder: String, must_exist: bool, msgs: Vec<ChatMessage> },
    /// Read a scope's conversation.
    LoadChat(ChatScope),
    /// Add a turn to the conversation stored in a folder.
    AppendChat { folder: String, msg: ChatMessage },
    /// Read a stored transcript.
    LoadTranscript(String),
    /// Delete a session's folder.
    DeleteFolder(String),
    /// Ask the language model for title and summary.
    GenerateMeta { folder: String, transcript: String, glossary: Option<String> },
    /// Ask the language model a question.
    Ask {
        scope: ChatScope,
        system: String,
        history: Vec<ChatMessage>,
        question: String,
        glossary: Option<String>,
    },
    /// Use these key terms next time.
    SetKeyterms(Vec<String>),
    /// Store the glossary.
    SaveGlossary(String),
    /// Store the choice of a speech-to-text model.
    SaveModel { id: String, label: String },
    /// Hand the key to the chat's input field.
    EditChat,
    /// Hand the key to the glossary's input field.
    EditGlossary,
    /// Empty the chat's input field; it shows this while empty.
    ClearChat(String),
    /// The chat's input field shows this while empty.
    ChatPlaceholder(String),
    /// Begin to edit the glossary with these lines.
    OpenGlossary(Vec<String>),
}

/// The contents of an [`Action`].
pub enum ActionView {
    LoadSessions,
    StartSession(Seq<char>, Seq<char>, Seq<char>),
    Finish,
    Cancel,
    Pause,
    Resume,
    SetDevice(int),
    SaveGlobalChat(Seq<ChatView>),
    SaveChat(Seq<char>, bool, Seq<ChatView>),
    LoadChat(ScopeView),
    AppendChat(Seq<char>, ChatView),
    LoadTranscript(Seq<char>),
    DeleteFolder(Seq<char>),
    GenerateMeta(Seq<char>, Seq<char>, Option<Seq<char>>),
    Ask(ScopeView, Seq<char>, Seq<ChatView>, Seq<char>, Option<Seq<char>>),
    SetKeyterms(Seq<Seq<char>>),
    SaveGlossary(Seq<char>),
    SaveModel(Seq<char>, Seq<char>),
    EditChat,
    EditGlossary,
    ClearChat(Seq<char>),
    ChatPlaceholder(Seq<char>),
    OpenGlossary(Seq<Seq<char>>),
}

impl View for Action {
    type V = ActionView;

    open spec fn view(&self) -> ActionView {
        match self {
            Action::LoadSessions => ActionView::LoadSessions,
            Action::StartSession { provider, model, api_key } => ActionView::StartSession(
                provider@,
                model@,
                api_key@,
            ),
            Action::Finish => ActionView::Finish,
            Action::Cancel => ActionView::Cancel,
            Action::Pause => ActionView::Pause,
            Action::Resume => ActionView::Resume,
            Action::SetDevice(i) => ActionView::SetDevice(*i as int),
            Action::SaveGlobalChat(m) => ActionView::SaveGlobalChat(chat_views(m@)),
            Action::SaveChat { folder, must_exist, msgs } => ActionView::SaveChat(
                folder@,
                *must_exist,
                chat_views(msgs@),
            ),
            Action::LoadChat(s) => ActionView::LoadChat(s@),
            Action::AppendChat { folder, msg } => ActionView::AppendChat(folder@, msg@),
            Action::LoadTranscript(f) => ActionView::LoadTranscript(f@),
            Action::DeleteFolder(f) => ActionView::DeleteFolder(f@),
            Action::GenerateMeta { folder, transcript, glossary } => ActionView::GenerateMeta(
                folder@,
                transcript@,
                opt_text(*glossary),
            ),
            Action::Ask { scope, system, history, question, glossary } => ActionView::Ask(
                scope@,
                system@,
                chat_views(history@),
                question@,
                opt_text(*glossary),
            ),
            Action::SetKeyterms(t) => ActionView::SetKeyterms(texts(t@)),
            Action::SaveGlossary(t) => ActionView::SaveGlossary(t@),
            Action::SaveModel { id, label } => ActionView::SaveModel(id@, label@),
            Action::EditChat => ActionView::EditChat,
            Action::EditGlossary => ActionView::EditGlossary,
            Action::ClearChat(p) => ActionView::ClearChat(p@),
            Action::ChatPlaceholder(p) => ActionView::ChatPlaceholder(p@),
            Action::OpenGlossary(l) => ActionView::OpenGlossary(texts(l@)),
        }
    }
}

/// The contents of a list of actions.
pub open spec fn action_views(v: Seq<Action>) -> Seq<ActionView> {
    v.map_values(|a: Action| a@)
}

/// Appends an action.
pub fn push_action(out: &mut Vec<Action>, a: Action)
    ensures
        action_views(final(out)@) == action_views(old(out)@).push(a@),
{
    let ghost before = action_views(out@);
    out.push(a);
    assert(action_views(out@) =~= before.push(a@));
}

} // verus!

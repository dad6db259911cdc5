//! What holds of conversations: what a question is sent with, where a reply goes,
//! and what is stored.

use super::model::{
    app_step, asking, base_key, chat_key, chat_opened, home_key, persisting, saying, template_key,
    viewed, AppView, ModalView,
};
use super::msg::{ActionView, ContextView, Key, KeyPress, MsgView, ScopeView};
use crate::json::{field_of, lemma_member_index_is, text_field, JsonView};
use crate::llm::client::{conversation, message_json, request_json, with_terms, ChatView};
use crate::settings::glossary_prompt;
use crate::text::{joined, trimmed};
use vstd::prelude::*;

verus! {

broadcast use vstd::string::group_string_axioms;

/// Whether the chat gets the keys: it is open, and nothing lies above it.
pub open spec fn chat_in_front(a: AppView) -> bool {
    &&& a.chat.open
    &&& !a.modal.confirm_delete
    &&& !a.modal.template_open
    &&& !a.modal.stt_picker_open
    &&& !a.modal.settings_open
}

/// Whether a text ends with another.
pub open spec fn ends_with(s: Seq<char>, end: Seq<char>) -> bool {
    s.len() >= end.len() && s.skip(s.len() - end.len()) == end
}

/// The transcript that questions are about: that of the session in view, else
/// that of the recording in progress.
pub open spec fn transcript_in_question(a: AppView, live_text: Seq<char>) -> Seq<char> {
    if a.home.viewing is Some {
        a.home.view_raw
    } else {
        live_text
    }
}

/// Whether an action asks a question in the state's conversation: with every
/// turn of the conversation in its place, none left out and none added, with the
/// glossary, and, where a session is open, with its transcript at the end of the
/// instructions.
pub open spec fn asks_in_context(
    act: ActionView,
    a: AppView,
    question: Seq<char>,
    live_text: Seq<char>,
) -> bool {
    act matches ActionView::Ask(scope, system, turns, asked, glossary) && {
        &&& scope == a.chat.scope
        &&& asked == question
        &&& turns.len() == a.chat.msgs.len()
        &&& forall|i: int| 0 <= i < turns.len() ==> #[trigger] turns[i] == a.chat.msgs[i]
        &&& glossary == glossary_prompt(a.prefs.glossary)
        &&& !(a.chat.scope is Global) ==> ends_with(system, transcript_in_question(a, live_text))
    }
}

/// Whether a state's conversation is another's with one more turn at its end.
pub open spec fn one_turn_more(a: AppView, b: AppView, role: Seq<char>, content: Seq<char>) -> bool {
    &&& b.chat.msgs.len() == a.chat.msgs.len() + 1
    &&& forall|i: int| 0 <= i < a.chat.msgs.len() ==> #[trigger] b.chat.msgs[i] == a.chat.msgs[i]
    &&& b.chat.msgs[a.chat.msgs.len() as int].role == role
    &&& b.chat.msgs[a.chat.msgs.len() as int].content == content
}

/// Enter in the chat asks what was typed, unless nothing was typed or a question
/// of the same conversation awaits its reply. The language model gets the whole
/// conversation as it was before the key, and the question is added to it as the
/// user's turn; the input is emptied, and the reply is awaited.
pub proof fn questions_carry_the_conversation(a: AppView, press: KeyPress, c: ContextView)
    requires
        chat_in_front(a),
        press.key is Enter,
    ensures
        ({
            let typed = trimmed(joined(c.chat_lines, " "@));
            let o = app_step(a, MsgView::Key(press, c));
            if typed.len() > 0 && a.chat.pending != Some(a.chat.scope) {
                &&& o.actions.len() == 2
                &&& o.actions[0] is ClearChat
                &&& asks_in_context(o.actions[1], a, typed, c.live_text)
                &&& one_turn_more(a, o.app, "user"@, typed)
                &&& o.app.chat.pending == Some(a.chat.scope)
                &&& o.app.chat.scope == a.chat.scope
            } else {
                o.actions.len() == 0 && o.app == a
            }
        }),
{
    reveal(chat_key);
    let typed = trimmed(joined(c.chat_lines, " "@));
    let o = app_step(a, MsgView::Key(press, c));
    if typed.len() > 0 && a.chat.pending != Some(a.chat.scope) {
        lemma_asked(a, o.actions[1], typed, typed, c.live_text);
    }
}

proof fn lemma_asked(
    a: AppView,
    act: ActionView,
    turn: Seq<char>,
    question: Seq<char>,
    live_text: Seq<char>,
)
    requires
        act == asking(
            saying(a, turn),
            question,
            live_text,
        ).actions[0],
    ensures
        asks_in_context(act, a, question, live_text),
{
    let head = "You are a helpful assistant answering questions about a live meeting recording. Answer concisely based on the transcript below. If the transcript is empty or the answer isn't there, say so.\n\nTranscript so far:\n"@;
    let t = transcript_in_question(a, live_text);
    let system = act->Ask_1;
    if !(a.chat.scope is Global) {
        assert(system == head + t);
        assert(system.skip(system.len() - t.len()) =~= t);
    }
    assert(act->Ask_2 =~= a.chat.msgs);
}

/// Enter in the list of quick questions asks the chosen one's prompt, with the
/// whole conversation before it; the conversation shows its name. The list is
/// closed.
pub proof fn quick_questions_carry_the_conversation(a: AppView, press: KeyPress, c: ContextView)
    requires
        a.modal.template_open,
        !a.modal.confirm_delete,
        press.key is Enter,
    ensures
        ({
            let o = app_step(a, MsgView::Key(press, c));
            let i = a.modal.template_idx as int;
            &&& !o.app.modal.template_open
            &&& i < a.setup.templates.len() ==> {
                &&& o.actions.len() == 1
                &&& asks_in_context(o.actions[0], a, a.setup.templates[i].prompt, c.live_text)
                &&& one_turn_more(a, o.app, "user"@, a.setup.templates[i].name)
                &&& o.app.chat.pending == Some(a.chat.scope)
            }
            &&& i >= a.setup.templates.len() ==> o.actions.len() == 0 && o.app.chat == a.chat
        }),
{
    reveal(template_key);
    let o = app_step(a, MsgView::Key(press, c));
    let i = a.modal.template_idx as int;
    if i < a.setup.templates.len() {
        let b = AppView {
            modal: ModalView { template_open: false, ..a.modal },
            ..a
        };
        let t = a.setup.templates[i];
        lemma_asked(b, o.actions[0], t.name, t.prompt, c.live_text);
        assert(asks_in_context(o.actions[0], b, t.prompt, c.live_text));
    }
}

/// The question mark opens the list of quick questions at its first one, where
/// nothing is typed and there are any; the arrows move in it by one, and Esc
/// closes it without asking.
pub proof fn quick_questions_are_chosen(a: AppView, press: KeyPress, c: ContextView)
    ensures
        ({
            let o = app_step(a, MsgView::Key(press, c));
            let typed = trimmed(joined(c.chat_lines, " "@));
            &&& chat_in_front(a) && press.key == Key::Char('?') && typed.len() == 0
                && a.setup.templates.len() > 0 ==> o.app.modal.template_open
                && o.app.modal.template_idx == 0 && o.actions.len() == 0
            &&& a.modal.template_open && !a.modal.confirm_delete ==> {
                &&& press.key is Down ==> o.actions.len() == 0 && (if a.modal.template_idx + 1
                    < a.setup.templates.len() {
                    o.app.modal.template_idx == a.modal.template_idx + 1
                } else {
                    o.app.modal.template_idx == a.modal.template_idx
                })
                &&& press.key is Up ==> o.actions.len() == 0 && (if a.modal.template_idx > 0 {
                    o.app.modal.template_idx == a.modal.template_idx - 1
                } else {
                    o.app.modal.template_idx == 0
                })
                &&& press.key is Esc ==> !o.app.modal.template_open && o.actions.len() == 0
                    && o.app.chat == a.chat
            }
        }),
{
    reveal(chat_key);
    reveal(template_key);
}

/// A reply to a question of the conversation in view is added to it as the
/// assistant's turn: the answer, or what went wrong. The question is no longer
/// pending, and the conversation is stored with the reply where it has a place.
pub proof fn replies_are_added(
    a: AppView,
    content: Seq<char>,
    err: Option<Seq<char>>,
    exists: bool,
)
    ensures
        ({
            let o = app_step(a, MsgView::ChatResponse(a.chat.scope, content, err, exists));
            &&& err is None ==> one_turn_more(a, o.app, "assistant"@, content)
            &&& err matches Some(e) ==> one_turn_more(a, o.app, "assistant"@, "Error: "@ + e)
            &&& o.app.chat.pending != Some(a.chat.scope)
            &&& o.app.chat.scope == a.chat.scope
            &&& a.chat.scope is Global ==> o.actions == seq![
                ActionView::SaveGlobalChat(o.app.chat.msgs),
            ]
            &&& a.chat.scope matches ScopeView::Session(f) ==> o.actions == seq![
                ActionView::SaveChat(f, true, o.app.chat.msgs),
            ]
            &&& a.chat.scope matches ScopeView::Live(n) ==> match a.chat.finished_live {
                Some((m, f)) => m == n ==> o.actions == seq![
                    ActionView::SaveChat(f, false, o.app.chat.msgs),
                ],
                None => o.actions.len() == 0,
            }
        }),
{
}

/// A follow-up question is sent with the question before it and its reply: each
/// exchange stays in the conversation that the next question carries.
pub proof fn exchanges_are_remembered(
    a: AppView,
    press: KeyPress,
    c: ContextView,
    reply: Seq<char>,
    exists: bool,
    next: ContextView,
)
    requires
        chat_in_front(a),
        press.key is Enter,
        a.chat.pending != Some(a.chat.scope),
        trimmed(joined(c.chat_lines, " "@)).len() > 0,
        trimmed(joined(next.chat_lines, " "@)).len() > 0,
    ensures
        ({
            let asked = app_step(a, MsgView::Key(press, c)).app;
            let told = app_step(
                asked,
                MsgView::ChatResponse(a.chat.scope, reply, None, exists),
            ).app;
            let o = app_step(told, MsgView::Key(press, next));
            let n = a.chat.msgs.len() as int;
            o.actions.len() == 2 && (o.actions[1] matches ActionView::Ask(_, _, turns, q, _) && {
                &&& q == trimmed(joined(next.chat_lines, " "@))
                &&& turns.len() == n + 2
                &&& forall|i: int| 0 <= i < n ==> #[trigger] turns[i] == a.chat.msgs[i]
                &&& turns[n] == (ChatView {
                    role: "user"@,
                    content: trimmed(joined(c.chat_lines, " "@)),
                })
                &&& turns[n + 1] == (ChatView { role: "assistant"@, content: reply })
            })
        }),
{
    let asked = app_step(a, MsgView::Key(press, c)).app;
    questions_carry_the_conversation(a, press, c);
    assert(chat_in_front(asked)) by {
        reveal(chat_key);
    }
    let told = app_step(asked, MsgView::ChatResponse(a.chat.scope, reply, None, exists)).app;
    replies_are_added(asked, reply, None, exists);
    assert(chat_in_front(told));
    questions_carry_the_conversation(told, press, next);
    let o = app_step(told, MsgView::Key(press, next));
    let turns = o.actions[1]->Ask_2;
    let n = a.chat.msgs.len() as int;
    assert(asks_in_context(
        o.actions[1],
        told,
        trimmed(joined(next.chat_lines, " "@)),
        next.live_text,
    ));
    assert forall|i: int| 0 <= i < n implies #[trigger] turns[i] == a.chat.msgs[i] by {
        assert(turns[i] == told.chat.msgs[i]);
        assert(told.chat.msgs[i] == asked.chat.msgs[i]);
    }
    assert(turns[n] == told.chat.msgs[n]);
    assert(told.chat.msgs[n] == asked.chat.msgs[n]);
    assert(turns[n + 1] == told.chat.msgs[n + 1]);
}

/// A reply to a question of another conversation is added to that one where it
/// is stored: below the sessions, in its session's folder if that is still
/// there, or in the folder that its recording was saved to. Where it has no place
/// anymore, the user is told. The conversation in view does not change.
pub proof fn late_replies_reach_their_conversation(
    a: AppView,
    scope: ScopeView,
    content: Seq<char>,
    err: Option<Seq<char>>,
    exists: bool,
)
    requires
        scope != a.chat.scope,
    ensures
        ({
            let o = app_step(a, MsgView::ChatResponse(scope, content, err, exists));
            let turn = ChatView {
                role: "assistant"@,
                content: match err {
                    Some(e) => "Error: "@ + e,
                    None => content,
                },
            };
            &&& o.app.chat.msgs == a.chat.msgs
            &&& o.app.chat.scope == a.chat.scope
            &&& a.chat.pending == Some(scope) ==> o.app.chat.pending is None
            &&& a.chat.pending != Some(scope) ==> o.app.chat.pending == a.chat.pending
            &&& scope is Global ==> o.actions == seq![
                ActionView::AppendChat(a.setup.base_dir, turn),
            ]
            &&& scope matches ScopeView::Session(f) ==> o.actions == (if exists {
                seq![ActionView::AppendChat(f, turn)]
            } else {
                seq![]
            })
            &&& scope matches ScopeView::Live(n) ==> (a.chat.finished_live matches Some((m, f))
                ==> o.actions == (if m == n {
                seq![ActionView::AppendChat(f, turn)]
            } else {
                seq![]
            }))
            &&& o.actions.len() == 0 ==> o.app.notice.is_err && o.app.notice.text.len() > 0
        }),
{
    reveal_strlit("Chat reply discarded (recording ended without saving)");
}

/// What is sent to the language model: the instructions first, behind the
/// glossary where there is one, then the turns before in their order, and the
/// question last.
pub proof fn questions_come_last(
    glossary: Option<Seq<char>>,
    system: Seq<char>,
    turns: Seq<ChatView>,
    question: Seq<char>,
)
    ensures
        ({
            let sent = conversation(with_terms(glossary, system), turns, question);
            let n = turns.len() as int;
            &&& sent.len() == n + 2
            &&& sent[0].role == "system"@
            &&& ends_with(sent[0].content, system)
            &&& glossary is None ==> sent[0].content == system
            &&& glossary matches Some(g) ==> sent[0].content.len() >= g.len()
                && sent[0].content.take(g.len() as int) == g
            &&& forall|i: int| 0 <= i < n ==> #[trigger] sent[i + 1] == turns[i]
            &&& sent[n + 1].role == "user"@
            &&& sent[n + 1].content == question
        }),
{
    let sent = conversation(with_terms(glossary, system), turns, question);
    match glossary {
        Some(g) => {
            let whole = g + "\n\n"@ + system;
            assert(whole.skip(whole.len() - system.len()) =~= system);
            assert(whole.take(g.len() as int) =~= g);
        },
        None => {
            assert(system.skip(0) =~= system);
        },
    }
}

/// The request holds the model's name and every turn of the conversation with
/// its role and content, in order.
pub proof fn requests_hold_the_turns(model: Seq<char>, turns: Seq<ChatView>, strict: bool)
    ensures
        ({
            let body = request_json(model, turns, strict);
            let list = field_of(body, "messages"@);
            &&& text_field(body, "model"@) == Some(model)
            &&& list matches Some(JsonView::Array(items)) && items.len()
                == turns.len() && forall|i: int|
                0 <= i < items.len() ==> {
                    &&& text_field(#[trigger] items[i], "role"@) == Some(turns[i].role)
                    &&& text_field(items[i], "content"@) == Some(turns[i].content)
                }
            &&& field_of(body, "response_format"@) is Some <==> strict
        }),
{
    reveal_strlit("model");
    reveal_strlit("messages");
    reveal_strlit("response_format");
    reveal_strlit("role");
    reveal_strlit("content");
    assert("model"@.len() == 5 && "messages"@.len() == 8 && "response_format"@.len() == 15);
    assert("role"@.len() == 4 && "content"@.len() == 7);
    let m = request_json(model, turns, strict)->Object_0;
    lemma_member_index_is(m, "model"@, 0);
    lemma_member_index_is(m, "messages"@, 1);
    lemma_member_index_is(m, "response_format"@, 2);
    let items = m[1].1->Array_0;
    assert forall|i: int| 0 <= i < items.len() implies text_field(
        #[trigger] items[i],
        "role"@,
    ) == Some(turns[i].role) && text_field(items[i], "content"@) == Some(
        turns[i].content,
    ) by {
        let t = message_json(turns[i])->Object_0;
        lemma_member_index_is(t, "role"@, 0);
        lemma_member_index_is(t, "content"@, 1);
    }
}

/// A conversation is stored whole, where its scope has its place: the one
/// without a session below the sessions, that of a session in its folder, and
/// that of a recording in the folder it was saved to. An empty one is not stored.
pub proof fn conversations_are_stored_whole(a: AppView)
    ensures
        a.chat.msgs.len() == 0 ==> persisting(a).len() == 0,
        a.chat.msgs.len() > 0 ==> {
            &&& a.chat.scope is Global ==> persisting(a) == seq![
                ActionView::SaveGlobalChat(a.chat.msgs),
            ]
            &&& a.chat.scope matches ScopeView::Session(f) ==> persisting(a) == seq![
                ActionView::SaveChat(f, true, a.chat.msgs),
            ]
            &&& a.chat.scope matches ScopeView::Live(n) ==> (a.chat.finished_live matches Some(
                (m, f),
            ) ==> persisting(a) == (if m == n {
                seq![ActionView::SaveChat(f, false, a.chat.msgs)]
            } else {
                seq![]
            }))
        },
{
}

/// Opening a stored session shows the selected one: its transcript and its own
/// conversation are read, and the conversation that was in view is stored first
/// where it has a place.
pub proof fn opening_a_session_shows_it(a: AppView, press: KeyPress, c: ContextView)
    requires
        a.home.home_mode,
        a.home.viewing is None,
        a.home.session_idx < a.home.sessions.len(),
        !a.chat.open,
        !a.modal.confirm_delete,
        !a.modal.template_open,
        !a.modal.stt_picker_open,
        !a.modal.settings_open,
        !a.modal.selecting_mic,
        press.key is Enter,
    ensures
        ({
            let s = a.home.sessions[a.home.session_idx as int];
            let o = app_step(a, MsgView::Key(press, c));
            &&& o.app.home.viewing == Some(s)
            &&& o.app.home.summary_open
            &&& o.app.rec.scroll == 0
            &&& o.app.chat.scope == ScopeView::Session(s.folder)
            &&& o.actions.len() > 0
            &&& o.actions[0] == ActionView::LoadTranscript(s.folder)
            &&& a.chat.scope != ScopeView::Session(s.folder) ==> {
                &&& o.actions.last() == ActionView::LoadChat(ScopeView::Session(s.folder))
                &&& o.app.chat.msgs.len() == 0
                &&& a.chat.scope is Global && a.chat.msgs.len() > 0 ==> o.actions[1]
                    == ActionView::SaveGlobalChat(a.chat.msgs)
            }
        }),
{
    reveal(base_key);
    reveal(home_key);
    reveal(viewed);
}

/// Closing the chat keeps the conversation; opening it needs the key of a
/// language model, and shows the conversation as it is.
pub proof fn the_chat_opens_and_closes(a: AppView, press: KeyPress, c: ContextView)
    ensures
        ({
            let o = app_step(a, MsgView::Key(press, c));
            &&& chat_in_front(a) && press.key is Esc ==> !o.app.chat.open && o.app.chat.msgs
                == a.chat.msgs && o.actions.len() == 0
            &&& chat_opened(a).app.chat.open <==> a.chat.open || a.setup.cfg.llm_api_key.len() > 0
            &&& chat_opened(a).app.chat.msgs == a.chat.msgs
            &&& a.setup.cfg.llm_api_key.len() == 0 ==> chat_opened(a).app.notice.is_err
        }),
{
    reveal(chat_key);
    reveal(chat_opened);
}

/// A question can always be made shorter; it can be made longer while it has
/// fewer than 500 bytes.
pub proof fn questions_are_kept_short(a: AppView, press: KeyPress, c: ContextView)
    requires
        chat_in_front(a),
    ensures
        ({
            let o = app_step(a, MsgView::Key(press, c));
            let len = vstd::utf8::encode_utf8(trimmed(joined(c.chat_lines, " "@))).len();
            &&& press.key is Backspace || press.key is Delete ==> o.actions == seq![
                ActionView::EditChat,
            ]
            &&& press.key is Char && press.key != Key::Char('?') && !press.ctrl ==> o.actions == (
            if len < 500 {
                seq![ActionView::EditChat]
            } else {
                seq![]
            })
        }),
{
    reveal(chat_key);
}

} // verus!

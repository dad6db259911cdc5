//! What holds of the interface as a whole.

use super::model::{
    after_messages, app_step, back_to_live, base_key, begun, chat_key, chat_opened, delete_key, home_key,
    in_session, live_key, mic_key, on_key, on_reply, on_saved, on_session, on_sessions,
    partial_is_last, persisting, picker_key, quit, scoped, settings_key, sound, summary_toggled, template_key,
    viewed, with_folder, AppView, LineView,
};
use super::msg::{ActionView, ContextView, Key, KeyPress, MsgView, SaveView, ScopeView};
use crate::session::{SessionEventView, SummaryView};
use vstd::prelude::*;

verus! {

/// No step loses the place of the line being transcribed or of the chosen
/// model.
pub proof fn steps_stay_sound(a: AppView, msg: MsgView)
    requires
        sound(a),
    ensures
        sound(app_step(a, msg).app),
{
    match msg {
        MsgView::Key(press, c) => lemma_keys_stay_sound(a, press, c),
        MsgView::Session(ev) => {
            assert(sound(on_session(a, ev)));
        },
        _ => {},
    }
}

proof fn lemma_keys_stay_sound(a: AppView, press: KeyPress, c: ContextView)
    requires
        sound(a),
    ensures
        sound(on_key(a, press, c).app),
{
    if a.modal.confirm_delete {
        reveal(delete_key);
    } else if a.modal.template_open {
        reveal(template_key);
    } else if a.modal.stt_picker_open {
        reveal(picker_key);
    } else if a.modal.settings_open {
        reveal(settings_key);
        reveal(picker_key);
    } else if a.chat.open {
        reveal(chat_key);
    } else {
        lemma_base_stays_sound(a, press);
    }
}

proof fn lemma_views_stay_sound(a: AppView)
    requires
        sound(a),
    ensures
        sound(begun(a).app),
        sound(viewed(a).app),
        sound(back_to_live(a).app),
        sound(chat_opened(a).app),
        sound(summary_toggled(a).app),
        sound(quit(a).app),
{
    reveal(begun);
    reveal(viewed);
    reveal(back_to_live);
    reveal(chat_opened);
    reveal(summary_toggled);
    reveal(quit);
}

proof fn lemma_home_stays_sound(a: AppView, key: Key)
    requires
        sound(a),
    ensures
        sound(home_key(a, key).app),
{
    lemma_views_stay_sound(a);
    reveal(home_key);
}

proof fn lemma_live_stays_sound(a: AppView, key: Key)
    requires
        sound(a),
    ensures
        sound(live_key(a, key).app),
{
    lemma_views_stay_sound(a);
    reveal(live_key);
}

proof fn lemma_base_stays_sound(a: AppView, press: KeyPress)
    requires
        sound(a),
    ensures
        sound(base_key(a, press).app),
{
    reveal(base_key);
    reveal(mic_key);
    lemma_views_stay_sound(a);
    lemma_home_stays_sound(a, press.key);
    lemma_live_stays_sound(a, press.key);
}

proof fn lemma_keys_keep_lines(a: AppView, press: KeyPress, c: ContextView)
    ensures
        ({
            let b = on_key(a, press, c).app;
            (b.rec.lines == a.rec.lines && b.rec.partial_idx == a.rec.partial_idx) || (
            b.rec.lines.len() == 0 && b.rec.partial_idx is None)
        }),
{
    if a.modal.confirm_delete {
        reveal(delete_key);
    } else if a.modal.template_open {
        reveal(template_key);
    } else if a.modal.stt_picker_open {
        reveal(picker_key);
    } else if a.modal.settings_open {
        reveal(settings_key);
        reveal(picker_key);
    } else if a.chat.open {
        reveal(chat_key);
    } else {
        reveal(begun);
        reveal(viewed);
        reveal(back_to_live);
        reveal(chat_opened);
        reveal(summary_toggled);
        reveal(quit);
        reveal(home_key);
        reveal(live_key);
        reveal(mic_key);
        reveal(base_key);
    }
}

/// What a session's event does to the lines of the live transcript: a segment
/// takes the place of the line being transcribed or is added as the last one, a
/// new transcript replaces all of them, and no other event touches them.
pub proof fn only_segments_change_lines(a: AppView, ev: SessionEventView)
    requires
        partial_is_last(a),
    ensures
        ({
            let b = on_session(a, ev);
            match ev {
                SessionEventView::Segment(seg) => {
                    let line = LineView { seg, partial: !seg.is_final };
                    &&& b.rec.lines == (if a.rec.partial_idx is Some {
                        a.rec.lines.drop_last().push(line)
                    } else {
                        a.rec.lines.push(line)
                    })
                    &&& b.rec.partial_idx is Some <==> !seg.is_final
                },
                SessionEventView::Replace(segs) => {
                    &&& b.rec.lines.len() == segs.len()
                    &&& forall|i: int|
                        0 <= i < segs.len() ==> #[trigger] b.rec.lines[i] == (LineView {
                            seg: segs[i],
                            partial: false,
                        })
                    &&& b.rec.partial_idx is None
                },
                _ => b.rec.lines == a.rec.lines && b.rec.partial_idx == a.rec.partial_idx,
            }
        }),
        partial_is_last(on_session(a, ev)),
{
    let b = on_session(a, ev);
    if let SessionEventView::Segment(seg) = ev {
        let line = LineView { seg, partial: !seg.is_final };
        if let Some(i) = a.rec.partial_idx {
            assert(b.rec.lines =~= a.rec.lines.drop_last().push(line));
            assert forall|j: int| 0 <= j < b.rec.lines.len() implies ((
            #[trigger] b.rec.lines[j]).partial <==> b.rec.partial_idx == Some(j as nat)) by {
                if j < i {
                    assert(b.rec.lines[j] == a.rec.lines[j]);
                }
            }
        } else {
            assert forall|j: int| 0 <= j < b.rec.lines.len() implies ((
            #[trigger] b.rec.lines[j]).partial <==> b.rec.partial_idx == Some(j as nat)) by {
                if j < a.rec.lines.len() {
                    assert(b.rec.lines[j] == a.rec.lines[j]);
                }
            }
        }
    }
}

/// At most one line of the live transcript is partial, and it is the last:
/// whatever happens, a state of which this holds is followed by one of which it
/// holds.
pub proof fn steps_keep_one_partial_line(a: AppView, msg: MsgView)
    requires
        partial_is_last(a),
    ensures
        partial_is_last(app_step(a, msg).app),
{
    match msg {
        MsgView::Key(press, c) => lemma_keys_keep_lines(a, press, c),
        MsgView::Session(ev) => only_segments_change_lines(a, ev),
        _ => {},
    }
}

/// After any messages to a new interface, at most one line is partial, the last,
/// and the state is sound.
pub proof fn one_partial_line_at_most(a: AppView, msgs: Seq<MsgView>)
    requires
        sound(a),
        partial_is_last(a),
    ensures
        sound(after_messages(a, msgs)),
        partial_is_last(after_messages(a, msgs)),
    decreases msgs.len(),
{
    if msgs.len() > 0 {
        one_partial_line_at_most(a, msgs.drop_last());
        let b = after_messages(a, msgs.drop_last());
        steps_stay_sound(b, msgs.last());
        steps_keep_one_partial_line(b, msgs.last());
    }
}

/// Whether a list of actions deletes a folder.
pub open spec fn deletes(actions: Seq<ActionView>, folder: Seq<char>) -> bool {
    actions.contains(ActionView::DeleteFolder(folder))
}

/// A folder is deleted only after the user confirmed it, and then only that of
/// the selected session.
pub proof fn only_confirmed_deletion(a: AppView, press: KeyPress, c: ContextView, folder: Seq<char>)
    requires
        deletes(on_key(a, press, c).actions, folder),
    ensures
        a.modal.confirm_delete,
        press.key == Key::Char('y') || press.key == Key::Char('Y'),
        a.home.session_idx < a.home.sessions.len(),
        folder == a.home.sessions[a.home.session_idx as int].folder,
{
    reveal(delete_key);
    if a.modal.confirm_delete {
    } else if a.modal.template_open {
        reveal(template_key);
    } else if a.modal.stt_picker_open {
        reveal(picker_key);
    } else if a.modal.settings_open {
        reveal(settings_key);
        reveal(picker_key);
    } else if a.chat.open {
        reveal(chat_key);
        let acts = chat_key(a, press, c).actions;
        assert forall|i: int| 0 <= i < acts.len() implies acts[i] != ActionView::DeleteFolder(
            folder,
        ) by {}
    } else {
        lemma_base_deletes_nothing(a, press, folder);
    }
}

proof fn lemma_base_deletes_nothing(a: AppView, press: KeyPress, folder: Seq<char>)
    ensures
        !deletes(base_key(a, press).actions, folder),
{
    reveal(base_key);
    reveal(mic_key);
    reveal(home_key);
    reveal(live_key);
    reveal(begun);
    reveal(viewed);
    reveal(back_to_live);
    reveal(chat_opened);
    reveal(summary_toggled);
    reveal(quit);
    let acts = base_key(a, press).actions;
    assert forall|i: int| 0 <= i < acts.len() implies acts[i] != ActionView::DeleteFolder(
        folder,
    ) by {}
}

/// Whether a key is the one that discards a recording, and goes to the live
/// view: nothing lies above it.
pub open spec fn discards(a: AppView, press: KeyPress) -> bool {
    &&& press.key == Key::Char('x') || press.key == Key::Char('X')
    &&& in_session(a.rec.status)
    &&& !a.home.home_mode
    &&& !a.chat.open
    &&& !a.modal.confirm_delete
    &&& !a.modal.template_open
    &&& !a.modal.stt_picker_open
    &&& !a.modal.settings_open
    &&& !a.modal.selecting_mic
}

proof fn lemma_keys_wait_for_the_save(a: AppView, press: KeyPress, c: ContextView)
    requires
        in_session(a.rec.status),
        !a.should_quit,
    ensures
        !on_key(a, press, c).app.should_quit,
{
    reveal(begun);
    reveal(viewed);
    reveal(back_to_live);
    reveal(chat_opened);
    reveal(summary_toggled);
    reveal(quit);
    reveal(home_key);
    reveal(live_key);
    reveal(mic_key);
    reveal(base_key);
    reveal(delete_key);
    reveal(template_key);
    reveal(picker_key);
    reveal(settings_key);
    reveal(chat_key);
}

/// While a session is being recorded or paused, no key ends the program: quitting
/// waits until the recording is saved. And one key alone discards the recording:
/// X in the live view, with nothing above it.
pub proof fn one_key_drops_a_recording(a: AppView, press: KeyPress, c: ContextView)
    requires
        in_session(a.rec.status),
        !a.should_quit,
    ensures
        !on_key(a, press, c).app.should_quit,
        on_key(a, press, c).actions.contains(ActionView::Cancel) <==> discards(a, press),
{
    lemma_keys_wait_for_the_save(a, press, c);
    let acts = on_key(a, press, c).actions;
    if a.modal.confirm_delete {
        reveal(delete_key);
    } else if a.modal.template_open {
        reveal(template_key);
    } else if a.modal.stt_picker_open {
        reveal(picker_key);
    } else if a.modal.settings_open {
        reveal(settings_key);
        reveal(picker_key);
    } else if a.chat.open {
        reveal(chat_key);
    } else {
        lemma_base_discards(a, press);
    }
    if discards(a, press) {
        assert(acts[0] == ActionView::Cancel);
    } else {
        assert forall|i: int| 0 <= i < acts.len() implies acts[i] != ActionView::Cancel by {}
    }
}

proof fn lemma_base_discards(a: AppView, press: KeyPress)
    ensures
        ({
            let acts = base_key(a, press).actions;
            let x = press.key == Key::Char('x') || press.key == Key::Char('X');
            if x && in_session(a.rec.status) && !a.home.home_mode && !a.modal.selecting_mic {
                acts == seq![ActionView::Cancel]
            } else {
                forall|i: int| 0 <= i < acts.len() ==> #[trigger] acts[i] != ActionView::Cancel
            }
        }),
{
    reveal(base_key);
    reveal(mic_key);
    reveal(home_key);
    reveal(live_key);
    reveal(begun);
    reveal(viewed);
    reveal(back_to_live);
    reveal(chat_opened);
    reveal(summary_toggled);
    reveal(quit);
}

/// A save that ends after another recording has begun touches neither that
/// recording's view nor its conversation.
pub proof fn saves_leave_the_next_recording(a: AppView, s: SaveView)
    requires
        in_session(a.rec.status),
    ensures
        on_saved(a, s).app.rec == a.rec,
        on_saved(a, s).app.chat == a.chat,
        on_saved(a, s).app.home == a.home,
{
}

/// A reply to another scope's question leaves the conversation in view as it is.
pub proof fn late_replies_stay_out(
    a: AppView,
    scope: ScopeView,
    content: Seq<char>,
    err: Option<Seq<char>>,
    exists: bool,
)
    requires
        scope != a.chat.scope,
    ensures
        on_reply(a, scope, content, err, exists).app.chat.msgs == a.chat.msgs,
        on_reply(a, scope, content, err, exists).app.chat.scope == a.chat.scope,
{
}

/// Each recording gets a conversation of its own, to which no reply belongs that
/// was asked for before.
pub proof fn recordings_have_their_own_chat(a: AppView)
    requires
        a.chat.live_seq < u64::MAX,
        a.chat.scope matches ScopeView::Live(n) ==> n <= a.chat.live_seq,
        a.chat.pending matches Some(ScopeView::Live(n)) ==> n <= a.chat.live_seq,
    ensures
        begun(a).app.chat.scope == ScopeView::Live(a.chat.live_seq + 1),
        begun(a).app.chat.msgs.len() == 0,
        begun(a).app.chat.pending != Some(begun(a).app.chat.scope),
        begun(a).app.chat.live_seq == a.chat.live_seq + 1,
{
    reveal(begun);
}

/// No conversation is lost when the scope changes: it is stored first, where it
/// has a place.
pub proof fn scope_changes_store_the_chat(a: AppView, scope: ScopeView)
    requires
        scope != a.chat.scope,
    ensures
        persisting(a).is_prefix_of(scoped(a, scope).actions),
        a.chat.msgs.len() > 0 && !(a.chat.scope is Live) ==> scoped(a, scope).actions.len() > 0,
{
}

/// Where the user has quit, the program ends once the recording is saved, or
/// once saving has failed.
pub proof fn quitting_ends_with_the_save(a: AppView, s: SaveView)
    requires
        a.quitting,
    ensures
        on_saved(a, s).app.should_quit,
{
}

proof fn lemma_with_folder(sessions: Seq<SummaryView>, folder: Seq<char>)
    ensures
        with_folder(sessions, folder) matches Some(s) ==> s.folder == folder && sessions.contains(s),
        with_folder(sessions, folder) is None ==> forall|i: int|
            0 <= i < sessions.len() ==> (#[trigger] sessions[i]).folder != folder,
    decreases sessions.len(),
{
    if sessions.len() > 0 && sessions[0].folder != folder {
        let rest = sessions.drop_first();
        lemma_with_folder(rest, folder);
        if let Some(s) = with_folder(rest, folder) {
            let k = choose|k: int| 0 <= k < rest.len() && rest[k] == s;
            assert(sessions[k + 1] == s);
        } else {
            assert forall|i: int| 0 <= i < sessions.len() implies (#[trigger] sessions[i]).folder
                != folder by {
                if i > 0 {
                    assert(rest[i - 1] == sessions[i]);
                }
            }
        }
    } else if sessions.len() > 0 {
        assert(sessions[0] == with_folder(sessions, folder)->0);
    }
}

/// A list that is read anew keeps the selection within it, and the session in
/// view in view: as the list has it now, or unchanged where it is gone.
pub proof fn reading_the_list_keeps_the_view(a: AppView, sessions: Seq<SummaryView>)
    ensures
        ({
            let b = on_sessions(a, sessions);
            &&& sessions.len() > 0 ==> b.home.session_idx < sessions.len()
            &&& b.home.viewing is Some <==> a.home.viewing is Some
            &&& a.home.viewing matches Some(v) ==> {
                &&& b.home.viewing->0.folder == v.folder
                &&& sessions.contains(b.home.viewing->0) || b.home.viewing == a.home.viewing
                &&& (exists|i: int| 0 <= i < sessions.len() && (#[trigger] sessions[i]).folder
                    == v.folder) ==> sessions.contains(b.home.viewing->0)
            }
        }),
{
    if let Some(v) = a.home.viewing {
        lemma_with_folder(sessions, v.folder);
    }
}

} // verus!

//! What the keys do: recording, choosing, moving and quitting.

use super::model::{
    after_messages, app_step, back_to_live, base_key, begun, chat_key, chat_opened, delete_key,
    editor_lines, home_key, in_session, live_key, mic_key, on_key, picker_key, profile_of, quit,
    settings_key, summary_toggled, template_key, viewed, AppView, ProfileView,
};
use super::msg::{ActionView, ContextView, Key, KeyPress, MsgView, SaveView, ScopeView};
use crate::config::key_of;
use crate::session::{SessionEventView, Status, SummaryView};
use crate::stt::SegmentView;
use crate::settings::{glossary_prompt, glossary_terms};
use crate::text::{joined, trimmed, uppercase};
use vstd::prelude::*;

verus! {

broadcast use vstd::string::group_string_axioms;

/// Whether the views get the keys: nothing lies above them.
pub open spec fn views_in_front(a: AppView) -> bool {
    &&& !a.chat.open
    &&& !a.modal.confirm_delete
    &&& !a.modal.template_open
    &&& !a.modal.stt_picker_open
    &&& !a.modal.settings_open
    &&& !a.modal.selecting_mic
}

/// Whether a key is a letter, in either case.
pub open spec fn is_letter(key: Key, lower: char, upper: char) -> bool {
    key == Key::Char(lower) || key == Key::Char(upper)
}

/// Whether an action starts a recording with the model that a profile stands for,
/// and with the key that the environment holds for its provider.
pub open spec fn starts_with_profile(act: ActionView, a: AppView, p: ProfileView) -> bool {
    act == ActionView::StartSession(p.provider, p.model, key_of(a.setup.env, p.provider))
}

proof fn lemma_profile(profiles: Seq<ProfileView>, id: Seq<char>)
    ensures
        profile_of(profiles, id) matches Some(p) ==> p.id == id && profiles.contains(p),
        profile_of(profiles, id) is None <==> forall|i: int|
            0 <= i < profiles.len() ==> (#[trigger] profiles[i]).id != id,
    decreases profiles.len(),
{
    if profiles.len() > 0 {
        let rest = profiles.drop_first();
        lemma_profile(rest, id);
        if profiles[0].id == id {
            assert(profiles.contains(profiles[0]));
        } else {
            if let Some(p) = profile_of(rest, id) {
                let k = choose|k: int| 0 <= k < rest.len() && rest[k] == p;
                assert(profiles[k + 1] == p);
                assert(profiles[k + 1].id == id);
            } else {
                assert forall|i: int| 0 <= i < profiles.len() implies (#[trigger] profiles[i]).id
                    != id by {
                    if i > 0 {
                        assert(rest[i - 1] == profiles[i]);
                    }
                }
            }
        }
    }
}

/// N, where nothing is being recorded, begins a recording with the model that
/// the user chose: with the provider and the model of a listed profile that has
/// the chosen id, and the environment's key for that provider. Where no listed
/// profile has that id, it begins with what is configured. The new recording has
/// an empty transcript and is in view.
pub proof fn recordings_start_with_the_chosen_model(a: AppView, press: KeyPress, c: ContextView)
    requires
        views_in_front(a),
        is_letter(press.key, 'n', 'N'),
        !in_session(a.rec.status),
    ensures
        ({
            let o = app_step(a, MsgView::Key(press, c));
            &&& o.actions.len() > 0
            &&& o.actions.last() is StartSession
            &&& forall|i: int|
                0 <= i < o.actions.len() - 1 ==> !(#[trigger] o.actions[i] is StartSession)
            &&& (exists|i: int|
                0 <= i < a.setup.profiles.len() && (#[trigger] a.setup.profiles[i]).id
                    == a.prefs.stt_model) ==> exists|i: int|
                0 <= i < a.setup.profiles.len() && (#[trigger] a.setup.profiles[i]).id
                    == a.prefs.stt_model && starts_with_profile(
                    o.actions.last(),
                    a,
                    a.setup.profiles[i],
                )
            &&& (forall|i: int|
                0 <= i < a.setup.profiles.len() ==> (#[trigger] a.setup.profiles[i]).id
                    != a.prefs.stt_model) ==> o.actions.last() == ActionView::StartSession(
                a.setup.cfg.stt_provider,
                a.setup.cfg.stt_model,
                a.setup.cfg.stt_api_key,
            )
            &&& o.app.rec.lines.len() == 0
            &&& o.app.rec.partial_idx is None
            &&& !o.app.home.home_mode
            &&& o.app.home.viewing is None
        }),
{
    reveal(base_key);
    reveal(home_key);
    reveal(live_key);
    reveal(begun);
    let o = app_step(a, MsgView::Key(press, c));
    lemma_profile(a.setup.profiles, a.prefs.stt_model);
    if let Some(p) = profile_of(a.setup.profiles, a.prefs.stt_model) {
        let k = choose|k: int| 0 <= k < a.setup.profiles.len() && a.setup.profiles[k] == p;
        assert(a.setup.profiles[k].id == a.prefs.stt_model);
        assert(starts_with_profile(o.actions.last(), a, a.setup.profiles[k]));
    }
}

/// The key of a provider is the value of the variable that is named after it,
/// where that is set once, and empty where it is not set.
pub proof fn keys_are_named_after_providers(
    vars: Seq<(Seq<char>, Seq<char>)>,
    provider: Seq<char>,
    i: int,
)
    ensures
        0 <= i < vars.len() && vars[i].0 == uppercase(provider) + "_API_KEY"@ && (forall|k: int|
            0 <= k < i ==> (#[trigger] vars[k]).0 != uppercase(provider) + "_API_KEY"@) ==> key_of(
            vars,
            provider,
        ) == vars[i].1,
        (forall|k: int|
            0 <= k < vars.len() ==> (#[trigger] vars[k]).0 != uppercase(provider) + "_API_KEY"@)
            ==> key_of(vars, provider).len() == 0,
    decreases vars.len(),
{
    let name = uppercase(provider) + "_API_KEY"@;
    if vars.len() > 0 && vars[0].0 != name {
        let rest = vars.drop_first();
        keys_are_named_after_providers(rest, provider, i - 1);
        if 0 < i < vars.len() && (forall|k: int| 0 <= k < i ==> (#[trigger] vars[k]).0 != name) {
            assert forall|k: int| 0 <= k < i - 1 implies (#[trigger] rest[k]).0 != name by {
                assert(rest[k] == vars[k + 1]);
            }
        }
        if forall|k: int| 0 <= k < vars.len() ==> (#[trigger] vars[k]).0 != name {
            assert forall|k: int| 0 <= k < rest.len() implies (#[trigger] rest[k]).0 != name by {
                assert(rest[k] == vars[k + 1]);
            }
        }
    }
}

/// Whether the list of speech-to-text models gets the keys.
pub open spec fn models_in_front(a: AppView) -> bool {
    &&& !a.modal.confirm_delete
    &&& !a.modal.template_open
    &&& a.modal.stt_picker_open || (a.modal.settings_open && a.modal.settings_tab == 1)
}

/// Enter in the list of models chooses the marked one, and the choice is stored;
/// the arrows move the mark by one, within the list.
pub proof fn models_are_chosen(a: AppView, press: KeyPress, c: ContextView)
    requires
        models_in_front(a),
        a.modal.stt_idx < a.setup.profiles.len(),
    ensures
        ({
            let o = app_step(a, MsgView::Key(press, c));
            let marked = a.setup.profiles[a.modal.stt_idx as int];
            &&& press.key is Enter ==> o.app.prefs.stt_model == marked.id && o.actions == seq![
                ActionView::SaveModel(marked.id, marked.label),
            ]
            &&& press.key is Down ==> o.actions.len() == 0 && o.app.modal.stt_idx == (if a.modal
                .stt_idx + 1 < a.setup.profiles.len() {
                a.modal.stt_idx + 1
            } else {
                a.modal.stt_idx
            })
            &&& press.key is Up ==> o.actions.len() == 0 && o.app.modal.stt_idx == (if a.modal
                .stt_idx > 0 {
                a.modal.stt_idx - 1
            } else {
                0
            })
            &&& press.key is Esc ==> o.actions.len() == 0 && o.app.prefs == a.prefs
                && !o.app.modal.stt_picker_open
        }),
{
    reveal(picker_key);
    reveal(settings_key);
}

/// Nothing but Enter in the list of models changes the choice, and what the
/// interface was set up with never changes.
pub proof fn choices_stay(a: AppView, msg: MsgView)
    ensures
        app_step(a, msg).app.setup == a.setup,
        app_step(a, msg).app.prefs.stt_model != a.prefs.stt_model ==> models_in_front(a) && (
        msg matches MsgView::Key(press, c) && press.key is Enter),
{
    match msg {
        MsgView::Key(press, c) => lemma_keys_keep_setup(a, press, c),
        _ => {},
    }
}

proof fn lemma_keys_keep_setup(a: AppView, press: KeyPress, c: ContextView)
    ensures
        on_key(a, press, c).app.setup == a.setup,
        on_key(a, press, c).app.prefs.stt_model != a.prefs.stt_model ==> models_in_front(a)
            && press.key is Enter,
{
    if a.modal.confirm_delete {
        reveal(delete_key);
    } else if a.modal.template_open {
        reveal(template_key);
    } else if a.modal.stt_picker_open {
        reveal(picker_key);
    } else if a.modal.settings_open {
        reveal(settings_key);
        reveal(picker_key);
    } else if a.chat.open {
        reveal(chat_key);
    } else {
        lemma_base_keeps_prefs(a, press);
    }
}

proof fn lemma_base_keeps_prefs(a: AppView, press: KeyPress)
    ensures
        base_key(a, press).app.setup == a.setup,
        base_key(a, press).app.prefs == a.prefs,
{
    reveal(base_key);
    reveal(mic_key);
    reveal(begun);
    reveal(viewed);
    reveal(back_to_live);
    reveal(chat_opened);
    reveal(summary_toggled);
    reveal(quit);
    reveal(home_key);
    reveal(live_key);
}

/// Whether a message can change the choice of a model in a state.
pub open spec fn may_choose(a: AppView, msg: MsgView) -> bool {
    models_in_front(a) && (msg matches MsgView::Key(press, c) && press.key is Enter)
}

/// A choice holds until the next one: after any messages of which none chooses
/// again, the recording that N begins uses the profile that was chosen.
pub proof fn the_last_choice_is_used(
    a: AppView,
    enter: KeyPress,
    c: ContextView,
    between: Seq<MsgView>,
    press: KeyPress,
    d: ContextView,
)
    requires
        models_in_front(a),
        a.modal.stt_idx < a.setup.profiles.len(),
        enter.key is Enter,
        forall|i: int|
            0 <= i < between.len() ==> !may_choose(
                after_messages(app_step(a, MsgView::Key(enter, c)).app, between.take(i)),
                #[trigger] between[i],
            ),
        ({
            let b = after_messages(app_step(a, MsgView::Key(enter, c)).app, between);
            views_in_front(b) && !in_session(b.rec.status)
        }),
        is_letter(press.key, 'n', 'N'),
    ensures
        ({
            let b = after_messages(app_step(a, MsgView::Key(enter, c)).app, between);
            let o = app_step(b, MsgView::Key(press, d));
            let chosen = a.setup.profiles[a.modal.stt_idx as int];
            o.actions.len() > 0 && exists|i: int|
                0 <= i < a.setup.profiles.len() && (#[trigger] a.setup.profiles[i]).id
                    == chosen.id && starts_with_profile(o.actions.last(), a, a.setup.profiles[i])
        }),
{
    let first = app_step(a, MsgView::Key(enter, c)).app;
    let b = after_messages(first, between);
    let chosen = a.setup.profiles[a.modal.stt_idx as int];
    models_are_chosen(a, enter, c);
    choices_stay(a, MsgView::Key(enter, c));
    lemma_choice_lasts(first, between);
    recordings_start_with_the_chosen_model(b, press, d);
    assert(b.setup.profiles[a.modal.stt_idx as int].id == b.prefs.stt_model);
    let o = app_step(b, MsgView::Key(press, d));
    let i = choose|i: int|
        0 <= i < b.setup.profiles.len() && (#[trigger] b.setup.profiles[i]).id == b.prefs.stt_model
            && starts_with_profile(o.actions.last(), b, b.setup.profiles[i]);
    assert(a.setup.profiles[i].id == chosen.id);
    assert(starts_with_profile(o.actions.last(), a, a.setup.profiles[i]));
}

proof fn lemma_choice_lasts(a: AppView, between: Seq<MsgView>)
    requires
        forall|i: int|
            0 <= i < between.len() ==> !may_choose(
                after_messages(a, between.take(i)),
                #[trigger] between[i],
            ),
    ensures
        after_messages(a, between).setup == a.setup,
        after_messages(a, between).prefs.stt_model == a.prefs.stt_model,
    decreases between.len(),
{
    if between.len() > 0 {
        let front = between.drop_last();
        assert forall|i: int| 0 <= i < front.len() implies !may_choose(
            after_messages(a, front.take(i)),
            #[trigger] front[i],
        ) by {
            assert(front.take(i) =~= between.take(i));
            assert(front[i] == between[i]);
        }
        lemma_choice_lasts(a, front);
        let n = between.len() - 1;
        assert(between.take(n) =~= front);
        assert(!may_choose(after_messages(a, between.take(n)), between[n]));
        choices_stay(after_messages(a, front), between.last());
    }
}

/// The keys of a recording in view: P pauses one that is running and resumes one
/// that is paused, F finishes it, X discards it, N leaves it alone; where there
/// is none, P, F and X do nothing. None of them changes the state by itself: it
/// changes when the session says so.
pub proof fn recordings_are_controlled(a: AppView, press: KeyPress, c: ContextView)
    requires
        views_in_front(a),
        !a.home.home_mode,
    ensures
        ({
            let o = app_step(a, MsgView::Key(press, c));
            let s = a.rec.status;
            &&& is_letter(press.key, 'p', 'P') ==> o.app == a && o.actions == (match s {
                Status::Recording => seq![ActionView::Pause],
                Status::Paused => seq![ActionView::Resume],
                _ => seq![],
            })
            &&& is_letter(press.key, 'f', 'F') ==> o.app == a && o.actions == (match s {
                Status::Recording | Status::Paused => seq![ActionView::Finish],
                _ => seq![],
            })
            &&& is_letter(press.key, 'x', 'X') ==> o.app == a && o.actions == (match s {
                Status::Recording | Status::Paused => seq![ActionView::Cancel],
                _ => seq![],
            })
            &&& is_letter(press.key, 'n', 'N') && (s is Recording || s is Paused) ==> o.app == a
                && o.actions.len() == 0
            &&& is_letter(press.key, 'm', 'M') ==> o.app.modal.selecting_mic
                && o.app.modal.mic_idx == 0 && o.actions.len() == 0
            &&& press.key is Up && a.rec.scroll < usize::MAX ==> o.app.rec.scroll == a.rec.scroll
                + 1 && o.actions.len() == 0
            &&& press.key is Down ==> o.actions.len() == 0 && o.app.rec.scroll == (if a.rec.scroll
                > 0 {
                a.rec.scroll - 1
            } else {
                0
            })
        }),
{
    reveal(base_key);
    reveal(live_key);
}

/// Enter in the list of microphones records from the marked one from then on,
/// and closes the list; the arrows move the mark by one; Esc leaves everything as
/// it was.
pub proof fn microphones_are_chosen(a: AppView, press: KeyPress, c: ContextView)
    requires
        a.modal.selecting_mic,
        !a.chat.open,
        !a.modal.confirm_delete,
        !a.modal.template_open,
        !a.modal.stt_picker_open,
        !a.modal.settings_open,
    ensures
        ({
            let o = app_step(a, MsgView::Key(press, c));
            let i = a.modal.mic_idx as int;
            &&& press.key is Enter ==> !o.app.modal.selecting_mic && (if i < a.setup.devices.len() {
                o.actions == seq![ActionView::SetDevice(a.setup.devices[i].index)]
            } else {
                o.actions.len() == 0
            })
            &&& press.key is Down ==> o.actions.len() == 0 && o.app.modal.mic_idx == (if i + 1
                < a.setup.devices.len() {
                i + 1
            } else {
                i
            })
            &&& press.key is Up ==> o.actions.len() == 0 && o.app.modal.mic_idx == (if i > 0 {
                i - 1
            } else {
                0
            })
            &&& press.key is Esc ==> !o.app.modal.selecting_mic && o.actions.len() == 0
            &&& o.app.rec == a.rec || press.ctrl
        }),
{
    reveal(base_key);
    reveal(mic_key);
    reveal(quit);
}

/// The list of sessions: the arrows move the selection by one, within the list,
/// and nothing else; D asks before it deletes.
pub proof fn the_list_is_walked(a: AppView, press: KeyPress, c: ContextView)
    requires
        views_in_front(a),
        a.home.home_mode,
        a.home.viewing is None,
    ensures
        ({
            let o = app_step(a, MsgView::Key(press, c));
            let i = a.home.session_idx as int;
            &&& press.key is Down ==> o.actions.len() == 0 && o.app.home.session_idx == (if i + 1
                < a.home.sessions.len() {
                i + 1
            } else {
                i
            })
            &&& press.key is Up ==> o.actions.len() == 0 && o.app.home.session_idx == (if i > 0 {
                i - 1
            } else {
                0
            })
            &&& is_letter(press.key, 'd', 'D') ==> o.actions.len() == 0
                && o.app.modal.confirm_delete == (a.home.sessions.len() > 0)
                && o.app.home == a.home
            &&& is_letter(press.key, 's', 'S') ==> o.app.modal.settings_open
                && o.app.modal.settings_tab == 0 && o.actions == seq![
                ActionView::OpenGlossary(editor_lines(a.prefs.glossary)),
            ]
            &&& is_letter(press.key, 'n', 'N') && in_session(a.rec.status) ==> !o.app.home.home_mode
                && o.app.rec == a.rec && o.app.chat.scope == ScopeView::Live(a.chat.live_seq)
        }),
{
    reveal(base_key);
    reveal(home_key);
    reveal(back_to_live);
}

/// A session in view: the arrows scroll its transcript by one line, Esc returns
/// to the list.
pub proof fn sessions_are_read(a: AppView, press: KeyPress, c: ContextView)
    requires
        views_in_front(a),
        a.home.home_mode,
        a.home.viewing is Some,
    ensures
        ({
            let o = app_step(a, MsgView::Key(press, c));
            &&& press.key is Up && a.rec.scroll < usize::MAX ==> o.app.rec.scroll == a.rec.scroll
                + 1 && o.actions.len() == 0
            &&& press.key is Down ==> o.actions.len() == 0 && o.app.rec.scroll == (if a.rec.scroll
                > 0 {
                a.rec.scroll - 1
            } else {
                0
            })
            &&& press.key is Esc ==> o.app.home.viewing is None && o.app.home.home_mode
                && o.app.chat.scope is Global && o.app.home.session_idx == a.home.session_idx
            &&& is_letter(press.key, 's', 'S') && a.home.viewing->0.summary.len() > 0
                ==> o.app.home.summary_open == !a.home.summary_open && o.actions.len() == 0
            &&& is_letter(press.key, 's', 'S') && a.home.viewing->0.summary.len() == 0
                && a.setup.cfg.llm_api_key.len() > 0 && trimmed(a.home.view_raw).len() > 0
                && !a.home.summary_pending ==> o.app.home.summary_pending && o.actions == seq![
                ActionView::GenerateMeta(
                    a.home.viewing->0.folder,
                    a.home.view_raw,
                    glossary_prompt(a.prefs.glossary),
                ),
            ]
            &&& is_letter(press.key, 's', 'S') && a.home.viewing->0.summary.len() == 0 && (
            a.setup.cfg.llm_api_key.len() == 0 || trimmed(a.home.view_raw).len() == 0
                || a.home.summary_pending) ==> o.actions.len() == 0
        }),
{
    reveal(base_key);
    reveal(home_key);
    reveal(summary_toggled);
}

/// Confirming deletes the folder of the selected session, and the list is read
/// anew; declining deletes nothing.
pub proof fn deletion_is_confirmed_or_not(a: AppView, press: KeyPress, c: ContextView)
    requires
        a.modal.confirm_delete,
    ensures
        ({
            let o = app_step(a, MsgView::Key(press, c));
            let i = a.home.session_idx as int;
            &&& is_letter(press.key, 'y', 'Y') ==> !o.app.modal.confirm_delete && (if i
                < a.home.sessions.len() {
                o.actions == seq![
                    ActionView::DeleteFolder(a.home.sessions[i].folder),
                    ActionView::LoadSessions,
                ]
            } else {
                o.actions.len() == 0
            })
            &&& is_letter(press.key, 'n', 'N') || press.key is Esc
                ==> !o.app.modal.confirm_delete && o.actions.len() == 0 && o.app.home == a.home
            &&& !is_letter(press.key, 'y', 'Y') ==> o.actions.len() == 0
        }),
{
    reveal(delete_key);
}

/// Leaving the glossary's page with Esc keeps what its lines hold: it is stored,
/// and its terms are used from the next recording on.
pub proof fn the_glossary_is_kept(a: AppView, press: KeyPress, c: ContextView)
    requires
        a.modal.settings_open,
        a.modal.settings_tab != 1,
        !a.modal.confirm_delete,
        !a.modal.template_open,
        !a.modal.stt_picker_open,
    ensures
        ({
            let o = app_step(a, MsgView::Key(press, c));
            let text = joined(c.settings_lines, "\n"@);
            &&& press.key is Esc ==> {
                &&& o.app.prefs.glossary == text
                &&& o.app.prefs.stt_model == a.prefs.stt_model
                &&& !o.app.modal.settings_open
                &&& o.actions.contains(ActionView::SaveGlossary(text))
                &&& o.actions.contains(ActionView::SetKeyterms(glossary_terms(text)))
                &&& o.actions.len() == 2
            }
            &&& !(press.key is Esc) ==> o.app.prefs == a.prefs
            &&& press.key == Key::Char('2') || press.key is Right ==> o.app.modal.settings_tab == 1
                && o.app.modal.settings_open
            &&& press.key is Backspace || press.key is Enter ==> o.actions == seq![
                ActionView::EditGlossary,
            ] && o.app == a
        }),
{
    reveal(settings_key);
    let o = app_step(a, MsgView::Key(press, c));
    if press.key is Esc {
        assert(o.actions[1] == ActionView::SaveGlossary(joined(c.settings_lines, "\n"@)));
        assert(o.actions[0] == ActionView::SetKeyterms(
            glossary_terms(joined(c.settings_lines, "\n"@)),
        ));
    }
}

/// Quitting ends the program at once where nothing is being recorded, and then
/// stores the conversation; else the recording is finished first.
pub proof fn quitting_finishes_first(a: AppView, press: KeyPress, c: ContextView)
    requires
        views_in_front(a),
        is_letter(press.key, 'q', 'Q') || (press.key == Key::Char('c') && press.ctrl),
        !a.should_quit,
    ensures
        ({
            let o = app_step(a, MsgView::Key(press, c));
            if a.rec.status is Recording || a.rec.status is Paused {
                &&& o.actions == seq![ActionView::Finish]
                &&& o.app.quitting
                &&& !o.app.should_quit
            } else {
                &&& o.app.should_quit
                &&& a.chat.scope is Global && a.chat.msgs.len() > 0 ==> o.actions == seq![
                    ActionView::SaveGlobalChat(a.chat.msgs),
                ]
            }
        }),
{
    reveal(base_key);
    reveal(home_key);
    reveal(live_key);
    reveal(quit);
}

/// What the session says of its status is what the interface takes it for:
/// recording shows the live view, and a session that ended shows no level and a
/// clock at zero.
pub proof fn statuses_are_taken_over(a: AppView, s: Status)
    ensures
        ({
            let o = app_step(a, MsgView::Session(SessionEventView::Status(s)));
            &&& o.actions.len() == 0
            &&& o.app.rec.status == s
            &&& o.app.rec.lines == a.rec.lines
            &&& s is Recording ==> !o.app.home.home_mode
            &&& s is Idle ==> o.app.home.home_mode
            &&& s is Idle || s is Finished ==> o.app.rec.audio_level == 0 && o.app.rec.duration
                == "00:00:00"@
            &&& s is Recording || s is Paused ==> o.app.rec.duration == a.rec.duration
        }),
{
}

/// What a session tells besides its transcript is shown as it is: levels, the
/// clock, notices and errors.
pub proof fn what_the_session_tells_is_shown(
    a: AppView,
    level: nat,
    text: Seq<char>,
    clock: Seq<char>,
)
    ensures
        app_step(a, MsgView::Session(SessionEventView::AudioLevel(level))).app.rec.audio_level
            == level,
        app_step(a, MsgView::Tick(Some(clock))).app.rec.duration == clock,
        app_step(a, MsgView::Tick(None)).app == a,
        app_step(a, MsgView::Session(SessionEventView::Error(text))).app.notice.text == text,
        app_step(a, MsgView::Session(SessionEventView::Error(text))).app.notice.is_err,
        app_step(a, MsgView::Session(SessionEventView::Notice(text))).app.notice.text == text,
        !app_step(a, MsgView::Session(SessionEventView::Notice(text))).app.notice.is_err,
{
}

/// Whether an action asks for title and summary.
pub open spec fn asks_for_title(act: ActionView) -> bool {
    act is GenerateMeta
}

/// After a save the list is read anew, and where words were transcribed and a
/// language model is set up, title and summary are asked for, for the folder and
/// the transcript that were saved. What failed is told as an error.
pub proof fn saves_are_followed_up(a: AppView, s: SaveView)
    requires
        !a.quitting,
    ensures
        ({
            let o = app_step(a, MsgView::SaveResult(s));
            let wanted = s.err is None && s.folder is Some && s.word_count > 0
                && a.setup.cfg.llm_api_key.len() > 0 && trimmed(s.transcript).len() > 0;
            &&& o.actions.len() > 0
            &&& o.actions.last() is LoadSessions
            &&& wanted ==> o.actions.contains(
                ActionView::GenerateMeta(
                    s.folder->0,
                    s.transcript,
                    glossary_prompt(a.prefs.glossary),
                ),
            )
            &&& !wanted ==> forall|i: int|
                0 <= i < o.actions.len() ==> !asks_for_title(#[trigger] o.actions[i])
            &&& s.err is Some ==> o.app.notice.is_err
            &&& s.err is None && s.folder is Some && s.word_count == 0 ==> o.app.notice.is_err
            &&& s.err is None && s.folder is Some && s.stt_err is Some ==> o.app.notice.is_err
            &&& s.err is None && s.stt_err is None && s.word_count > 0 ==> !o.app.notice.is_err
            &&& !o.app.should_quit || a.should_quit
        }),
{
    let o = app_step(a, MsgView::SaveResult(s));
    let wanted = s.err is None && s.folder is Some && s.word_count > 0
        && a.setup.cfg.llm_api_key.len() > 0 && trimmed(s.transcript).len() > 0;
    let n = o.actions.len();
    if wanted {
        assert(o.actions[n - 2] == ActionView::GenerateMeta(
            s.folder->0,
            s.transcript,
            glossary_prompt(a.prefs.glossary),
        ));
    } else {
        assert forall|i: int| 0 <= i < n implies !asks_for_title(#[trigger] o.actions[i]) by {}
    }
}

/// The conversation about a recording moves on with its save: the folder it was
/// saved to is remembered for the recording's conversation, which is stored there
/// when the view is left.
pub proof fn the_recordings_chat_is_saved_with_it(a: AppView, s: SaveView, n: nat)
    requires
        !in_session(a.rec.status),
        a.chat.scope == ScopeView::Live(n),
        s.folder is Some,
        a.chat.msgs.len() > 0,
    ensures
        ({
            let o = app_step(a, MsgView::SaveResult(s));
            &&& o.app.chat.finished_live == Some((n, s.folder->0))
            &&& o.app.chat.scope is Global
            &&& o.actions.len() > 0
            &&& o.actions[0] == ActionView::SaveChat(s.folder->0, false, a.chat.msgs)
        }),
{
}

/// A title is announced, unless an error is in view; the list is read anew.
pub proof fn titles_are_announced(
    a: AppView,
    title: Seq<char>,
    speakers: Seq<Seq<char>>,
    err: Option<Seq<char>>,
)
    ensures
        ({
            let o = app_step(a, MsgView::MetaGenerated(title, speakers, err));
            &&& o.actions == seq![ActionView::LoadSessions]
            &&& !o.app.home.summary_pending
            &&& a.notice.is_err ==> o.app.notice == a.notice
            &&& !a.notice.is_err && err is None && speakers.len() == 0 ==> o.app.notice.text
                == seq!['\u{201c}'] + title + seq!['\u{201d}']
            &&& !a.notice.is_err ==> !o.app.notice.is_err
        }),
{
    reveal_strlit("\u{201c}");
    reveal_strlit("\u{201d}");
    assert("\u{201c}"@ =~= seq!['\u{201c}']);
    assert("\u{201d}"@ =~= seq!['\u{201d}']);
}

/// What is said last takes an error off the screen while the recording runs;
/// otherwise words leave the notice as it is.
pub proof fn words_end_an_error(a: AppView, seg: SegmentView)
    ensures
        ({
            let b = app_step(a, MsgView::Session(SessionEventView::Segment(seg))).app;
            if a.notice.is_err && a.rec.status == Status::Recording && seg.is_final {
                b.notice.text.len() == 0 && !b.notice.is_err
            } else {
                b.notice == a.notice
            }
        }),
{
}

/// A save leads back to the list of recordings, unless the chosen model is one
/// that goes on after the recording; while another recording runs it leads nowhere.
pub proof fn saves_lead_to_the_list(a: AppView, s: SaveView)
    ensures
        ({
            let b = app_step(a, MsgView::SaveResult(s)).app;
            &&& in_session(a.rec.status) ==> b.home.home_mode == a.home.home_mode && b.chat.scope
                == a.chat.scope
            &&& !in_session(a.rec.status) ==> {
                &&& b.chat.scope is Global
                &&& b.home.home_mode <==> !("parakeet/"@.len() <= a.prefs.stt_model.len()
                    && a.prefs.stt_model.take("parakeet/"@.len() as int) == "parakeet/"@)
            }
        }),
{
}

/// When the list is read anew, the place in it stays; where the list no longer
/// reaches there, the place is its last.
pub proof fn the_place_in_the_list_stays(a: AppView, sessions: Seq<SummaryView>)
    ensures
        ({
            let b = app_step(a, MsgView::SessionsLoaded(sessions)).app;
            &&& b.home.sessions == sessions
            &&& a.home.session_idx < sessions.len() ==> b.home.session_idx == a.home.session_idx
            &&& a.home.session_idx >= sessions.len() && sessions.len() > 0 ==> b.home.session_idx
                == sessions.len() - 1
        }),
{
}

/// What a save came to is told: what failed with its reason.
pub proof fn saves_are_told(a: AppView, s: SaveView, reason: Seq<char>)
    requires
        !a.quitting,
    ensures
        ({
            let text = app_step(a, MsgView::SaveResult(s)).app.notice.text;
            &&& s.err == Some(reason) ==> text == "Error saving: "@ + reason
            &&& s.err is None && s.folder is None ==> text == "Session ended (nothing to save)"@
            &&& s.err is None && s.folder is Some && s.word_count == 0 && s.stt_err == Some(reason)
                ==> text == "Saved audio, but transcript is EMPTY: "@ + reason
            &&& s.err is None && s.folder is Some && s.word_count > 0 && s.stt_err == Some(reason)
                ==> text == "Saved (transcription incomplete: "@ + reason + ")"@
        }),
{
}

/// After a deletion the place in the list is the one before, from where the list
/// goes on when it was read anew.
pub proof fn deletion_steps_back(a: AppView, press: KeyPress, c: ContextView)
    requires
        a.modal.confirm_delete,
        a.home.session_idx < a.home.sessions.len(),
        is_letter(press.key, 'y', 'Y'),
    ensures
        ({
            let b = app_step(a, MsgView::Key(press, c)).app;
            &&& a.home.session_idx > 0 ==> b.home.session_idx == a.home.session_idx - 1
            &&& a.home.session_idx == 0 ==> b.home.session_idx == 0
            &&& b.home.sessions == a.home.sessions
        }),
{
    reveal(delete_key);
}

/// A summary moves down with the one page key and up again with the other; a page
/// down and a page up lead back.
pub proof fn summaries_are_paged(a: AppView, press: KeyPress, c: ContextView)
    requires
        views_in_front(a),
        a.home.home_mode,
        a.home.viewing is Some,
        a.home.summary_scroll < 0xffff_ffff,
    ensures
        ({
            let b = app_step(a, MsgView::Key(press, c)).app;
            &&& press.key is PageDown ==> b.home.summary_scroll == a.home.summary_scroll + 1
            &&& press.key is PageUp && a.home.summary_scroll > 0 ==> b.home.summary_scroll
                == a.home.summary_scroll - 1
            &&& press.key is PageUp && a.home.summary_scroll == 0 ==> b.home.summary_scroll == 0
            &&& press.key is PageUp || press.key is PageDown ==> b.rec == a.rec
        }),
{
    reveal(base_key);
    reveal(home_key);
}

/// The arrows scroll the conversation while the chat is open: up to what was said
/// before, down to what was said last.
pub proof fn conversations_are_scrolled(a: AppView, press: KeyPress, c: ContextView)
    requires
        a.chat.open,
        !a.modal.confirm_delete,
        !a.modal.template_open,
        !a.modal.stt_picker_open,
        !a.modal.settings_open,
        a.chat.scroll < 0xffff_ffff,
    ensures
        ({
            let o = app_step(a, MsgView::Key(press, c));
            &&& press.key is Up ==> o.app.chat.scroll == a.chat.scroll + 1
            &&& press.key is Down && a.chat.scroll > 0 ==> o.app.chat.scroll == a.chat.scroll - 1
            &&& press.key is Down && a.chat.scroll == 0 ==> o.app.chat.scroll == 0
            &&& press.key is Up || press.key is Down ==> o.actions.len() == 0 && o.app.chat.msgs
                == a.chat.msgs
        }),
{
    reveal(chat_key);
}

} // verus!

//! What keys do.

use super::app::{
    chat_input_text, empty, is_live, less, placeholder_text, profile_views, step_in,
    transcript_views, App, SttProfile,
};
use super::model::{
    back_to_live, base_key, begun, chat_key, chat_opened, delete_key, editor_lines, glossary_kept,
    home_key, live_key, mic_key, on_key, one_more, picker_key, profile_of, quit, settings_key,
    setup_text, sound, start_action, summary_toggled, template_key, viewed, AppView, LineView,
    ModalView,
};
use super::msg::{
    action_views, push_action, Action, ActionView, ChatScope, Key, KeyContext, KeyPress,
};
use crate::config::provider_api_key;
use crate::session::Status;
use crate::text::{
    add_counts, chars_of, concat2, concat3, join, lines, owned, same, string_of, texts, trim,
};
use vstd::prelude::*;

verus! {

broadcast use vstd::string::group_string_axioms;

fn more(n: usize) -> (r: usize)
    ensures
        r == one_more(n as nat),
{
    add_counts(n, 1)
}

fn profile(profiles: &Vec<SttProfile>, id: &str) -> (r: Option<usize>)
    ensures
        r is Some <==> profile_of(profile_views(profiles@), id@) is Some,
        r matches Some(i) ==> i < profiles@.len() && profiles@[i as int]@ == profile_of(
            profile_views(profiles@),
            id@,
        )->0,
{
    let ghost views = profile_views(profiles@);
    let mut i: usize = 0;
    assert(views.skip(0) =~= views);
    while i < profiles.len()
        invariant
            i <= profiles@.len(),
            views == profile_views(profiles@),
            profile_of(views, id@) == profile_of(views.skip(i as int), id@),
        decreases profiles@.len() - i,
    {
        assert(views.skip(i as int)[0] == profiles@[i as int]@);
        assert(views.skip(i as int).drop_first() =~= views.skip(i + 1));
        if same(profiles[i].id.as_str(), id) {
            return Some(i);
        }
        i += 1;
    }
    None
}

/// Texts as strings.
fn strings_of(list: &Vec<Vec<char>>) -> (r: Vec<String>)
    ensures
        texts(r@) == list@.map_values(|l: Vec<char>| l@),
{
    let ghost all = list@.map_values(|l: Vec<char>| l@);
    let mut out: Vec<String> = Vec::new();
    let mut i: usize = 0;
    while i < list.len()
        invariant
            i <= list@.len(),
            all == list@.map_values(|l: Vec<char>| l@),
            texts(out@) =~= all.take(i as int),
        decreases list@.len() - i,
    {
        let ghost before = texts(out@);
        out.push(string_of(&list[i]));
        assert(texts(out@) =~= before.push(all[i as int]));
        i += 1;
    }
    out
}

impl App {
    fn handle_stt_picker_key(&mut self, key: Key, out: &mut Vec<Action>)
        requires
            sound(old(self)@),
        ensures
            final(self)@ == picker_key(old(self)@, key).app,
            action_views(final(out)@) == action_views(old(out)@) + picker_key(
                old(self)@,
                key,
            ).actions,
    {
        proof {
            reveal(picker_key);
        }
        match key {
            Key::Esc => {
                self.modal.stt_picker_open = false;
            },
            Key::Up | Key::Char('k') => {
                self.modal.stt_idx = less(self.modal.stt_idx);
            },
            Key::Down | Key::Char('j') => {
                self.modal.stt_idx = step_in(self.modal.stt_idx, self.setup.profiles.len());
            },
            Key::Enter => {
                let i = self.modal.stt_idx;
                assert(self@.setup.profiles[i as int] == self.setup.profiles@[i as int]@);
                let id = self.setup.profiles[i].id.clone();
                let label = self.setup.profiles[i].label.clone();
                self.prefs.stt_model = id.clone();
                self.modal.stt_picker_open = false;
                push_action(out, Action::SaveModel { id, label });
            },
            _ => {},
        }
    }

    fn save_settings(&mut self, lines: &[String], out: &mut Vec<Action>)
        ensures
            final(self)@ == glossary_kept(old(self)@, texts(lines@)).app,
            action_views(final(out)@) == action_views(old(out)@) + glossary_kept(
                old(self)@,
                texts(lines@),
            ).actions,
    {
        self.prefs.settings.glossary = join(lines, "\n");
        self.modal.settings_open = false;
        push_action(out, Action::SetKeyterms(self.prefs.settings.keyterms()));
        push_action(out, Action::SaveGlossary(self.prefs.settings.glossary.clone()));
    }

    fn handle_settings_key(&mut self, press: KeyPress, c: &KeyContext, out: &mut Vec<Action>)
        requires
            sound(old(self)@),
        ensures
            final(self)@ == settings_key(old(self)@, press, c@).app,
            action_views(final(out)@) == action_views(old(out)@) + settings_key(
                old(self)@,
                press,
                c@,
            ).actions,
    {
        proof {
            reveal(settings_key);
        }
        match press.key {
            Key::Left | Key::Char('1') => {
                self.modal.settings_tab = 0;
            },
            Key::Right | Key::Char('2') => {
                self.modal.settings_tab = 1;
            },
            key => {
                if self.modal.settings_tab == 1 {
                    self.handle_stt_picker_key(key, out);
                    if key == Key::Esc {
                        self.modal.settings_open = false;
                    }
                } else if key == Key::Char('c') && press.ctrl {
                    self.modal.settings_open = false;
                } else if key == Key::Esc {
                    self.save_settings(&c.settings_lines, out);
                } else {
                    push_action(out, Action::EditGlossary);
                }
            },
        }
    }

    fn handle_confirm_delete_key(&mut self, key: Key, out: &mut Vec<Action>)
        ensures
            final(self)@ == delete_key(old(self)@, key).app,
            action_views(final(out)@) == action_views(old(out)@) + delete_key(
                old(self)@,
                key,
            ).actions,
    {
        proof {
            reveal(delete_key);
        }
        match key {
            Key::Char('y') | Key::Char('Y') => {
                let i = self.home.session_idx;
                if i < self.home.sessions.len() {
                    assert(self@.home.sessions[i as int] == self.home.sessions@[i as int]@);
                    let folder = self.home.sessions[i].folder.clone();
                    push_action(out, Action::DeleteFolder(folder));
                    self.home.session_idx = less(i);
                    push_action(out, Action::LoadSessions);
                }
                self.modal.confirm_delete = false;
            },
            Key::Char('n') | Key::Char('N') | Key::Esc => {
                self.modal.confirm_delete = false;
            },
            _ => {},
        }
    }

    fn handle_template_key(&mut self, key: Key, c: &KeyContext, out: &mut Vec<Action>)
        ensures
            final(self)@ == template_key(old(self)@, key, c@).app,
            action_views(final(out)@) == action_views(old(out)@) + template_key(
                old(self)@,
                key,
                c@,
            ).actions,
    {
        proof {
            reveal(template_key);
        }
        match key {
            Key::Esc => {
                self.modal.template_open = false;
            },
            Key::Up | Key::Char('k') => {
                self.modal.template_idx = less(self.modal.template_idx);
            },
            Key::Down | Key::Char('j') => {
                self.modal.template_idx = step_in(
                    self.modal.template_idx,
                    self.setup.templates.len(),
                );
            },
            Key::Enter => {
                self.modal.template_open = false;
                let i = self.modal.template_idx;
                if i < self.setup.templates.len() {
                    assert(self@.setup.templates[i as int] == self.setup.templates@[i as int]@);
                    let name = self.setup.templates[i].name.clone();
                    let prompt = self.setup.templates[i].prompt.clone();
                    // The name goes to the conversation, the prompt to the model.
                    self.say(name);
                    self.cmd_ask(prompt, c.live_text.as_str(), out);
                }
            },
            _ => {},
        }
    }

    fn handle_chat_key(&mut self, press: KeyPress, c: &KeyContext, out: &mut Vec<Action>)
        ensures
            final(self)@ == chat_key(old(self)@, press, c@).app,
            action_views(final(out)@) == action_views(old(out)@) + chat_key(
                old(self)@,
                press,
                c@,
            ).actions,
    {
        proof {
            reveal(chat_key);
        }
        let text = chat_input_text(&c.chat_lines);
        let key = press.key;
        let blank = text.as_str().unicode_len() == 0;
        if key == Key::Esc || (key == Key::Char('c') && press.ctrl) {
            self.chat.open = false;
        } else if key == Key::Char('?') && blank && self.setup.templates.len() > 0 {
            self.modal.template_open = true;
            self.modal.template_idx = 0;
        } else if key == Key::Enter {
            if !blank && !self.chat_loading() {
                push_action(out, Action::ClearChat(placeholder_text(&self.chat.scope)));
                self.say(text.clone());
                self.cmd_ask(text, c.live_text.as_str(), out);
            }
        } else if key == Key::Up {
            self.chat.scroll = more(self.chat.scroll);
        } else if key == Key::Down {
            self.chat.scroll = less(self.chat.scroll);
        } else {
            let shorter = key == Key::Backspace || key == Key::Delete || key == Key::Left || key
                == Key::Right;
            let bytes = text.as_str().as_bytes();
            if bytes.len() < 500 || shorter {
                push_action(out, Action::EditChat);
            }
        }
    }

    fn handle_mic_key(&mut self, key: Key, out: &mut Vec<Action>)
        ensures
            final(self)@ == mic_key(old(self)@, key).app,
            action_views(final(out)@) == action_views(old(out)@) + mic_key(
                old(self)@,
                key,
            ).actions,
    {
        proof {
            reveal(mic_key);
        }
        match key {
            Key::Up | Key::Char('k') => {
                self.modal.mic_idx = less(self.modal.mic_idx);
            },
            Key::Down | Key::Char('j') => {
                self.modal.mic_idx = step_in(self.modal.mic_idx, self.setup.devices.len());
            },
            Key::Enter => {
                let i = self.modal.mic_idx;
                if i < self.setup.devices.len() {
                    assert(self@.setup.devices[i as int] == self.setup.devices@[i as int]@);
                    let index = self.setup.devices[i].index;
                    let text = concat2("Microphone: ", self.setup.devices[i].name.as_str());
                    push_action(out, Action::SetDevice(index));
                    self.set_notice(text, false);
                }
                self.modal.selecting_mic = false;
            },
            Key::Esc | Key::Char('q') => {
                self.modal.selecting_mic = false;
            },
            _ => {},
        }
    }

    fn setup_notice(&self, what: &str) -> (r: String)
        ensures
            r@ == setup_text(self@.setup.cfg.llm_provider, what@),
    {
        let provider = self.setup.cfg.llm_provider.as_str().to_uppercase();
        let mut t = concat3("Set LLM_MODEL and ", provider.as_str(), "_API_KEY to enable ");
        t.append(what);
        t
    }

    fn open_chat(&mut self, out: &mut Vec<Action>)
        ensures
            final(self)@ == chat_opened(old(self)@).app,
            action_views(final(out)@) == action_views(old(out)@) + chat_opened(
                old(self)@,
            ).actions,
    {
        proof {
            reveal(chat_opened);
        }
        if self.setup.cfg.llm_api_key.as_str().unicode_len() == 0 {
            let text = self.setup_notice("chat");
            self.set_notice(text, true);
            return;
        }
        self.chat.open = true;
        self.chat.scroll = 0;
        push_action(out, Action::ChatPlaceholder(placeholder_text(&self.chat.scope)));
    }

    fn toggle_summary(&mut self, out: &mut Vec<Action>)
        ensures
            final(self)@ == summary_toggled(old(self)@).app,
            action_views(final(out)@) == action_views(old(out)@) + summary_toggled(
                old(self)@,
            ).actions,
    {
        proof {
            reveal(summary_toggled);
        }
        let (folder, has_summary) = match &self.home.viewing {
            Some(v) => (v.folder.clone(), v.summary.as_str().unicode_len() > 0),
            None => {
                return;
            },
        };
        if has_summary {
            self.home.summary_open = !self.home.summary_open;
            return;
        }
        if self.setup.cfg.llm_api_key.as_str().unicode_len() == 0 {
            let text = self.setup_notice("summaries");
            self.set_notice(text, true);
            return;
        }
        if trim(self.home.view_raw.as_str()).as_str().unicode_len() == 0 {
            self.set_notice(owned("Transcript is empty \u{2014} nothing to summarize"), true);
            return;
        }
        if !self.home.summary_pending {
            self.home.summary_pending = true;
            self.home.summary_open = true;
            self.set_notice(owned("Generating summary..."), false);
            let transcript = self.home.view_raw.clone();
            self.cmd_generate_meta(folder, transcript, out);
        }
    }

    fn back_to_live(&mut self, out: &mut Vec<Action>)
        ensures
            final(self)@ == back_to_live(old(self)@).app,
            action_views(final(out)@) == action_views(old(out)@) + back_to_live(
                old(self)@,
            ).actions,
    {
        proof {
            reveal(back_to_live);
        }
        self.home.home_mode = false;
        self.home.viewing = None;
        self.chat.open = false;
        let n = self.chat.live_seq;
        self.set_chat_scope(ChatScope::Live(n), out);
    }

    fn start_recording(&self) -> (r: Action)
        ensures
            r@ == start_action(self@),
    {
        match profile(&self.setup.profiles, self.prefs.stt_model.as_str()) {
            Some(i) => {
                let p = &self.setup.profiles[i];
                Action::StartSession {
                    provider: p.provider.clone(),
                    model: p.model.clone(),
                    api_key: provider_api_key(&self.setup.env, p.provider.as_str()),
                }
            },
            None => Action::StartSession {
                provider: self.setup.cfg.stt_provider.clone(),
                model: self.setup.cfg.stt_model.clone(),
                api_key: self.setup.cfg.stt_api_key.clone(),
            },
        }
    }

    fn new_session(&mut self, out: &mut Vec<Action>)
        ensures
            final(self)@ == begun(old(self)@).app,
            action_views(final(out)@) == action_views(old(out)@) + begun(old(self)@).actions,
    {
        proof {
            reveal(begun);
        }
        let start = self.start_recording();
        self.rec.lines = Vec::new();
        assert(transcript_views(self.rec.lines@) =~= Seq::<LineView>::empty());
        self.rec.partial_idx = None;
        self.rec.scroll = 0;
        self.rec.duration = owned("00:00:00");
        self.notice.text = empty();
        self.home.home_mode = false;
        self.home.viewing = None;
        self.chat.open = false;
        if self.chat.live_seq < u64::MAX {
            self.chat.live_seq += 1;
        }
        let n = self.chat.live_seq;
        self.set_chat_scope(ChatScope::Live(n), out);
        push_action(out, start);
    }

    fn quit(&mut self, out: &mut Vec<Action>)
        ensures
            final(self)@ == quit(old(self)@).app,
            action_views(final(out)@) == action_views(old(out)@) + quit(old(self)@).actions,
    {
        proof {
            reveal(quit);
        }
        if is_live(self.rec.status) {
            self.quitting = true;
            push_action(out, Action::Finish);
        } else {
            self.persist_chat(out);
            self.should_quit = true;
        }
    }

    fn view_session(&mut self, out: &mut Vec<Action>)
        ensures
            final(self)@ == viewed(old(self)@).app,
            action_views(final(out)@) == action_views(old(out)@) + viewed(old(self)@).actions,
    {
        proof {
            reveal(viewed);
        }
        if self.home.viewing.is_some() {
            return;
        }
        let i = self.home.session_idx;
        if i < self.home.sessions.len() {
            assert(self@.home.sessions[i as int] == self.home.sessions@[i as int]@);
            let s = self.home.sessions[i].copy();
            let folder = s.folder.clone();
            push_action(out, Action::LoadTranscript(s.folder.clone()));
            self.set_chat_scope(ChatScope::Session(folder), out);
            self.home.viewing = Some(s);
            self.rec.scroll = 0;
            self.home.summary_open = true;
            self.home.summary_scroll = 0;
            self.home.summary_pending = false;
        }
    }

    fn open_settings(&mut self, out: &mut Vec<Action>)
        ensures
            final(self)@ == (AppView {
                modal: ModalView { settings_tab: 0, settings_open: true, ..old(self)@.modal },
                ..old(self)@
            }),
            action_views(final(out)@) == action_views(old(out)@).push(
                ActionView::OpenGlossary(editor_lines(old(self)@.prefs.glossary)),
            ),
    {
        let glossary = self.prefs.settings.glossary.as_str();
        let list = if glossary.unicode_len() == 0 {
            let mut one: Vec<String> = Vec::new();
            one.push(empty());
            assert(texts(one@) =~= editor_lines(glossary@));
            one
        } else {
            strings_of(&lines(&chars_of(glossary)))
        };
        push_action(out, Action::OpenGlossary(list));
        self.modal.settings_tab = 0;
        self.modal.settings_open = true;
    }
}

/// Whether a key leads from the home view to something else.
spec fn opens(key: Key) -> bool {
    key is Enter || key is Esc || key == Key::Char('c') || key == Key::Char('C') || key
        == Key::Char('s') || key == Key::Char('S') || key == Key::Char('n') || key == Key::Char('N')
        || key == Key::Char('q') || key == Key::Char('Q')
}

/// What the keys that lead from the home view lead to.
proof fn lemma_home_keys(a: AppView, key: Key)
    ensures
        key is Enter ==> home_key(a, key) == viewed(a),
        key == Key::Char('c') || key == Key::Char('C') ==> home_key(a, key) == chat_opened(a),
        key == Key::Char('S') ==> home_key(a, key) == home_key(a, Key::Char('s')),
        key == Key::Char('N') ==> home_key(a, key) == home_key(a, Key::Char('n')),
        key == Key::Char('q') || key == Key::Char('Q') ==> home_key(a, key) == quit(a),
{
    reveal(home_key);
}

impl App {
    /// Keys that move in the home view.
    fn home_move(&mut self, key: Key)
        requires
            !opens(key),
        ensures
            final(self)@ == home_key(old(self)@, key).app,
            home_key(old(self)@, key).actions.len() == 0,
    {
        proof {
            reveal(home_key);
        }
        let open = self.home.viewing.is_some();
        match key {
            Key::Up | Key::Char('k') => {
                if open {
                    self.rec.scroll = more(self.rec.scroll);
                } else {
                    self.home.session_idx = less(self.home.session_idx);
                }
            },
            Key::Down | Key::Char('j') => {
                if open {
                    self.rec.scroll = less(self.rec.scroll);
                } else {
                    self.home.session_idx = step_in(
                        self.home.session_idx,
                        self.home.sessions.len(),
                    );
                }
            },
            Key::PageUp => {
                if open {
                    self.home.summary_scroll = less(self.home.summary_scroll);
                }
            },
            Key::PageDown => {
                if open {
                    self.home.summary_scroll = more(self.home.summary_scroll);
                }
            },
            Key::Char('d') | Key::Char('D') => {
                if !open && self.home.sessions.len() > 0 {
                    self.modal.confirm_delete = true;
                }
            },
            _ => {},
        }
    }

    fn home_back(&mut self, out: &mut Vec<Action>)
        ensures
            final(self)@ == home_key(old(self)@, Key::Esc).app,
            action_views(final(out)@) == action_views(old(out)@) + home_key(
                old(self)@,
                Key::Esc,
            ).actions,
    {
        proof {
            reveal(home_key);
        }
        if self.home.viewing.is_none() && is_live(self.rec.status) {
            self.back_to_live(out);
        } else {
            self.home.viewing = None;
            self.chat.open = false;
            self.set_chat_scope(ChatScope::Global, out);
        }
    }

    fn home_settings(&mut self, out: &mut Vec<Action>)
        ensures
            final(self)@ == home_key(old(self)@, Key::Char('s')).app,
            action_views(final(out)@) == action_views(old(out)@) + home_key(
                old(self)@,
                Key::Char('s'),
            ).actions,
    {
        proof {
            reveal(home_key);
        }
        if self.home.viewing.is_some() {
            self.toggle_summary(out);
        } else {
            self.open_settings(out);
        }
    }

    fn home_new(&mut self, out: &mut Vec<Action>)
        ensures
            final(self)@ == home_key(old(self)@, Key::Char('n')).app,
            action_views(final(out)@) == action_views(old(out)@) + home_key(
                old(self)@,
                Key::Char('n'),
            ).actions,
    {
        proof {
            reveal(home_key);
        }
        // A session is already live: jump back to it.
        if is_live(self.rec.status) {
            self.back_to_live(out);
        } else {
            self.new_session(out);
        }
    }

    fn handle_home_key(&mut self, key: Key, out: &mut Vec<Action>)
        ensures
            final(self)@ == home_key(old(self)@, key).app,
            action_views(final(out)@) == action_views(old(out)@) + home_key(
                old(self)@,
                key,
            ).actions,
    {
        proof {
            lemma_home_keys(self@, key);
        }
        match key {
            Key::Enter => self.view_session(out),
            Key::Esc => self.home_back(out),
            Key::Char('c') | Key::Char('C') => self.open_chat(out),
            Key::Char('s') | Key::Char('S') => self.home_settings(out),
            Key::Char('n') | Key::Char('N') => self.home_new(out),
            Key::Char('q') | Key::Char('Q') => self.quit(out),
            _ => self.home_move(key),
        }
    }

    fn live_back(&mut self, out: &mut Vec<Action>)
        ensures
            final(self)@ == live_key(old(self)@, Key::Esc).app,
            action_views(final(out)@) == action_views(old(out)@) + live_key(
                old(self)@,
                Key::Esc,
            ).actions,
    {
        proof {
            reveal(live_key);
        }
        if !is_live(self.rec.status) {
            self.home.home_mode = true;
            self.home.viewing = None;
            self.set_chat_scope(ChatScope::Global, out);
        }
    }

    fn handle_live_key(&mut self, key: Key, out: &mut Vec<Action>)
        ensures
            final(self)@ == live_key(old(self)@, key).app,
            action_views(final(out)@) == action_views(old(out)@) + live_key(
                old(self)@,
                key,
            ).actions,
    {
        proof {
            reveal(live_key);
        }
        match key {
            Key::Esc => self.live_back(out),
            Key::Char('n') | Key::Char('N') => {
                if !is_live(self.rec.status) {
                    self.new_session(out);
                }
            },
            Key::Char('p') | Key::Char('P') => match self.rec.status {
                Status::Recording => push_action(out, Action::Pause),
                Status::Paused => push_action(out, Action::Resume),
                _ => {},
            },
            Key::Char('f') | Key::Char('F') => {
                if is_live(self.rec.status) {
                    push_action(out, Action::Finish);
                }
            },
            Key::Char('x') | Key::Char('X') => {
                if is_live(self.rec.status) {
                    push_action(out, Action::Cancel);
                }
            },
            Key::Char('m') | Key::Char('M') => {
                self.modal.selecting_mic = true;
                self.modal.mic_idx = 0;
            },
            Key::Char('c') | Key::Char('C') => self.open_chat(out),
            Key::Char('q') | Key::Char('Q') => self.quit(out),
            Key::Up => {
                self.rec.scroll = more(self.rec.scroll);
            },
            Key::Down => {
                self.rec.scroll = less(self.rec.scroll);
            },
            _ => {},
        }
    }

    fn handle_base_key(&mut self, press: KeyPress, out: &mut Vec<Action>)
        ensures
            final(self)@ == base_key(old(self)@, press).app,
            action_views(final(out)@) == action_views(old(out)@) + base_key(
                old(self)@,
                press,
            ).actions,
    {
        proof {
            reveal(base_key);
        }
        if press.key == Key::Char('c') && press.ctrl {
            self.quit(out);
        } else if self.modal.selecting_mic {
            self.handle_mic_key(press.key, out);
        } else if self.home.home_mode {
            self.handle_home_key(press.key, out);
        } else {
            self.handle_live_key(press.key, out);
        }
    }

    /// Hands a key to what lies on top.
    pub fn handle_key(&mut self, press: KeyPress, c: &KeyContext, out: &mut Vec<Action>)
        requires
            sound(old(self)@),
        ensures
            final(self)@ == on_key(old(self)@, press, c@).app,
            action_views(final(out)@) == action_views(old(out)@) + on_key(
                old(self)@,
                press,
                c@,
            ).actions,
    {
        if self.modal.confirm_delete {
            self.handle_confirm_delete_key(press.key, out);
        } else if self.modal.template_open {
            self.handle_template_key(press.key, c, out);
        } else if self.modal.stt_picker_open {
            self.handle_stt_picker_key(press.key, out);
        } else if self.modal.settings_open {
            self.handle_settings_key(press, c, out);
        } else if self.chat.open {
            self.handle_chat_key(press, c, out);
        } else {
            self.handle_base_key(press, out);
        }
    }
}

} // verus!

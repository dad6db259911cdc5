//! Requests to an OpenAI-compatible chat service, and what its replies mean.

use crate::json::{
    item_views, json_array, json_object, json_text, member_views, push_member, Json, JsonView,
};
use crate::paths::{find_last, last_index};
use crate::text::{
    chars_of, concat2, concat3, decimal, decimal_string, find_char, first_index, opt_text, owned,
    same, string_between,
};
use vstd::prelude::*;

verus! {

broadcast use vstd::string::group_string_axioms;

/// One turn of a conversation.
#[derive(Debug)]
pub struct ChatMessage {
    pub role: String,
    pub content: String,
}

/// The contents of a [`ChatMessage`].
pub struct ChatView {
    pub role: Seq<char>,
    pub content: Seq<char>,
}

impl View for ChatMessage {
    type V = ChatView;

    open spec fn view(&self) -> ChatView {
        ChatView { role: self.role@, content: self.content@ }
    }
}

/// The contents of a conversation.
pub open spec fn chat_views(v: Seq<ChatMessage>) -> Seq<ChatView> {
    v.map_values(|m: ChatMessage| m@)
}

impl ChatMessage {
    /// A copy of the turn.
    pub fn copy(&self) -> (r: ChatMessage)
        ensures
            r@ == self@,
    {
        ChatMessage { role: self.role.clone(), content: self.content.clone() }
    }
}

/// A copy of a conversation.
pub fn copy_chat(msgs: &[ChatMessage]) -> (r: Vec<ChatMessage>)
    ensures
        chat_views(r@) == chat_views(msgs@),
{
    let mut out: Vec<ChatMessage> = Vec::new();
    let mut i: usize = 0;
    while i < msgs.len()
        invariant
            i <= msgs@.len(),
            chat_views(out@) =~= chat_views(msgs@).take(i as int),
        decreases msgs@.len() - i,
    {
        let ghost before = chat_views(out@);
        out.push(msgs[i].copy());
        assert(chat_views(out@) =~= before.push(msgs@[i as int]@));
        i += 1;
    }
    out
}

/// A title and a summary.
#[derive(Debug)]
pub struct Meta {
    pub title: String,
    pub summary: String,
}

/// Where and how to reach a language model, and the glossary that its prompts
/// begin with.
#[derive(Debug)]
pub struct LlmClient {
    pub provider: String,
    pub api_key: String,
    pub model: String,
    pub base_url: String,
    pub glossary: Option<String>,
}

/// The address of a provider's service; a name that is none means the default.
pub open spec fn service_url(provider: Seq<char>) -> Seq<char> {
    if provider == "gemini"@ {
        "https://generativelanguage.googleapis.com/v1beta/openai"@
    } else if provider == "anthropic"@ {
        "https://api.anthropic.com/v1"@
    } else {
        "https://api.openai.com/v1"@
    }
}

/// A prompt behind the glossary's instruction, if there is one.
pub open spec fn with_terms(glossary: Option<Seq<char>>, prompt: Seq<char>) -> Seq<char> {
    match glossary {
        Some(g) => g + "\n\n"@ + prompt,
        None => prompt,
    }
}

/// The conversation that a question is sent with: the instructions, the turns
/// before, then the question.
pub open spec fn conversation(
    system: Seq<char>,
    history: Seq<ChatView>,
    user: Seq<char>,
) -> Seq<ChatView> {
    seq![ChatView { role: "system"@, content: system }] + history + seq![
        ChatView { role: "user"@, content: user },
    ]
}

/// The prompt for a title and a summary.
pub open spec fn meta_prompt(transcript: Seq<char>) -> Seq<char> {
    "You are given a meeting transcript. Return ONLY a JSON object with two fields:\n- \"title\": a concise meeting title, max 8 words\n- \"summary\": a 2-3 sentence summary of the key points discussed\n\nExample: {\"title\": \"Q1 Planning\", \"summary\": \"The team discussed...\"}\n\nTranscript:\n"@
        + transcript
}

/// A turn as JSON.
pub open spec fn message_json(m: ChatView) -> JsonView {
    JsonView::Object(
        seq![("role"@, JsonView::Text(m.role)), ("content"@, JsonView::Text(m.content))],
    )
}

/// The body of a request. A JSON object is asked for only where the provider is
/// known to support it.
pub open spec fn request_json(
    model: Seq<char>,
    messages: Seq<ChatView>,
    json_object: bool,
) -> JsonView {
    let base = seq![
        ("model"@, JsonView::Text(model)),
        ("messages"@, JsonView::Array(messages.map_values(|m: ChatView| message_json(m)))),
    ];
    JsonView::Object(
        if json_object {
            base.push(
                (
                    "response_format"@,
                    JsonView::Object(seq![("type"@, JsonView::Text("json_object"@))]),
                ),
            )
        } else {
            base
        },
    )
}

/// What a reply with a status other than success means.
pub open spec fn http_error(status: nat, text: Seq<char>) -> Seq<char> {
    "chat completion: HTTP "@ + decimal(status) + ": "@ + text
}

fn to_json(m: &ChatMessage) -> (r: Json)
    ensures
        r@ == message_json(m@),
{
    let mut members: Vec<(String, Json)> = Vec::new();
    assert(member_views(members@) =~= Seq::empty());
    push_member(&mut members, "role", json_text(m.role.clone()));
    push_member(&mut members, "content", json_text(m.content.clone()));
    assert(member_views(members@) =~= message_json(m@)->Object_0);
    json_object(members)
}

/// Reads a reply further only where its status is success.
pub fn check_status(status: u16, text: &str) -> (r: Result<(), String>)
    ensures
        r is Ok <==> status == 200,
        r matches Err(e) ==> e@ == http_error(status as nat, text@),
{
    if status == 200 {
        Ok(())
    } else {
        let mut e = concat2("chat completion: HTTP ", decimal_string(status as u64).as_str());
        e.append(": ");
        e.append(text);
        assert(e@ =~= http_error(status as nat, text@));
        Err(e)
    }
}

/// The answer among the choices of a reply: the content of the first one.
pub fn first_choice(choices: Vec<Option<String>>) -> (r: Result<String, String>)
    ensures
        r is Ok <==> choices@.len() > 0 && choices@[0] is Some,
        r matches Ok(t) ==> t@ == choices@[0]->0@,
        r matches Err(e) ==> e@ == "no choices returned"@,
{
    if choices.len() > 0 {
        if let Some(t) = &choices[0] {
            return Ok(t.clone());
        }
    }
    Err(owned("no choices returned"))
}

impl LlmClient {
    /// A client for a provider's service; no model means the default one.
    pub fn new(provider: &str, api_key: &str, model: &str) -> (r: LlmClient)
        ensures
            r.provider@ == provider@,
            r.api_key@ == api_key@,
            r.model@ == (if model@.len() == 0 {
                "gpt-4o-mini"@
            } else {
                model@
            }),
            r.base_url@ == service_url(provider@),
            r.glossary is None,
    {
        LlmClient {
            provider: owned(provider),
            api_key: owned(api_key),
            model: if model.unicode_len() == 0 {
                owned("gpt-4o-mini")
            } else {
                owned(model)
            },
            base_url: if same(provider, "gemini") {
                owned("https://generativelanguage.googleapis.com/v1beta/openai")
            } else if same(provider, "anthropic") {
                owned("https://api.anthropic.com/v1")
            } else {
                owned("https://api.openai.com/v1")
            },
            glossary: None,
        }
    }

    /// The client with a glossary's instruction before its prompts.
    pub fn with_glossary(self, glossary: Option<String>) -> (r: LlmClient)
        ensures
            r.provider == self.provider,
            r.api_key == self.api_key,
            r.model == self.model,
            r.base_url == self.base_url,
            r.glossary == glossary,
    {
        LlmClient {
            provider: self.provider,
            api_key: self.api_key,
            model: self.model,
            base_url: self.base_url,
            glossary,
        }
    }

    fn prompt(&self, text: &str) -> (r: String)
        ensures
            r@ == with_terms(opt_text(self.glossary), text@),
    {
        match &self.glossary {
            Some(g) => concat3(g.as_str(), "\n\n", text),
            None => owned(text),
        }
    }

    /// The address of a request.
    pub fn url(&self) -> (r: String)
        ensures
            r@ == self.base_url@ + "/chat/completions"@,
    {
        concat2(self.base_url.as_str(), "/chat/completions")
    }

    /// The authorization of a request.
    pub fn authorization(&self) -> (r: String)
        ensures
            r@ == "Bearer "@ + self.api_key@,
    {
        concat2("Bearer ", self.api_key.as_str())
    }

    /// The body of a request. A JSON object is asked for only of the provider
    /// that is known to support it.
    pub fn complete(&self, messages: &[ChatMessage], json_object: bool) -> (r: Json)
        ensures
            r@ == request_json(
                self.model@,
                chat_views(messages@),
                json_object && self.provider@ == "openai"@,
            ),
    {
        let mut list: Vec<Json> = Vec::new();
        let mut i: usize = 0;
        while i < messages.len()
            invariant
                i <= messages@.len(),
                list@.len() == i,
                forall|k: int|
                    0 <= k < i ==> (#[trigger] list@[k])@ == message_json(messages@[k]@),
            decreases messages@.len() - i,
        {
            list.push(to_json(&messages[i]));
            i += 1;
        }
        let ghost views = chat_views(messages@).map_values(|m: ChatView| message_json(m));
        assert(item_views(list@) =~= views);
        let mut members: Vec<(String, Json)> = Vec::new();
        assert(member_views(members@) =~= Seq::empty());
        push_member(&mut members, "model", json_text(self.model.clone()));
        push_member(&mut members, "messages", json_array(list));
        let strict = json_object && same(self.provider.as_str(), "openai");
        if strict {
            let mut format: Vec<(String, Json)> = Vec::new();
            assert(member_views(format@) =~= Seq::empty());
            push_member(&mut format, "type", json_text(owned("json_object")));
            assert(member_views(format@) =~= seq![("type"@, JsonView::Text("json_object"@))]);
            push_member(&mut members, "response_format", crate::json::json_object(format));
        }
        assert(member_views(members@) =~= request_json(
            self.model@,
            chat_views(messages@),
            strict,
        )->Object_0);
        crate::json::json_object(members)
    }

    /// The conversation that a question is sent with.
    pub fn ask(&self, system: &str, history: &[ChatMessage], user: &str) -> (r: Vec<ChatMessage>)
        ensures
            chat_views(r@) == conversation(
                with_terms(opt_text(self.glossary), system@),
                chat_views(history@),
                user@,
            ),
    {
        let mut messages: Vec<ChatMessage> = Vec::new();
        messages.push(ChatMessage { role: owned("system"), content: self.prompt(system) });
        let ghost first = chat_views(messages@);
        let mut rest = copy_chat(history);
        let ghost turns = chat_views(rest@);
        messages.append(&mut rest);
        assert(chat_views(messages@) =~= first + turns);
        messages.push(ChatMessage { role: owned("user"), content: owned(user) });
        assert(chat_views(messages@) =~= conversation(
            with_terms(opt_text(self.glossary), system@),
            chat_views(history@),
            user@,
        ));
        messages
    }

    /// The conversation that asks for a title and a summary; there is none for
    /// an empty transcript.
    pub fn generate_meta(&self, transcript: &str) -> (r: Result<Vec<ChatMessage>, String>)
        ensures
            r is Ok <==> transcript@.len() > 0,
            r matches Ok(v) ==> chat_views(v@) == seq![
                ChatView {
                    role: "user"@,
                    content: with_terms(opt_text(self.glossary), meta_prompt(transcript@)),
                },
            ],
            r matches Err(e) ==> e@ == "transcript is empty"@,
    {
        if transcript.unicode_len() == 0 {
            return Err(owned("transcript is empty"));
        }
        let prompt = concat2(
            "You are given a meeting transcript. Return ONLY a JSON object with two fields:\n- \"title\": a concise meeting title, max 8 words\n- \"summary\": a 2-3 sentence summary of the key points discussed\n\nExample: {\"title\": \"Q1 Planning\", \"summary\": \"The team discussed...\"}\n\nTranscript:\n",
            transcript,
        );
        let mut messages: Vec<ChatMessage> = Vec::new();
        messages.push(ChatMessage { role: owned("user"), content: self.prompt(prompt.as_str()) });
        assert(chat_views(messages@) =~= seq![
            ChatView {
                role: "user"@,
                content: with_terms(opt_text(self.glossary), meta_prompt(transcript@)),
            },
        ]);
        Ok(messages)
    }
}

/// The part of a text from the first opening to the last closing brace; the
/// whole text where there is no such part.
pub open spec fn braced(s: Seq<char>) -> Seq<char> {
    let a = first_index(s, '{');
    let b = last_index(s, '}');
    if a < b {
        s.subrange(a, b + 1)
    } else {
        s
    }
}

/// Grab the first '{' through the last '}': tolerates code fences and prose.
pub fn extract_json(s: &str) -> (r: String)
    ensures
        r@ == braced(s@),
{
    let c = chars_of(s);
    let a = find_char(&c, '{');
    let b = find_last(&c, '}');
    if b > 0 && a < b - 1 {
        string_between(&c, a, b)
    } else {
        owned(s)
    }
}

/// A JSON object is found whatever surrounds it, as long as that holds no
/// braces.
pub proof fn json_is_found(before: Seq<char>, object: Seq<char>, after: Seq<char>)
    requires
        object.len() >= 2,
        object[0] == '{',
        object.last() == '}',
        !before.contains('{'),
        !after.contains('}'),
    ensures
        braced(before + object + after) == object,
{
    let s = before + object + after;
    crate::text::lemma_index_from(s, '{', 0);
    let a = first_index(s, '{');
    assert(s[before.len() as int] == '{');
    if a < before.len() {
        assert(before[a] == '{');
    }
    lemma_last_index(before + object, after, '}');
    assert(last_index(before + object, '}') == before.len() + object.len() - 1) by {
        assert((before + object).last() == '}');
    }
    assert(s.subrange(a, before.len() + object.len() as int) =~= object);
}

proof fn lemma_last_index(s: Seq<char>, after: Seq<char>, c: char)
    requires
        !after.contains(c),
    ensures
        last_index(s + after, c) == last_index(s, c),
    decreases after.len(),
{
    if after.len() == 0 {
        assert(s + after =~= s);
    } else {
        assert(after[after.len() - 1] != c);
        assert forall|i: int| 0 <= i < after.drop_last().len() implies after.drop_last()[i] != c by {
            assert(after.contains(after[i]));
        }
        lemma_last_index(s, after.drop_last(), c);
        assert((s + after).drop_last() =~= s + after.drop_last());
    }
}

proof fn lemma_last_bound(s: Seq<char>, c: char)
    ensures
        last_index(s, c) < s.len(),
    decreases s.len(),
{
    if s.len() > 0 {
        lemma_last_bound(s.drop_last(), c);
    }
}

/// A reply without an object is taken as it is.
pub proof fn other_replies_stay(s: Seq<char>)
    requires
        !s.contains('{') || !s.contains('}'),
    ensures
        braced(s) == s,
{
    let a = first_index(s, '{');
    let b = last_index(s, '}');
    crate::text::lemma_index_from(s, '{', 0);
    lemma_last_bound(s, '}');
    if !s.contains('{') && a < s.len() {
        assert(s.contains(s[a]));
    }
    if !s.contains('}') {
        lemma_last_index(Seq::empty(), s, '}');
        assert(Seq::empty() + s =~= s);
    }
    assert(a >= b);
}

/// What is asked stands whole at the end of the prompt; the glossary's
/// instruction, if there is one, stands before it and changes nothing in it.
pub proof fn prompts_keep_what_is_asked(
    glossary: Seq<char>,
    prompt: Seq<char>,
    transcript: Seq<char>,
)
    ensures
        with_terms(None, prompt) == prompt,
        with_terms(Some(glossary), prompt).take(glossary.len() as int) == glossary,
        with_terms(Some(glossary), prompt).len() == glossary.len() + 2 + prompt.len(),
        with_terms(Some(glossary), prompt).skip(glossary.len() as int + 2) == prompt,
        meta_prompt(transcript).len() == meta_prompt(seq![]).len() + transcript.len(),
        meta_prompt(transcript).skip(meta_prompt(seq![]).len() as int) == transcript,
{
    reveal_strlit("\n\n");
    assert("\n\n"@.len() == 2);
    let w = with_terms(Some(glossary), prompt);
    assert(w.take(glossary.len() as int) =~= glossary);
    assert(w.skip(glossary.len() as int + 2) =~= prompt);
    let m = meta_prompt(transcript);
    assert(m.skip(meta_prompt(seq![]).len() as int) =~= transcript);
}

/// Each provider is reached at its own service, and any other at the one that the
/// others imitate. A refusal is reported with its status and its text.
pub proof fn providers_have_their_services(provider: Seq<char>, status: nat, text: Seq<char>)
    ensures
        service_url("gemini"@) == "https://generativelanguage.googleapis.com/v1beta/openai"@,
        service_url("anthropic"@) == "https://api.anthropic.com/v1"@,
        provider != "gemini"@ && provider != "anthropic"@ ==> service_url(provider)
            == "https://api.openai.com/v1"@,
        http_error(status, text).skip(http_error(status, seq![]).len() as int) == text,
        http_error(status, text).take(22 + decimal(status).len() as int).skip(22) == decimal(
            status,
        ),
{
    reveal_strlit("gemini");
    reveal_strlit("anthropic");
    reveal_strlit("chat completion: HTTP ");
    assert("gemini"@.len() == 6 && "anthropic"@.len() == 9);
    let e = http_error(status, text);
    assert(e.skip(http_error(status, seq![]).len() as int) =~= text);
    assert("chat completion: HTTP "@.len() == 22);
    assert(e.take(22 + decimal(status).len() as int).skip(22) =~= decimal(status));
}

} // verus!

//! What is stored of sessions: the contents of their files, and what is read
//! back of them.

use super::{
    duration_of, folder_of, metadata_of, summary_views, valid_times, Session, SessionSummary,
    SessionView, SummaryView,
};
use crate::audio::wav::{wav_bytes, wav_file, wav_file_fits};
use crate::json::{
    at_most_max, decimal_parts, field_of, flat_member, get_scaled, get_text, get_text_or_empty,
    get_unsigned, is_flat, item_views, json_array, json_object, json_parsed, json_text,
    lemma_member_index, lemma_member_index_is, member_index, member_views, plain_number,
    point_moved, print_json, printed, push_member, read_json, reads_as, same_member, same_members,
    scaled, scaled_field, text_field, text_of, text_or_empty, unsigned_field, Json, JsonView,
};
use crate::llm::client::{chat_views, ChatMessage, ChatView};
use crate::llm::templates::{
    choose_templates, first_templates, template_views, Template, TemplateView,
};
use crate::paths::{join_path, path_join};
use crate::stt::{
    plain_text, segment_views, speakers_in, words_in, Segment, SegmentView, Transcript,
};
use crate::text::{
    all_digits, chars_of, concat3, countable, decimal, decimal_round_trip, digit, digit_value,
    digits_value, first_index, is_digit, lemma_index_from, opt_text, owned, same,
};
use crate::time::{
    fraction_digits, parse_rfc3339, rfc3339_read, rfc3339_text, seconds_decimal, valid_stamp, Stamp,
};
use vstd::prelude::*;

verus! {

broadcast use vstd::string::group_string_axioms;

/// The directory that sessions are stored in.
#[derive(Debug)]
pub struct Storage {
    pub base_dir: String,
}

/// What is written of a session.
#[derive(Debug)]
pub struct SavedSession {
    pub folder: String,
    pub wav: Vec<u8>,
    pub transcript: String,
    /// The text of the metadata's file.
    pub metadata: String,
}

/// The members of an object read from a text; none where it is no object.
pub open spec fn object_members(text: Option<Seq<char>>) -> Seq<(Seq<char>, JsonView)> {
    match text {
        Some(t) => match json_parsed(t) {
            Some(JsonView::Object(members)) => members,
            _ => seq![],
        },
        None => seq![],
    }
}

/// An object's members with one set: in its place where it was there before,
/// else behind the others.
pub open spec fn with_member(
    members: Seq<(Seq<char>, JsonView)>,
    key: Seq<char>,
    value: JsonView,
) -> Seq<(Seq<char>, JsonView)> {
    let i = member_index(members, key);
    if i < members.len() {
        members.update(i, (key, value))
    } else {
        members.push((key, value))
    }
}

/// Setting a member sets that one and leaves the others as they are.
pub proof fn setting_keeps_others(
    members: Seq<(Seq<char>, JsonView)>,
    key: Seq<char>,
    value: JsonView,
)
    ensures
        field_of(JsonView::Object(with_member(members, key, value)), key) == Some(value),
        forall|other: Seq<char>|
            other != key ==> #[trigger] field_of(
                JsonView::Object(with_member(members, key, value)),
                other,
            ) == field_of(JsonView::Object(members), other),
{
    let i = member_index(members, key);
    let set = with_member(members, key, value);
    lemma_member_index(members, key);
    assert forall|k: int| 0 <= k < i implies (#[trigger] set[k]).0 != key by {
        assert(members[k].0 != key);
    }
    lemma_member_index_is(set, key, i);
    assert forall|other: Seq<char>| other != key implies #[trigger] field_of(
        JsonView::Object(set),
        other,
    ) == field_of(JsonView::Object(members), other) by {
        lemma_member_index(members, other);
        let j = member_index(members, other);
        if j < members.len() {
            assert forall|k: int| 0 <= k < j implies (#[trigger] set[k]).0 != other by {
                assert(members[k].0 != other);
            }
            lemma_member_index_is(set, other, j);
        } else {
            assert forall|k: int| 0 <= k < set.len() implies (#[trigger] set[k]).0 != other by {
                if k < members.len() {
                    assert(members[k].0 != other);
                }
            }
            lemma_member_index_is(set, other, set.len() as int);
        }
    }
}

fn set_member(members: &mut Vec<(String, Json)>, key: &str, value: Json)
    ensures
        member_views(final(members)@) == with_member(member_views(old(members)@), key@, value@),
{
    let ghost views = member_views(members@);
    let mut i: usize = 0;
    while i < members.len()
        invariant
            i <= members@.len(),
            views == member_views(members@),
            views == member_views(old(members)@),
            forall|k: int| 0 <= k < i ==> (#[trigger] views[k]).0 != key@,
        decreases members@.len() - i,
    {
        if same(members[i].0.as_str(), key) {
            proof {
                assert(views[i as int].0 == key@);
                lemma_member_index_is(views, key@, i as int);
            }
            members[i] = (owned(key), value);
            assert(member_views(members@) =~= views.update(i as int, (key@, value@)));
            return;
        }
        assert(views[i as int].0 != key@);
        i += 1;
    }
    proof {
        lemma_member_index_is(views, key@, i as int);
    }
    push_member(members, key, value);
}

fn read_members(text: &Option<String>) -> (r: Vec<(String, Json)>)
    ensures
        member_views(r@) == object_members(opt_text(*text)),
{
    if let Some(t) = text {
        if let Some(j) = read_json(t.as_str()) {
            if let Json::Object(members) = j {
                assert(j@->Object_0 =~= member_views(members@));
                return members;
            }
        }
    }
    let none: Vec<(String, Json)> = Vec::new();
    assert(member_views(none@) =~= Seq::<(Seq<char>, JsonView)>::empty());
    none
}

/// The metadata of a session with its title and summary set.
pub open spec fn titled(
    members: Seq<(Seq<char>, JsonView)>,
    title: Seq<char>,
    summary: Seq<char>,
) -> Seq<(Seq<char>, JsonView)> {
    with_member(
        with_member(members, "title"@, JsonView::Text(title)),
        "summary"@,
        JsonView::Text(summary),
    )
}

/// A title and a summary as a document.
pub open spec fn summary_document(title: Seq<char>, summary: Seq<char>) -> Seq<char> {
    "# "@ + title + "\n\n"@ + summary + "\n"@
}

/// The new name of a speaker, if there is one.
pub open spec fn name_for(names: Seq<(Seq<char>, Seq<char>)>, speaker: Seq<char>) -> Option<
    Seq<char>,
>
    decreases names.len(),
{
    if names.len() == 0 {
        None
    } else if names[0].0 == speaker {
        Some(names[0].1)
    } else {
        name_for(names.drop_first(), speaker)
    }
}

/// A segment with its speaker's new name, if there is one.
pub open spec fn renamed(names: Seq<(Seq<char>, Seq<char>)>, seg: SegmentView) -> SegmentView {
    match name_for(names, seg.speaker) {
        Some(n) => SegmentView { speaker: n, ..seg },
        None => seg,
    }
}

/// How many segments get a new name.
pub open spec fn renamed_count(
    names: Seq<(Seq<char>, Seq<char>)>,
    segs: Seq<SegmentView>,
) -> nat
    decreases segs.len(),
{
    if segs.len() == 0 {
        0
    } else {
        renamed_count(names, segs.drop_last()) + (if name_for(
            names,
            segs.last().speaker,
        ) is Some {
            1nat
        } else {
            0nat
        })
    }
}

/// The contents of a list of names.
pub open spec fn name_views(names: Seq<(String, String)>) -> Seq<(Seq<char>, Seq<char>)> {
    names.map_values(|n: (String, String)| (n.0@, n.1@))
}

/// A list of names as JSON.
pub open spec fn names_json(names: Seq<(Seq<char>, Seq<char>)>) -> JsonView {
    JsonView::Object(
        names.map_values(|n: (Seq<char>, Seq<char>)| (n.0, JsonView::Text(n.1))),
    )
}

/// The metadata of a session with the names of its speakers set.
pub open spec fn named(
    members: Seq<(Seq<char>, JsonView)>,
    names: Seq<(Seq<char>, Seq<char>)>,
) -> Seq<(Seq<char>, JsonView)> {
    with_member(members, "speaker_names"@, names_json(names))
}

/// What is written after speakers were renamed.
#[derive(Debug)]
pub struct Renaming {
    pub segments: Vec<Segment>,
    pub changed: usize,
    /// The transcript and the metadata to write, where anything changed.
    pub files: Option<(String, String)>,
}

fn lookup(names: &[(String, String)], speaker: &str) -> (r: Option<String>)
    ensures
        opt_text(r) == name_for(name_views(names@), speaker@),
{
    let ghost views = name_views(names@);
    let mut i: usize = 0;
    assert(views.skip(0) =~= views);
    while i < names.len()
        invariant
            i <= names@.len(),
            views == name_views(names@),
            name_for(views, speaker@) == name_for(views.skip(i as int), speaker@),
        decreases names@.len() - i,
    {
        assert(views.skip(i as int)[0] == (names@[i as int].0@, names@[i as int].1@));
        assert(views.skip(i as int).drop_first() =~= views.skip(i + 1));
        if same(names[i].0.as_str(), speaker) {
            return Some(names[i].1.clone());
        }
        i += 1;
    }
    None
}

fn names_value(names: &[(String, String)]) -> (r: Json)
    ensures
        r@ == names_json(name_views(names@)),
{
    let ghost all = names_json(name_views(names@))->Object_0;
    let mut members: Vec<(String, Json)> = Vec::new();
    let mut i: usize = 0;
    assert(member_views(members@) =~= all.take(0));
    while i < names.len()
        invariant
            i <= names@.len(),
            all == names_json(name_views(names@))->Object_0,
            member_views(members@) == all.take(i as int),
        decreases names@.len() - i,
    {
        push_member(&mut members, names[i].0.as_str(), json_text(names[i].1.clone()));
        assert(all.take(i + 1) =~= all.take(i as int).push(all[i as int]));
        i += 1;
    }
    assert(all.take(i as int) =~= all);
    json_object(members)
}

// ---------------------------------------------------------------------------
// Conversations and templates
// ---------------------------------------------------------------------------

/// A turn of a stored conversation.
pub open spec fn chat_item(m: ChatView) -> JsonView {
    JsonView::Object(
        seq![("Role"@, JsonView::Text(m.role)), ("Content"@, JsonView::Text(m.content))],
    )
}

/// A stored conversation.
pub open spec fn chat_json(msgs: Seq<ChatView>) -> JsonView {
    JsonView::Array(msgs.map_values(|m: ChatView| chat_item(m)))
}

/// Two texts of an object, or of an array that holds them in order. Where a
/// member stands twice in an object, the last one counts.
pub open spec fn text_pair(j: JsonView, first: Seq<char>, second: Seq<char>) -> Option<
    (Seq<char>, Seq<char>),
> {
    match j {
        JsonView::Object(_) => match (text_field(j, first), text_field(j, second)) {
            (Some(a), Some(b)) => Some((a, b)),
            _ => None,
        },
        JsonView::Array(items) => if items.len() == 2 {
            match (text_of(items[0]), text_of(items[1])) {
                (Some(a), Some(b)) => Some((a, b)),
                _ => None,
            }
        } else {
            None
        },
        _ => None,
    }
}

/// The pairs of texts of a list; `None` where an item is no such pair.
pub open spec fn text_pairs(items: Seq<JsonView>, first: Seq<char>, second: Seq<char>) -> Option<
    Seq<(Seq<char>, Seq<char>)>,
>
    decreases items.len(),
{
    if items.len() == 0 {
        Some(seq![])
    } else {
        match (text_pairs(items.drop_last(), first, second), text_pair(items.last(), first, second)) {
            (Some(before), Some(p)) => Some(before.push(p)),
            _ => None,
        }
    }
}

/// The pairs of texts that a text in JSON lists.
pub open spec fn listed_pairs(text: Option<Seq<char>>, first: Seq<char>, second: Seq<char>) -> Option<
    Seq<(Seq<char>, Seq<char>)>,
> {
    match text {
        Some(t) => match json_parsed(t) {
            Some(JsonView::Array(items)) => text_pairs(items, first, second),
            _ => None,
        },
        None => None,
    }
}

/// The conversation of a list of pairs.
pub open spec fn as_chat(pairs: Seq<(Seq<char>, Seq<char>)>) -> Seq<ChatView> {
    pairs.map_values(|p: (Seq<char>, Seq<char>)| ChatView { role: p.0, content: p.1 })
}

/// The templates of a list of pairs.
pub open spec fn as_templates(pairs: Seq<(Seq<char>, Seq<char>)>) -> Seq<TemplateView> {
    pairs.map_values(|p: (Seq<char>, Seq<char>)| TemplateView { name: p.0, prompt: p.1 })
}

/// The conversation that a stored text holds; a missing or corrupt one reads as
/// empty.
pub open spec fn stored_chat(text: Option<Seq<char>>) -> Seq<ChatView> {
    match listed_pairs(text, "Role"@, "Content"@) {
        Some(pairs) => as_chat(pairs),
        None => seq![],
    }
}

/// Templates as JSON.
pub open spec fn templates_json(ts: Seq<TemplateView>) -> JsonView {
    JsonView::Array(
        ts.map_values(
            |t: TemplateView|
                JsonView::Object(
                    seq![("name"@, JsonView::Text(t.name)), ("prompt"@, JsonView::Text(t.prompt))],
                ),
        ),
    )
}

/// The contents of a list of pairs.
pub open spec fn pair_views(pairs: Seq<(String, String)>) -> Seq<(Seq<char>, Seq<char>)> {
    pairs.map_values(|p: (String, String)| (p.0@, p.1@))
}

fn read_pair(j: &Json, first: &str, second: &str) -> (r: Option<(String, String)>)
    ensures
        r is Some <==> text_pair(j@, first@, second@) is Some,
        r matches Some(p) ==> (p.0@, p.1@) == text_pair(j@, first@, second@)->0,
{
    match j {
        Json::Object(_) => match (get_text(j, first), get_text(j, second)) {
            (Some(a), Some(b)) => Some((a, b)),
            _ => None,
        },
        Json::Array(items) => {
            assert(j@->Array_0 =~= item_views(items@));
            if items.len() == 2 {
                assert(j@->Array_0[0] == items@[0]@);
                assert(j@->Array_0[1] == items@[1]@);
                match (&items[0], &items[1]) {
                    (Json::Text(a), Json::Text(b)) => Some((a.clone(), b.clone())),
                    _ => None,
                }
            } else {
                None
            }
        },
        _ => None,
    }
}

proof fn lemma_pairs_fail(items: Seq<JsonView>, first: Seq<char>, second: Seq<char>, i: int)
    requires
        0 <= i <= items.len(),
        text_pairs(items.take(i), first, second) is None,
    ensures
        text_pairs(items, first, second) is None,
    decreases items.len(),
{
    if i == items.len() {
        assert(items.take(i) =~= items);
    } else {
        assert(items.drop_last().take(i) =~= items.take(i));
        lemma_pairs_fail(items.drop_last(), first, second, i);
    }
}

fn read_pairs(text: &Option<String>, first: &str, second: &str) -> (r: Option<
    Vec<(String, String)>,
>)
    ensures
        r is Some <==> listed_pairs(opt_text(*text), first@, second@) is Some,
        r matches Some(v) ==> pair_views(v@) == listed_pairs(opt_text(*text), first@, second@)->0,
{
    let t = match text {
        Some(t) => t,
        None => {
            return None;
        },
    };
    let j = match read_json(t.as_str()) {
        Some(j) => j,
        None => {
            return None;
        },
    };
    match &j {
        Json::Array(items) => {
            let ghost views = j@->Array_0;
            assert(views =~= item_views(items@));
            let mut out: Vec<(String, String)> = Vec::new();
            let mut i: usize = 0;
            assert(views.take(0) =~= Seq::<JsonView>::empty());
            assert(pair_views(out@) =~= Seq::<(Seq<char>, Seq<char>)>::empty());
            while i < items.len()
                invariant
                    i <= items@.len(),
                    views == item_views(items@),
                    text_pairs(views.take(i as int), first@, second@) == Some(pair_views(out@)),
                    listed_pairs(opt_text(*text), first@, second@) == text_pairs(
                        views,
                        first@,
                        second@,
                    ),
                decreases items@.len() - i,
            {
                assert(views.take(i + 1).drop_last() =~= views.take(i as int));
                assert(views.take(i + 1).last() == items@[i as int]@);
                match read_pair(&items[i], first, second) {
                    Some(p) => {
                        let ghost before = pair_views(out@);
                        let ghost v = (p.0@, p.1@);
                        out.push(p);
                        assert(pair_views(out@) =~= before.push(v));
                    },
                    None => {
                        proof {
                            lemma_pairs_fail(views, first@, second@, i + 1);
                        }
                        return None;
                    },
                }
                i += 1;
            }
            assert(views.take(i as int) =~= views);
            Some(out)
        },
        _ => None,
    }
}

fn pair_item(first: &str, a: &str, second: &str, b: &str) -> (r: Json)
    ensures
        r@ == JsonView::Object(seq![(first@, JsonView::Text(a@)), (second@, JsonView::Text(b@))]),
{
    let mut members: Vec<(String, Json)> = Vec::new();
    assert(member_views(members@) =~= Seq::<(Seq<char>, JsonView)>::empty());
    push_member(&mut members, first, json_text(owned(a)));
    push_member(&mut members, second, json_text(owned(b)));
    assert(member_views(members@) =~= seq![
        (first@, JsonView::Text(a@)),
        (second@, JsonView::Text(b@)),
    ]);
    json_object(members)
}

/// The templates that a stored text holds; none where it is missing or
/// malformed.
pub open spec fn stored_templates(text: Option<Seq<char>>) -> Option<Seq<TemplateView>> {
    match listed_pairs(text, "name"@, "prompt"@) {
        Some(pairs) => Some(as_templates(pairs)),
        None => None,
    }
}

/// The templates of the user's file; `None` where it is missing or malformed.
pub fn load_templates(text: &Option<String>) -> (r: Option<Vec<Template>>)
    ensures
        r is Some <==> stored_templates(opt_text(*text)) is Some,
        r matches Some(v) ==> Some(template_views(v@)) == stored_templates(opt_text(*text)),
{
    match read_pairs(text, "name", "prompt") {
        Some(pairs) => {
            let ghost views = pair_views(pairs@);
            let mut out: Vec<Template> = Vec::new();
            let mut i: usize = 0;
            assert(template_views(out@) =~= as_templates(views).take(0));
            while i < pairs.len()
                invariant
                    i <= pairs@.len(),
                    views == pair_views(pairs@),
                    template_views(out@) == as_templates(views).take(i as int),
                decreases pairs@.len() - i,
            {
                let ghost before = template_views(out@);
                out.push(Template { name: pairs[i].0.clone(), prompt: pairs[i].1.clone() });
                assert(template_views(out@) =~= before.push(as_templates(views)[i as int]));
                assert(as_templates(views).take(i + 1) =~= as_templates(views).take(i as int).push(
                    as_templates(views)[i as int],
                ));
                i += 1;
            }
            assert(as_templates(views).take(i as int) =~= as_templates(views));
            Some(out)
        },
        None => None,
    }
}

/// The text of the user's file of templates. It reads back as the templates.
pub fn templates_text(ts: &[Template]) -> (r: String)
    ensures
        r@ == printed(templates_json(template_views(ts@))),
        stored_templates(Some(r@)) == Some(template_views(ts@)),
{
    let ghost all = templates_json(template_views(ts@))->Array_0;
    let mut items: Vec<Json> = Vec::new();
    let mut i: usize = 0;
    assert(item_views(items@) =~= all.take(0));
    while i < ts.len()
        invariant
            i <= ts@.len(),
            all == templates_json(template_views(ts@))->Array_0,
            item_views(items@) == all.take(i as int),
        decreases ts@.len() - i,
    {
        let ghost before = item_views(items@);
        items.push(pair_item("name", ts[i].name.as_str(), "prompt", ts[i].prompt.as_str()));
        assert(item_views(items@) =~= before.push(all[i as int]));
        assert(all.take(i + 1) =~= all.take(i as int).push(all[i as int]));
        i += 1;
    }
    assert(all.take(i as int) =~= all);
    let text = print_json(&json_array(items));
    proof {
        lemma_templates_are_flat(template_views(ts@));
        templates_read_back(text@, template_views(ts@));
    }
    text
}

/// The templates to offer, and the text to write to the user's file, if any:
/// those of the file, which is then left as it is; or the first ones where it is
/// missing or malformed, which are then written and read back from then on.
pub fn ensure_templates_file(text: &Option<String>) -> (r: (Vec<Template>, Option<String>))
    ensures
        match stored_templates(opt_text(*text)) {
            Some(ts) => template_views(r.0@) == ts && r.1 is None,
            None => {
                &&& template_views(r.0@) == first_templates()
                &&& opt_text(r.1) == Some(printed(templates_json(first_templates())))
                &&& stored_templates(opt_text(r.1)) == Some(first_templates())
            },
        },
{
    let (templates, write) = choose_templates(load_templates(text));
    if write {
        let text = templates_text(&templates);
        (templates, Some(text))
    } else {
        (templates, None)
    }
}

// ---------------------------------------------------------------------------
// The session list
// ---------------------------------------------------------------------------

/// Whether a text comes before another: by the first character in which they
/// differ, a front part before the whole.
pub open spec fn text_before(a: Seq<char>, b: Seq<char>) -> bool
    decreases a.len(),
{
    if b.len() == 0 {
        false
    } else if a.len() == 0 {
        true
    } else if a[0] == b[0] {
        text_before(a.drop_first(), b.drop_first())
    } else {
        a[0] < b[0]
    }
}

fn comes_before(a: &str, b: &str) -> (r: bool)
    ensures
        r == text_before(a@, b@),
{
    let x = chars_of(a);
    let y = chars_of(b);
    let mut i: usize = 0;
    assert(x@.skip(0) =~= x@);
    assert(y@.skip(0) =~= y@);
    while i < x.len() && i < y.len() && x[i] == y[i]
        invariant
            i <= x@.len(),
            i <= y@.len(),
            text_before(x@, y@) == text_before(x@.skip(i as int), y@.skip(i as int)),
        decreases x@.len() - i,
    {
        assert(x@.skip(i as int).drop_first() =~= x@.skip(i + 1));
        assert(y@.skip(i as int).drop_first() =~= y@.skip(i + 1));
        i += 1;
    }
    if i >= y.len() {
        false
    } else if i >= x.len() {
        true
    } else {
        x[i] < y[i]
    }
}

/// A directory below the sessions' one: its name, and the text of its metadata,
/// if it has any.
#[derive(Debug)]
pub struct Entry {
    pub name: String,
    pub metadata: Option<String>,
}

/// The contents of an [`Entry`].
pub struct EntryView {
    pub name: Seq<char>,
    pub metadata: Option<Seq<char>>,
}

impl View for Entry {
    type V = EntryView;

    open spec fn view(&self) -> EntryView {
        EntryView { name: self.name@, metadata: opt_text(self.metadata) }
    }
}

/// The contents of a list of entries.
pub open spec fn entry_views(v: Seq<Entry>) -> Seq<EntryView> {
    v.map_values(|e: Entry| e@)
}

/// Puts an entry before all those whose names come before its own.
pub open spec fn placed(list: Seq<EntryView>, e: EntryView) -> Seq<EntryView>
    decreases list.len(),
{
    if list.len() == 0 || !text_before(list.last().name, e.name) {
        list.push(e)
    } else {
        placed(list.drop_last(), e).push(list.last())
    }
}

/// Entries by name, the last name first. Names begin with the time, so the
/// newest session comes first.
pub open spec fn newest_first(list: Seq<EntryView>) -> Seq<EntryView>
    decreases list.len(),
{
    if list.len() == 0 {
        seq![]
    } else {
        placed(newest_first(list.drop_last()), list.last())
    }
}

/// What the list shows of a session, by its metadata.
pub open spec fn summary_from(
    base_dir: Seq<char>,
    dir: Seq<char>,
    meta: JsonView,
) -> SummaryView {
    SummaryView {
        folder: path_join(base_dir, dir),
        name: if text_or_empty(meta, "name"@).len() == 0 {
            dir
        } else {
            text_or_empty(meta, "name"@)
        },
        title: text_or_empty(meta, "title"@),
        summary: text_or_empty(meta, "summary"@),
        start_time: match text_field(meta, "start_time"@) {
            Some(t) => rfc3339_read(t),
            None => None,
        },
        duration: scaled_field(meta, "duration_secs"@, 6, 0),
        word_count: match unsigned_field(meta, "word_count"@) {
            Some(n) => n,
            None => 0,
        },
        speaker_count: match unsigned_field(meta, "speaker_count"@) {
            Some(n) => n,
            None => 0,
        },
    }
}

/// What the list shows of a directory; nothing where it holds no metadata.
pub open spec fn entry_summary(base_dir: Seq<char>, e: EntryView) -> Option<SummaryView> {
    match e.metadata {
        Some(t) => match json_parsed(t) {
            Some(JsonView::Object(m)) => Some(
                summary_from(base_dir, e.name, JsonView::Object(m)),
            ),
            _ => None,
        },
        None => None,
    }
}

/// What the list shows of a list of directories.
pub open spec fn summaries_of(base_dir: Seq<char>, list: Seq<EntryView>) -> Seq<SummaryView>
    decreases list.len(),
{
    if list.len() == 0 {
        seq![]
    } else {
        let before = summaries_of(base_dir, list.drop_last());
        match entry_summary(base_dir, list.last()) {
            Some(s) => before.push(s),
            None => before,
        }
    }
}

/// Reads what the list shows of a session out of its metadata.
pub fn read_summary(base_dir: &str, dir: &str, meta: &Json) -> (r: SessionSummary)
    ensures
        r@ == summary_from(base_dir@, dir@, meta@),
        r@.start_time matches Some(s) ==> valid_stamp(s),
{
    let name = get_text_or_empty(meta, "name");
    let start_time = match get_text(meta, "start_time") {
        Some(t) => parse_rfc3339(t.as_str()),
        None => None,
    };
    SessionSummary {
        folder: join_path(base_dir, dir),
        name: if name.as_str().unicode_len() == 0 {
            owned(dir)
        } else {
            name
        },
        title: get_text_or_empty(meta, "title"),
        summary: get_text_or_empty(meta, "summary"),
        start_time,
        duration: get_scaled(meta, "duration_secs", 6, 0),
        word_count: match get_unsigned(meta, "word_count") {
            Some(n) => n,
            None => 0,
        },
        speaker_count: match get_unsigned(meta, "speaker_count") {
            Some(n) => n,
            None => 0,
        },
    }
}

fn insert_entry<'a>(list: &mut Vec<&'a Entry>, e: &'a Entry)
    ensures
        final(list)@.map_values(|x: &Entry| x@) == placed(
            old(list)@.map_values(|x: &Entry| x@),
            e@,
        ),
{
    let ghost start = list@.map_values(|x: &Entry| x@);
    let ghost v = e@;
    let mut at: usize = list.len();
    assert(start.take(at as int) =~= start);
    assert(placed(start, v) =~= placed(start.take(at as int), v) + start.skip(at as int));
    while at > 0 && comes_before(list[at - 1].name.as_str(), e.name.as_str())
        invariant
            at <= list@.len(),
            start == list@.map_values(|x: &Entry| x@),
            v == e@,
            placed(start, v) == placed(start.take(at as int), v) + start.skip(at as int),
        decreases at,
    {
        let ghost here = start.take(at as int);
        assert(here.last() == list@[at - 1]@);
        assert(here.drop_last() =~= start.take(at - 1));
        assert(placed(here.drop_last(), v).push(here.last()) + start.skip(at as int) =~= placed(
            start.take(at - 1),
            v,
        ) + start.skip(at - 1));
        at -= 1;
    }
    proof {
        let here = start.take(at as int);
        if at > 0 {
            assert(here.last() == list@[at - 1]@);
        }
        assert(placed(here, v) == here.push(v));
        assert(here.push(v) + start.skip(at as int) =~= start.insert(at as int, v));
    }
    list.insert(at, e);
    assert(list@.map_values(|x: &Entry| x@) =~= start.insert(at as int, v));
}

fn sort_entries<'a>(entries: &'a [Entry]) -> (r: Vec<&'a Entry>)
    ensures
        r@.map_values(|x: &Entry| x@) == newest_first(entry_views(entries@)),
{
    let ghost list = entry_views(entries@);
    let mut out: Vec<&'a Entry> = Vec::new();
    let mut i: usize = 0;
    assert(list.take(0) =~= Seq::<EntryView>::empty());
    assert(out@.map_values(|x: &Entry| x@) =~= Seq::<EntryView>::empty());
    while i < entries.len()
        invariant
            i <= entries@.len(),
            list == entry_views(entries@),
            out@.map_values(|x: &Entry| x@) == newest_first(list.take(i as int)),
        decreases entries@.len() - i,
    {
        assert(list.take(i + 1).drop_last() =~= list.take(i as int));
        assert(list.take(i + 1).last() == entries@[i as int]@);
        insert_entry(&mut out, &entries[i]);
        i += 1;
    }
    assert(list.take(i as int) =~= list);
    out
}

impl Storage {
    /// Storage in a directory.
    pub fn new(base_dir: String) -> (r: Storage)
        ensures
            r.base_dir == base_dir,
    {
        Storage { base_dir }
    }

    /// What is written of a session, and the folder that it goes to.
    pub fn save(
        &self,
        sess: &Session,
        pcm: &[u8],
        sample_rate: u32,
        channels: u16,
        now: Stamp,
    ) -> (r: SavedSession)
        requires
            valid_times(sess@),
            valid_stamp(now),
            wav_file_fits(pcm@, sample_rate as int, channels as int),
        ensures
            r.folder@ == path_join(self.base_dir@, folder_of(sess@)),
            r.wav@ == wav_file(pcm@, sample_rate as int, channels as int),
            r.transcript@ == plain_text(sess@.transcript.segments),
            r.metadata@ == printed(JsonView::Object(metadata_of(sess@, now))),
            countable_millis(duration_of(sess@, now)) ==> reads_as(
                r.metadata@,
                JsonView::Object(metadata_of(sess@, now)),
            ),
    {
        let metadata = sess.to_metadata(now);
        proof {
            if countable_millis(duration_of(sess@, now)) {
                lemma_metadata_is_flat(sess@, now);
            }
        }
        SavedSession {
            folder: join_path(self.base_dir.as_str(), sess.folder_name().as_str()),
            wav: wav_bytes(pcm, sample_rate, channels),
            transcript: sess.transcript.to_plain_text(),
            metadata: print_json(&json_object(metadata)),
        }
    }

    /// The metadata of a session with title and summary added, other members
    /// kept, and the summary as a document. `text` is the metadata so far.
    pub fn save_meta(&self, text: &Option<String>, title: &str, summary: &str) -> (r: (
        String,
        String,
    ))
        ensures
            ({
                let meta = JsonView::Object(
                    titled(object_members(opt_text(*text)), title@, summary@),
                );
                r.0@ == printed(meta) && (is_flat(meta) ==> reads_as(r.0@, meta))
            }),
            r.1@ == summary_document(title@, summary@),
    {
        let mut members = read_members(text);
        set_member(&mut members, "title", json_text(owned(title)));
        set_member(&mut members, "summary", json_text(owned(summary)));
        let mut doc = concat3("# ", title, "\n\n");
        doc.append(summary);
        doc.append("\n");
        assert(doc@ =~= summary_document(title@, summary@));
        (print_json(&json_object(members)), doc)
    }

    /// Rewrite a saved session's speaker labels with identified names, and tell
    /// how many segments were relabeled. Where any was, the new transcript and
    /// the metadata with the names are to be written.
    pub fn apply_speaker_names(
        &self,
        segments: Vec<Segment>,
        names: &[(String, String)],
        metadata: &Option<String>,
    ) -> (r: Renaming)
        ensures
            ({
                let ns = name_views(names@);
                let segs = segment_views(segments@);
                let after = segs.map_values(|s: SegmentView| renamed(ns, s));
                &&& r.changed == renamed_count(ns, segs)
                &&& segment_views(r.segments@) == after
                &&& r.files is Some <==> renamed_count(ns, segs) > 0
                &&& r.files matches Some(f) ==> {
                    let meta = JsonView::Object(named(object_members(opt_text(*metadata)), ns));
                    &&& f.0@ == plain_text(after)
                    &&& f.1@ == printed(meta)
                    &&& is_flat(meta) ==> reads_as(f.1@, meta)
                }
            }),
    {
        let ghost ns = name_views(names@);
        let ghost segs = segment_views(segments@);
        let ghost after = segs.map_values(|s: SegmentView| renamed(ns, s));
        let mut out: Vec<Segment> = Vec::new();
        let mut changed: usize = 0;
        let mut i: usize = 0;
        assert(segs.take(0) =~= Seq::<SegmentView>::empty());
        assert(segment_views(out@) =~= after.take(0));
        while i < segments.len()
            invariant
                i <= segments@.len(),
                ns == name_views(names@),
                segs == segment_views(segments@),
                after == segs.map_values(|s: SegmentView| renamed(ns, s)),
                changed <= i,
                changed == renamed_count(ns, segs.take(i as int)),
                segment_views(out@) == after.take(i as int),
            decreases segments@.len() - i,
        {
            assert(segs.take(i + 1).drop_last() =~= segs.take(i as int));
            assert(segs.take(i + 1).last() == segments@[i as int]@);
            let ghost before = segment_views(out@);
            let mut seg = segments[i].copy();
            if let Some(name) = lookup(names, segments[i].speaker.as_str()) {
                seg.speaker = name;
                changed += 1;
            }
            let ghost v = seg@;
            assert(v == after[i as int]);
            out.push(seg);
            assert(segment_views(out@) =~= before.push(v));
            assert(after.take(i + 1) =~= after.take(i as int).push(v));
            i += 1;
        }
        assert(segs.take(i as int) =~= segs);
        assert(after.take(i as int) =~= after);
        if changed == 0 {
            return Renaming { segments: out, changed, files: None };
        }
        let mut transcript = Transcript::new();
        transcript.replace_segments(crate::stt::copy_segments(&out));
        let mut members = read_members(metadata);
        set_member(&mut members, "speaker_names", names_value(names));
        Renaming {
            segments: out,
            changed,
            files: Some((transcript.to_plain_text(), print_json(&json_object(members)))),
        }
    }

    /// The text of a stored conversation. It reads back as the conversation.
    pub fn save_chat(&self, msgs: &[ChatMessage]) -> (r: String)
        ensures
            r@ == printed(chat_json(chat_views(msgs@))),
            reads_as(r@, chat_json(chat_views(msgs@))),
            stored_chat(Some(r@)) == chat_views(msgs@),
    {
        let ghost all = chat_json(chat_views(msgs@))->Array_0;
        let mut items: Vec<Json> = Vec::new();
        let mut i: usize = 0;
        assert(item_views(items@) =~= all.take(0));
        while i < msgs.len()
            invariant
                i <= msgs@.len(),
                all == chat_json(chat_views(msgs@))->Array_0,
                item_views(items@) == all.take(i as int),
            decreases msgs@.len() - i,
        {
            let ghost before = item_views(items@);
            items.push(
                pair_item("Role", msgs[i].role.as_str(), "Content", msgs[i].content.as_str()),
            );
            assert(item_views(items@) =~= before.push(all[i as int]));
            assert(all.take(i + 1) =~= all.take(i as int).push(all[i as int]));
            i += 1;
        }
        assert(all.take(i as int) =~= all);
        let text = print_json(&json_array(items));
        proof {
            lemma_chat_is_flat(chat_views(msgs@));
            chat_reads_back(text@, chat_views(msgs@));
        }
        text
    }

    /// The conversation that a stored text holds; a missing or corrupt one
    /// reads as empty.
    pub fn load_chat(&self, text: &Option<String>) -> (r: Vec<ChatMessage>)
        ensures
            chat_views(r@) == stored_chat(opt_text(*text)),
    {
        let mut out: Vec<ChatMessage> = Vec::new();
        match read_pairs(text, "Role", "Content") {
            Some(pairs) => {
                let ghost views = pair_views(pairs@);
                let mut i: usize = 0;
                assert(chat_views(out@) =~= as_chat(views).take(0));
                while i < pairs.len()
                    invariant
                        i <= pairs@.len(),
                        views == pair_views(pairs@),
                        chat_views(out@) == as_chat(views).take(i as int),
                    decreases pairs@.len() - i,
                {
                    let ghost before = chat_views(out@);
                    out.push(
                        ChatMessage { role: pairs[i].0.clone(), content: pairs[i].1.clone() },
                    );
                    assert(chat_views(out@) =~= before.push(as_chat(views)[i as int]));
                    assert(as_chat(views).take(i + 1) =~= as_chat(views).take(i as int).push(
                        as_chat(views)[i as int],
                    ));
                    i += 1;
                }
                assert(as_chat(views).take(i as int) =~= as_chat(views));
            },
            None => {
                assert(chat_views(out@) =~= Seq::<ChatView>::empty());
            },
        }
        out
    }

    /// Where a folder's conversation is stored.
    pub fn chat_path(&self, folder: &str) -> (r: String)
        ensures
            r@ == path_join(folder@, "chat.json"@),
    {
        join_path(folder, "chat.json")
    }

    /// The conversation without a session; it is stored beside the sessions.
    pub fn load_global_chat(&self, text: &Option<String>) -> (r: Vec<ChatMessage>)
        ensures
            chat_views(r@) == stored_chat(opt_text(*text)),
    {
        self.load_chat(text)
    }

    /// Newest-first list of the sessions with metadata.
    pub fn list_sessions(&self, entries: &[Entry]) -> (r: Vec<SessionSummary>)
        ensures
            summary_views(r@) == summaries_of(
                self.base_dir@,
                newest_first(entry_views(entries@)),
            ),
            forall|i: int|
                0 <= i < r@.len() ==> ((#[trigger] r@[i]).start_time matches Some(s)
                    ==> valid_stamp(s)),
    {
        let sorted = sort_entries(entries);
        let ghost list = sorted@.map_values(|x: &Entry| x@);
        let mut out: Vec<SessionSummary> = Vec::new();
        let mut i: usize = 0;
        assert(list.take(0) =~= Seq::<EntryView>::empty());
        assert(summary_views(out@) =~= Seq::<SummaryView>::empty());
        while i < sorted.len()
            invariant
                i <= sorted@.len(),
                list == sorted@.map_values(|x: &Entry| x@),
                summary_views(out@) == summaries_of(self.base_dir@, list.take(i as int)),
                forall|i: int|
                    0 <= i < out@.len() ==> ((#[trigger] out@[i]).start_time matches Some(s)
                        ==> valid_stamp(s)),
            decreases sorted@.len() - i,
        {
            assert(list.take(i + 1).drop_last() =~= list.take(i as int));
            assert(list.take(i + 1).last() == sorted@[i as int]@);
            let e = sorted[i];
            if let Some(t) = &e.metadata {
                if let Some(j) = read_json(t.as_str()) {
                    if let Json::Object(_) = &j {
                        let ghost before = summary_views(out@);
                        let s = read_summary(self.base_dir.as_str(), e.name.as_str(), &j);
                        let ghost v = s@;
                        out.push(s);
                        assert(summary_views(out@) =~= before.push(v));
                    }
                }
            }
            i += 1;
        }
        assert(list.take(i as int) =~= list);
        out
    }

    /// The text of a stored transcript.
    pub fn load_transcript(&self, text: Option<String>) -> (r: String)
        ensures
            r@ == (match opt_text(text) {
                Some(t) => t,
                None => "(transcript not available)"@,
            }),
    {
        match text {
            Some(t) => t,
            None => owned("(transcript not available)"),
        }
    }
}

// ---------------------------------------------------------------------------
// What is read back
// ---------------------------------------------------------------------------

/// An object with two texts, and one with the same members, read as the two.
proof fn lemma_pair_reads(
    w: JsonView,
    a: Seq<char>,
    b: Seq<char>,
    first: Seq<char>,
    second: Seq<char>,
)
    requires
        first != second,
        same_members(
            w,
            JsonView::Object(seq![(first, JsonView::Text(a)), (second, JsonView::Text(b))]),
        ),
    ensures
        text_pair(w, first, second) == Some((a, b)),
{
    let m = seq![(first, JsonView::Text(a)), (second, JsonView::Text(b))];
    lemma_member_index_is(m, first, 0);
    lemma_member_index_is(m, second, 1);
    assert(field_of(w, first) == field_of(JsonView::Object(m), first));
    assert(field_of(w, second) == field_of(JsonView::Object(m), second));
}

/// Pairs of texts as objects.
spec fn pair_items(
    pairs: Seq<(Seq<char>, Seq<char>)>,
    first: Seq<char>,
    second: Seq<char>,
) -> Seq<JsonView> {
    pairs.map_values(
        |p: (Seq<char>, Seq<char>)|
            JsonView::Object(seq![(first, JsonView::Text(p.0)), (second, JsonView::Text(p.1))]),
    )
}

proof fn lemma_pairs_read(
    items: Seq<JsonView>,
    pairs: Seq<(Seq<char>, Seq<char>)>,
    first: Seq<char>,
    second: Seq<char>,
)
    requires
        first != second,
        items.len() == pairs.len(),
        forall|i: int|
            0 <= i < items.len() ==> same_members(
                #[trigger] items[i],
                pair_items(pairs, first, second)[i],
            ),
    ensures
        text_pairs(items, first, second) == Some(pairs),
    decreases items.len(),
{
    if items.len() == 0 {
        assert(pairs =~= Seq::<(Seq<char>, Seq<char>)>::empty());
    } else {
        let front = pairs.drop_last();
        let before = items.drop_last();
        assert forall|i: int| 0 <= i < before.len() implies same_members(
            #[trigger] before[i],
            pair_items(front, first, second)[i],
        ) by {
            assert(before[i] == items[i]);
            assert(pair_items(front, first, second)[i] == pair_items(pairs, first, second)[i]);
        }
        lemma_pairs_read(before, front, first, second);
        let p = pairs.last();
        assert(same_members(items[items.len() - 1], pair_items(pairs, first, second)[items.len()
            - 1]));
        lemma_pair_reads(items.last(), p.0, p.1, first, second);
        assert(pairs =~= front.push(p));
    }
}

proof fn lemma_pairs_are_flat(
    pairs: Seq<(Seq<char>, Seq<char>)>,
    first: Seq<char>,
    second: Seq<char>,
)
    requires
        first != second,
    ensures
        is_flat(JsonView::Array(pair_items(pairs, first, second))),
{
}

/// A text that denotes a list of pairs, but for the order of members, lists the
/// pairs.
proof fn lemma_text_lists(
    text: Seq<char>,
    pairs: Seq<(Seq<char>, Seq<char>)>,
    first: Seq<char>,
    second: Seq<char>,
)
    requires
        first != second,
        reads_as(text, JsonView::Array(pair_items(pairs, first, second))),
    ensures
        listed_pairs(Some(text), first, second) == Some(pairs),
{
    let w = json_parsed(text)->0;
    lemma_pairs_read(w->Array_0, pairs, first, second);
}

proof fn lemma_chat_items(msgs: Seq<ChatView>)
    ensures
        "Role"@ != "Content"@,
        chat_json(msgs) == JsonView::Array(
            pair_items(msgs.map_values(|m: ChatView| (m.role, m.content)), "Role"@, "Content"@),
        ),
{
    reveal_strlit("Role");
    reveal_strlit("Content");
    assert("Role"@.len() != "Content"@.len());
    assert(chat_json(msgs)->Array_0 =~= pair_items(
        msgs.map_values(|m: ChatView| (m.role, m.content)),
        "Role"@,
        "Content"@,
    ));
}

proof fn lemma_chat_is_flat(msgs: Seq<ChatView>)
    ensures
        is_flat(chat_json(msgs)),
{
    lemma_chat_items(msgs);
    lemma_pairs_are_flat(
        msgs.map_values(|m: ChatView| (m.role, m.content)),
        "Role"@,
        "Content"@,
    );
}

/// A stored conversation reads back as it was, in whatever order its text gives
/// the members; a text that is no JSON, or no text at all, reads as empty.
pub proof fn chat_reads_back(text: Seq<char>, msgs: Seq<ChatView>)
    ensures
        reads_as(text, chat_json(msgs)) ==> stored_chat(Some(text)) == msgs,
        json_parsed(text) is None ==> stored_chat(Some(text)) == Seq::<ChatView>::empty(),
        stored_chat(None) == Seq::<ChatView>::empty(),
{
    let pairs = msgs.map_values(|m: ChatView| (m.role, m.content));
    lemma_chat_items(msgs);
    if reads_as(text, chat_json(msgs)) {
        lemma_text_lists(text, pairs, "Role"@, "Content"@);
        assert(as_chat(pairs) =~= msgs);
    }
}

proof fn lemma_template_items(ts: Seq<TemplateView>)
    ensures
        "name"@ != "prompt"@,
        templates_json(ts) == JsonView::Array(
            pair_items(ts.map_values(|t: TemplateView| (t.name, t.prompt)), "name"@, "prompt"@),
        ),
{
    reveal_strlit("name");
    reveal_strlit("prompt");
    assert("name"@.len() != "prompt"@.len());
    assert(templates_json(ts)->Array_0 =~= pair_items(
        ts.map_values(|t: TemplateView| (t.name, t.prompt)),
        "name"@,
        "prompt"@,
    ));
}

proof fn lemma_templates_are_flat(ts: Seq<TemplateView>)
    ensures
        is_flat(templates_json(ts)),
{
    lemma_template_items(ts);
    lemma_pairs_are_flat(
        ts.map_values(|t: TemplateView| (t.name, t.prompt)),
        "name"@,
        "prompt"@,
    );
}

/// Templates that were written read back as they were, in whatever order their
/// text gives the members.
pub proof fn templates_read_back(text: Seq<char>, ts: Seq<TemplateView>)
    requires
        reads_as(text, templates_json(ts)),
    ensures
        stored_templates(Some(text)) == Some(ts),
{
    let pairs = ts.map_values(|t: TemplateView| (t.name, t.prompt));
    lemma_template_items(ts);
    lemma_text_lists(text, pairs, "name"@, "prompt"@);
    assert(as_templates(pairs) =~= ts);
}

/// Whether a duration has so few digits that its notation is printed as it is.
pub open spec fn countable_millis(millis: int) -> bool {
    -1_000_000_000_000_000 < millis < 1_000_000_000_000_000
}

/// A session's metadata can be printed and read back.
proof fn lemma_metadata_is_flat(s: SessionView, now: Stamp)
    requires
        countable_millis(duration_of(s, now)),
        speakers_in(s.transcript.segments).len() <= u64::MAX,
    ensures
        is_flat(JsonView::Object(metadata_of(s, now))),
{
    let m = metadata_of(s, now);
    reveal_strlit("id");
    reveal_strlit("name");
    reveal_strlit("start_time");
    reveal_strlit("end_time");
    reveal_strlit("duration_secs");
    reveal_strlit("word_count");
    reveal_strlit("speaker_count");
    assert("id"@[0] == 'i' && "name"@[0] == 'n' && "start_time"@[0] == 's' && "end_time"@[0] == 'e'
        && "duration_secs"@[0] == 'd' && "word_count"@[0] == 'w' && "speaker_count"@[0] == 's');
    assert("start_time"@[1] == 't' && "speaker_count"@[1] == 'p');
    assert(plain_number(seconds_decimal(duration_of(s, now))));
    assert(plain_number(decimal(countable(words_in(s.transcript.segments)))));
    assert(plain_number(decimal(speakers_in(s.transcript.segments).len())));
    assert forall|i: int| 0 <= i < m.len() implies flat_member((#[trigger] m[i]).1) by {}
    assert forall|i: int, k: int| 0 <= i < k < m.len() implies (#[trigger] m[i]).0 != (
    #[trigger] m[k]).0 by {}
}

/// What the list shows of a session goes by the members of its metadata, in
/// whatever order they stand.
pub proof fn summaries_go_by_members(
    base_dir: Seq<char>,
    dir: Seq<char>,
    a: JsonView,
    b: JsonView,
)
    requires
        same_members(a, b),
    ensures
        summary_from(base_dir, dir, a) == summary_from(base_dir, dir, b),
{
    assert(same_member(field_of(a, "name"@), field_of(b, "name"@)));
    assert(same_member(field_of(a, "title"@), field_of(b, "title"@)));
    assert(same_member(field_of(a, "summary"@), field_of(b, "summary"@)));
    assert(same_member(field_of(a, "start_time"@), field_of(b, "start_time"@)));
    assert(same_member(field_of(a, "duration_secs"@), field_of(b, "duration_secs"@)));
    assert(same_member(field_of(a, "word_count"@), field_of(b, "word_count"@)));
    assert(same_member(field_of(a, "speaker_count"@), field_of(b, "speaker_count"@)));
}

proof fn lemma_text_is_listed(base_dir: Seq<char>, dir: Seq<char>, text: Seq<char>, meta: JsonView)
    requires
        reads_as(text, meta),
        meta is Object,
    ensures
        entry_summary(base_dir, EntryView { name: dir, metadata: Some(text) }) == Some(
            summary_from(base_dir, dir, meta),
        ),
{
    let w = json_parsed(text)->0;
    summaries_go_by_members(base_dir, dir, w, meta);
}

/// The metadata of a session keeps what it held when title and summary are set,
/// and the list then shows them, whatever text the metadata is read from.
pub proof fn titles_are_listed(
    base_dir: Seq<char>,
    dir: Seq<char>,
    members: Seq<(Seq<char>, JsonView)>,
    title: Seq<char>,
    summary: Seq<char>,
    text: Seq<char>,
)
    requires
        reads_as(text, JsonView::Object(titled(members, title, summary))),
    ensures
        entry_summary(base_dir, EntryView { name: dir, metadata: Some(text) }) == Some(
            SummaryView {
                title,
                summary,
                ..summary_from(base_dir, dir, JsonView::Object(members))
            },
        ),
{
    lemma_text_is_listed(base_dir, dir, text, JsonView::Object(titled(members, title, summary)));
    reveal_strlit("title");
    reveal_strlit("summary");
    reveal_strlit("name");
    reveal_strlit("start_time");
    reveal_strlit("duration_secs");
    reveal_strlit("word_count");
    reveal_strlit("speaker_count");
    let one = with_member(members, "title"@, JsonView::Text(title));
    let two = titled(members, title, summary);
    setting_keeps_others(members, "title"@, JsonView::Text(title));
    setting_keeps_others(one, "summary"@, JsonView::Text(summary));
    assert forall|k: Seq<char>|
        k == "name"@ || k == "start_time"@ || k == "duration_secs"@ || k == "word_count"@ || k
            == "speaker_count"@ implies #[trigger] field_of(JsonView::Object(two), k) == field_of(
        JsonView::Object(members),
        k,
    ) by {
        assert(k != "title"@) by {
            assert("title"@[0] == 't');
            assert("name"@[0] == 'n' && "duration_secs"@[0] == 'd' && "word_count"@[0] == 'w');
            assert("start_time"@[0] == 's' && "speaker_count"@[0] == 's');
        }
        assert(k != "summary"@) by {
            assert("summary"@[0] == 's' && "summary"@[1] == 'u');
            assert("name"@[0] == 'n' && "duration_secs"@[0] == 'd' && "word_count"@[0] == 'w');
            assert("start_time"@[1] == 't' && "speaker_count"@[1] == 'p');
        }
        assert(field_of(JsonView::Object(two), k) == field_of(JsonView::Object(one), k));
    }
    assert("title"@ != "summary"@) by {
        assert("title"@[0] != "summary"@[0]);
    }
    assert(field_of(JsonView::Object(two), "title"@) == field_of(JsonView::Object(one), "title"@));
}

/// Whether no speaker has two names.
pub open spec fn distinct_speakers(names: Seq<(Seq<char>, Seq<char>)>) -> bool {
    forall|i: int, k: int|
        0 <= i < k < names.len() ==> (#[trigger] names[i]).0 != (#[trigger] names[k]).0
}

proof fn lemma_member_stays_flat(
    members: Seq<(Seq<char>, JsonView)>,
    key: Seq<char>,
    value: JsonView,
)
    requires
        is_flat(JsonView::Object(members)),
        flat_member(value),
    ensures
        is_flat(JsonView::Object(with_member(members, key, value))),
{
    let set = with_member(members, key, value);
    lemma_member_index(members, key);
    assert forall|i: int, k: int| 0 <= i < k < set.len() implies (#[trigger] set[i]).0 != (
    #[trigger] set[k]).0 by {
        assert(i < members.len());
        assert(members[i].0 != key || i == member_index(members, key));
    }
    assert forall|i: int| 0 <= i < set.len() implies flat_member((#[trigger] set[i]).1) by {
        if i < members.len() {
            assert(flat_member(members[i].1));
        }
    }
}

proof fn lemma_name_member(names: Seq<(Seq<char>, Seq<char>)>, speaker: Seq<char>)
    ensures
        text_field(names_json(names), speaker) == name_for(names, speaker),
    decreases names.len(),
{
    let members = names_json(names)->Object_0;
    if names.len() > 0 && names[0].0 != speaker {
        lemma_name_member(names.drop_first(), speaker);
        assert(names_json(names.drop_first())->Object_0 =~= members.drop_first());
        lemma_member_index(members.drop_first(), speaker);
    }
}

/// The metadata of a session keeps what the list shows of it when the names of
/// its speakers are set, and each name stands under its speaker, whatever text
/// the metadata is read from.
pub proof fn names_leave_the_listing(
    base_dir: Seq<char>,
    dir: Seq<char>,
    members: Seq<(Seq<char>, JsonView)>,
    names: Seq<(Seq<char>, Seq<char>)>,
    text: Seq<char>,
)
    requires
        reads_as(text, JsonView::Object(named(members, names))),
    ensures
        entry_summary(base_dir, EntryView { name: dir, metadata: Some(text) }) == Some(
            summary_from(base_dir, dir, JsonView::Object(members)),
        ),
        ({
            let kept = field_of(json_parsed(text)->0, "speaker_names"@);
            kept is Some && forall|speaker: Seq<char>| #[trigger]
                text_field(kept->0, speaker) == name_for(names, speaker)
        }),
{
    let meta = JsonView::Object(named(members, names));
    lemma_text_is_listed(base_dir, dir, text, meta);
    reveal_strlit("title");
    reveal_strlit("summary");
    reveal_strlit("name");
    reveal_strlit("start_time");
    reveal_strlit("duration_secs");
    reveal_strlit("word_count");
    reveal_strlit("speaker_count");
    reveal_strlit("speaker_names");
    setting_keeps_others(members, "speaker_names"@, names_json(names));
    assert("speaker_names"@[8] == 'n' && "speaker_count"@[8] == 'c');
    assert forall|k: Seq<char>|
        k == "name"@ || k == "title"@ || k == "summary"@ || k == "start_time"@ || k
            == "duration_secs"@ || k == "word_count"@ || k == "speaker_count"@ implies #[trigger]
    field_of(meta, k) == field_of(JsonView::Object(members), k) by {
        assert(k[0] != 's' || k.len() != 13 || k[8] == 'c');
    }
    let w = json_parsed(text)->0;
    assert(same_member(field_of(w, "speaker_names"@), field_of(meta, "speaker_names"@)));
    let kept = field_of(w, "speaker_names"@);
    assert forall|speaker: Seq<char>| #[trigger] text_field(kept->0, speaker) == name_for(
        names,
        speaker,
    ) by {
        assert(field_of(kept->0, speaker) == field_of(names_json(names), speaker));
        lemma_name_member(names, speaker);
    }
}

/// Setting title and summary, or the names of the speakers, keeps metadata such
/// that its text reads back.
pub proof fn metadata_stays_flat(
    members: Seq<(Seq<char>, JsonView)>,
    title: Seq<char>,
    summary: Seq<char>,
    names: Seq<(Seq<char>, Seq<char>)>,
)
    requires
        is_flat(JsonView::Object(members)),
    ensures
        is_flat(JsonView::Object(titled(members, title, summary))),
        distinct_speakers(names) ==> is_flat(JsonView::Object(named(members, names))),
{
    lemma_member_stays_flat(members, "title"@, JsonView::Text(title));
    lemma_member_stays_flat(
        with_member(members, "title"@, JsonView::Text(title)),
        "summary"@,
        JsonView::Text(summary),
    );
    if distinct_speakers(names) {
        lemma_member_stays_flat(members, "speaker_names"@, names_json(names));
    }
}

/// Whether no entry's name comes before the name of one behind it.
pub open spec fn names_fall(list: Seq<EntryView>) -> bool {
    forall|i: int, j: int|
        0 <= i < j < list.len() ==> !text_before(
            (#[trigger] list[i]).name,
            (#[trigger] list[j]).name,
        )
}

proof fn lemma_before_transitive(a: Seq<char>, b: Seq<char>, c: Seq<char>)
    requires
        !text_before(a, b),
        !text_before(b, c),
    ensures
        !text_before(a, c),
    decreases a.len(),
{
    if c.len() > 0 && a.len() > 0 && b.len() > 0 && a[0] == c[0] && a[0] == b[0] {
        lemma_before_transitive(a.drop_first(), b.drop_first(), c.drop_first());
    }
}

proof fn lemma_before_total(a: Seq<char>, b: Seq<char>)
    requires
        text_before(a, b),
    ensures
        !text_before(b, a),
    decreases a.len(),
{
    if a.len() > 0 && b.len() > 0 && a[0] == b[0] {
        lemma_before_total(a.drop_first(), b.drop_first());
    }
}

proof fn lemma_placed(list: Seq<EntryView>, e: EntryView)
    requires
        names_fall(list),
    ensures
        names_fall(placed(list, e)),
        placed(list, e).to_multiset() == list.to_multiset().insert(e),
        forall|x: Seq<char>|
            (forall|i: int| 0 <= i < list.len() ==> !text_before((#[trigger] list[i]).name, x))
                && !text_before(e.name, x) ==> (forall|i: int|
                0 <= i < placed(list, e).len() ==> !text_before(
                    (#[trigger] placed(list, e)[i]).name,
                    x,
                )),
    decreases list.len(),
{
    broadcast use vstd::seq_lib::group_to_multiset_ensures;

    let r = placed(list, e);
    if list.len() == 0 || !text_before(list.last().name, e.name) {
        assert forall|i: int, j: int| 0 <= i < j < r.len() implies !text_before(
            (#[trigger] r[i]).name,
            (#[trigger] r[j]).name,
        ) by {
            if j == list.len() && i < list.len() - 1 {
                assert(!text_before(list[i].name, list[list.len() - 1].name));
                lemma_before_transitive(list[i].name, list.last().name, e.name);
            }
        }
    } else {
        let front = list.drop_last();
        let last = list.last();
        assert(names_fall(front)) by {
            assert forall|i: int, j: int| 0 <= i < j < front.len() implies !text_before(
                (#[trigger] front[i]).name,
                (#[trigger] front[j]).name,
            ) by {
                assert(!text_before(list[i].name, list[j].name));
            }
        }
        lemma_placed(front, e);
        lemma_before_total(last.name, e.name);
        let p = placed(front, e);
        assert forall|i: int| 0 <= i < front.len() implies !text_before(
            (#[trigger] front[i]).name,
            last.name,
        ) by {
            assert(!text_before(list[i].name, list[list.len() - 1].name));
        }
        assert(list =~= front.push(last));
        assert forall|i: int, j: int| 0 <= i < j < r.len() implies !text_before(
            (#[trigger] r[i]).name,
            (#[trigger] r[j]).name,
        ) by {
            if j < p.len() {
                assert(!text_before(p[i].name, p[j].name));
            } else {
                assert(!text_before(p[i].name, last.name));
            }
        }
        assert forall|x: Seq<char>|
            (forall|i: int| 0 <= i < list.len() ==> !text_before((#[trigger] list[i]).name, x))
                && !text_before(e.name, x) implies (forall|i: int|
            0 <= i < r.len() ==> !text_before((#[trigger] r[i]).name, x)) by {
            assert forall|i: int| 0 <= i < front.len() implies !text_before(
                (#[trigger] front[i]).name,
                x,
            ) by {
                assert(!text_before(list[i].name, x));
            }
            assert(!text_before(list[list.len() - 1].name, x));
        }
        assert(r.to_multiset() =~= list.to_multiset().insert(e));
    }
}

/// The list holds every entry once, the last name first.
pub proof fn list_is_newest_first(list: Seq<EntryView>)
    ensures
        names_fall(newest_first(list)),
        newest_first(list).to_multiset() == list.to_multiset(),
    decreases list.len(),
{
    broadcast use vstd::seq_lib::group_to_multiset_ensures;

    if list.len() > 0 {
        list_is_newest_first(list.drop_last());
        lemma_placed(newest_first(list.drop_last()), list.last());
        assert(list =~= list.drop_last().push(list.last()));
    }
}

/// Ten to the power of a number.
spec fn ten_to(n: nat) -> nat
    decreases n,
{
    if n == 0 {
        1
    } else {
        10 * ten_to((n - 1) as nat)
    }
}

proof fn lemma_value_with_zeros(d: Seq<char>, n: nat)
    ensures
        digits_value(d + Seq::new(n, |i: int| '0')) == digits_value(d) * ten_to(n),
    decreases n,
{
    let all = d + Seq::new(n, |i: int| '0');
    if n == 0 {
        assert(all =~= d);
        assert(digits_value(d) * ten_to(n) == digits_value(d)) by (nonlinear_arith)
            requires
                ten_to(n) == 1,
        ;
    } else {
        let fewer = d + Seq::new((n - 1) as nat, |i: int| '0');
        lemma_value_with_zeros(d, (n - 1) as nat);
        assert(all.drop_last() =~= fewer);
        assert(all.last() == '0');
        assert(digits_value(d) * ten_to((n - 1) as nat) * 10 == digits_value(d) * ten_to(n))
            by (nonlinear_arith)
            requires
                ten_to(n) == 10 * ten_to((n - 1) as nat),
        ;
    }
}

proof fn lemma_value_push(d: Seq<char>, c: char)
    requires
        is_digit(c),
    ensures
        digits_value(d.push(c)) == digits_value(d) * 10 + digit_value(c),
{
    assert(d.push(c).drop_last() =~= d);
}

/// The whole and the fraction of a duration's notation are worth the duration.
proof fn lemma_seconds_value(m: nat)
    ensures
        ({
            let digits = decimal(m / 1000) + fraction_digits(m % 1000);
            let places = 6 - fraction_digits(m % 1000).len();
            &&& all_digits(digits)
            &&& digits.len() > 0
            &&& digits_value(point_moved(digits, places)) == m * 1000
        }),
{
    let q = m / 1000;
    let f = m % 1000;
    let w = decimal(q);
    let t = fraction_digits(f);
    decimal_round_trip(q);
    let a = digit((f / 100) as int);
    let b = digit((f / 10 % 10) as int);
    let c = digit((f % 10) as int);
    assert(is_digit(a) && is_digit(b) && is_digit(c));
    lemma_value_push(w, a);
    lemma_value_push(w.push(a), b);
    lemma_value_push(w.push(a).push(b), c);
    let digits = w + t;
    assert forall|i: int| 0 <= i < digits.len() implies is_digit(digits[i]) by {
        if i < w.len() {
            assert(is_digit(w[i]));
        }
    }
    reveal_with_fuel(ten_to, 6);
    assert(ten_to(3) == 1000 && ten_to(4) == 10_000 && ten_to(5) == 100_000);
    let n: nat = (6 - t.len()) as nat;
    lemma_value_with_zeros(digits, n);
    assert(point_moved(digits, 6 - t.len()) =~= digits + Seq::new(n, |i: int| '0'));
    if t.len() == 1 {
        assert(digits =~= w.push(a));
        assert(digits_value(digits) == q * 10 + f / 100);
        assert(digits_value(digits) * ten_to(n) == digits_value(digits) * 100_000) by (nonlinear_arith)
            requires
                ten_to(n) == 100_000,
        ;
    } else if t.len() == 2 {
        assert(digits =~= w.push(a).push(b));
        assert(digits_value(digits) == q * 100 + f / 10);
        assert(digits_value(digits) * ten_to(n) == digits_value(digits) * 10_000) by (nonlinear_arith)
            requires
                ten_to(n) == 10_000,
        ;
    } else {
        assert(digits =~= w.push(a).push(b).push(c));
        assert(digits_value(digits) == q * 1000 + f);
        assert(digits_value(digits) * ten_to(n) == digits_value(digits) * 1000) by (nonlinear_arith)
            requires
                ten_to(n) == 1000,
        ;
    }
}

/// A duration's notation reads back as the duration, in microseconds.
pub proof fn durations_read_back(millis: int)
    ensures
        scaled(seconds_decimal(millis), 6) == Some(
            if millis < 0 {
                -at_most_max(((-millis) * 1000) as nat)
            } else {
                at_most_max((millis * 1000) as nat)
            },
        ),
{
    let m: nat = if millis < 0 {
        (-millis) as nat
    } else {
        millis as nat
    };
    let s = seconds_decimal(millis);
    let w = decimal(m / 1000);
    let t = fraction_digits(m % 1000);
    let body = w + seq!['.'] + t;
    decimal_round_trip(m / 1000);
    lemma_seconds_value(m);
    let digits = w + t;
    if millis < 0 {
        assert(s.skip(1) =~= body);
    } else {
        assert(s =~= body);
        assert(is_digit(w[0]));
    }
    let e = first_index(body, 'e');
    lemma_index_from(body, 'e', 0);
    assert(e == body.len()) by {
        if e < body.len() {
            if e < w.len() {
                assert(is_digit(w[e]));
            } else if e > w.len() {
                assert(digits[e - 1] == body[e]);
                assert(is_digit(digits[e - 1]));
            }
        }
    }
    assert(body.take(e) =~= body);
    let d = first_index(body, '.');
    lemma_index_from(body, '.', 0);
    assert(body[w.len() as int] == '.');
    assert(d == w.len()) by {
        if d < w.len() {
            assert(is_digit(w[d]));
        }
    }
    assert(body.take(d) =~= w);
    assert(body.skip(d + 1) =~= t);
    let p = decimal_parts(s);
    assert(p.whole == w && p.fraction == t && p.exponent == Some(0int));
    assert(p.negative == (millis < 0));
}

/// What the list shows of a session that was saved, by the text of its metadata:
/// its name, its start as far as its text holds it, and its duration and counts.
pub proof fn saved_sessions_are_listed(
    base_dir: Seq<char>,
    dir: Seq<char>,
    s: SessionView,
    now: Stamp,
    text: Seq<char>,
)
    requires
        speakers_in(s.transcript.segments).len() <= u64::MAX,
        reads_as(text, JsonView::Object(metadata_of(s, now))),
    ensures
        ({
            let entry = entry_summary(base_dir, EntryView { name: dir, metadata: Some(text) });
            let shown = entry->0;
            let d = duration_of(s, now);
            &&& entry is Some
            &&& shown.folder == path_join(base_dir, dir)
            &&& shown.name == (if s.name.len() == 0 {
                dir
            } else {
                s.name
            })
            &&& shown.title.len() == 0
            &&& shown.summary.len() == 0
            &&& shown.start_time == rfc3339_read(rfc3339_text(s.start_time))
            &&& shown.duration == (if d < 0 {
                -at_most_max(((-d) * 1000) as nat)
            } else {
                at_most_max((d * 1000) as nat)
            })
            &&& shown.word_count == countable(words_in(s.transcript.segments))
            &&& shown.speaker_count == speakers_in(s.transcript.segments).len()
        }),
{
    let m = metadata_of(s, now);
    lemma_text_is_listed(base_dir, dir, text, JsonView::Object(m));
    reveal_strlit("id");
    reveal_strlit("name");
    reveal_strlit("start_time");
    reveal_strlit("end_time");
    reveal_strlit("duration_secs");
    reveal_strlit("word_count");
    reveal_strlit("speaker_count");
    reveal_strlit("title");
    reveal_strlit("summary");
    assert("id"@[0] == 'i' && "name"@[0] == 'n' && "start_time"@[0] == 's' && "end_time"@[0] == 'e'
        && "duration_secs"@[0] == 'd' && "word_count"@[0] == 'w' && "speaker_count"@[0] == 's'
        && "title"@[0] == 't' && "summary"@[0] == 's');
    assert("start_time"@[1] == 't' && "speaker_count"@[1] == 'p' && "summary"@[1] == 'u');
    lemma_member_index_is(m, "name"@, 1);
    lemma_member_index_is(m, "start_time"@, 2);
    lemma_member_index_is(m, "duration_secs"@, 4);
    lemma_member_index_is(m, "word_count"@, 5);
    lemma_member_index_is(m, "speaker_count"@, 6);
    lemma_member_index_is(m, "title"@, 7);
    lemma_member_index_is(m, "summary"@, 7);
    durations_read_back(duration_of(s, now));
    decimal_round_trip(countable(words_in(s.transcript.segments)));
    decimal_round_trip(speakers_in(s.transcript.segments).len());
}

// ---------------------------------------------------------------------------
// What is renamed and what is listed
// ---------------------------------------------------------------------------

proof fn lemma_name_found(names: Seq<(Seq<char>, Seq<char>)>, speaker: Seq<char>, k: int)
    ensures
        0 <= k < names.len() && names[k].0 == speaker && distinct_speakers(names) ==> name_for(
            names,
            speaker,
        ) == Some(names[k].1),
        (forall|i: int| 0 <= i < names.len() ==> (#[trigger] names[i]).0 != speaker) <==> name_for(
            names,
            speaker,
        ) is None,
    decreases names.len(),
{
    if names.len() > 0 {
        let rest = names.drop_first();
        lemma_name_found(rest, speaker, k - 1);
        if distinct_speakers(names) {
            assert forall|i: int, j: int| 0 <= i < j < rest.len() implies (#[trigger] rest[i]).0
                != (#[trigger] rest[j]).0 by {
                assert(names[i + 1].0 != names[j + 1].0);
            }
            if 0 < k < names.len() {
                assert(names[0].0 != names[k].0);
                assert(rest[k - 1] == names[k]);
            }
        }
        if names[0].0 != speaker {
            if forall|i: int| 0 <= i < names.len() ==> (#[trigger] names[i]).0 != speaker {
                assert forall|i: int| 0 <= i < rest.len() implies (#[trigger] rest[i]).0
                    != speaker by {
                    assert(rest[i] == names[i + 1]);
                }
            }
            if name_for(names, speaker) is None {
                assert forall|i: int| 0 <= i < names.len() implies (#[trigger] names[i]).0
                    != speaker by {
                    if i > 0 {
                        assert(rest[i - 1] == names[i]);
                    }
                }
            }
        }
    }
}

/// A speaker who is given a name has that name in each of their segments; other
/// speakers keep theirs; and nothing else of a segment changes.
pub proof fn renaming_names_the_listed_speakers(
    names: Seq<(Seq<char>, Seq<char>)>,
    seg: SegmentView,
    k: int,
)
    requires
        distinct_speakers(names),
    ensures
        0 <= k < names.len() && names[k].0 == seg.speaker ==> renamed(names, seg).speaker
            == names[k].1,
        (forall|i: int| 0 <= i < names.len() ==> (#[trigger] names[i]).0 != seg.speaker) ==> renamed(
            names,
            seg,
        ) == seg,
        renamed(names, seg).text == seg.text,
        renamed(names, seg).start_time == seg.start_time,
        renamed(names, seg).end_time == seg.end_time,
        renamed(names, seg).confidence == seg.confidence,
        renamed(names, seg).is_final == seg.is_final,
        renamed(names, seg).created_at == seg.created_at,
{
    lemma_name_found(names, seg.speaker, k);
}

/// As many segments are told to be renamed as have a speaker who is given a name.
pub proof fn renamed_segments_are_counted(
    names: Seq<(Seq<char>, Seq<char>)>,
    segs: Seq<SegmentView>,
)
    ensures
        renamed_count(names, segs) == segs.filter(
            |s: SegmentView|
                exists|k: int| 0 <= k < names.len() && (#[trigger] names[k]).0 == s.speaker,
        ).len(),
    decreases segs.len(),
{
    reveal(Seq::filter);
    if segs.len() > 0 {
        renamed_segments_are_counted(names, segs.drop_last());
        lemma_name_found(names, segs.last().speaker, 0);
    }
}

/// The document of a session has the title as its heading and the summary below.
pub proof fn documents_have_title_and_summary(title: Seq<char>, summary: Seq<char>)
    ensures
        summary_document(title, summary) == seq!['#', ' '] + title + seq!['\n', '\n'] + summary
            + seq!['\n'],
{
    reveal_strlit("# ");
    reveal_strlit("\n\n");
    reveal_strlit("\n");
    assert("# "@ =~= seq!['#', ' ']);
    assert("\n\n"@ =~= seq!['\n', '\n']);
    assert("\n"@ =~= seq!['\n']);
}

/// Names are compared like words in a dictionary: by the first character in
/// which they differ; and one that another begins with comes before it.
pub proof fn names_are_compared_like_words(
    front: Seq<char>,
    a: char,
    b: char,
    x: Seq<char>,
    y: Seq<char>,
)
    requires
        a != b,
    ensures
        text_before(front + seq![a] + x, front + seq![b] + y) <==> a < b,
        text_before(front, front + seq![a] + x),
        !text_before(front + seq![a] + x, front),
        !text_before(front, front),
    decreases front.len(),
{
    let p = front + seq![a] + x;
    let q = front + seq![b] + y;
    if front.len() > 0 {
        let rest = front.drop_first();
        names_are_compared_like_words(rest, a, b, x, y);
        assert(p.drop_first() =~= rest + seq![a] + x);
        assert(q.drop_first() =~= rest + seq![b] + y);
        assert(p[0] == front[0] && q[0] == front[0]);
    } else {
        assert(p[0] == a && q[0] == b);
    }
}

/// The list shows each directory that holds readable metadata, in order, and no
/// other; metadata is readable where it is a JSON object.
pub proof fn every_readable_session_is_listed(base_dir: Seq<char>, list: Seq<EntryView>, e: EntryView)
    ensures
        summaries_of(base_dir, list) == list.filter_map(
            |e: EntryView| entry_summary(base_dir, e),
        ),
        entry_summary(base_dir, e) is Some <==> e.metadata is Some && json_parsed(e.metadata->0)
            is Some && json_parsed(e.metadata->0)->0 is Object,
        entry_summary(base_dir, e) matches Some(s) ==> s.folder == path_join(base_dir, e.name),
    decreases list.len(),
{
    if list.len() > 0 {
        let f = |e: EntryView| entry_summary(base_dir, e);
        every_readable_session_is_listed(base_dir, list.drop_last(), e);
        assert(summaries_of(base_dir, list) =~= list.filter_map(f));
    }
}

proof fn lemma_listed(pairs: Seq<(Seq<char>, Seq<char>)>, first: Seq<char>, second: Seq<char>)
    ensures
        text_pairs(as_lists(pairs), first, second) == Some(pairs),
    decreases pairs.len(),
{
    let items = as_lists(pairs);
    if pairs.len() == 0 {
        assert(pairs =~= Seq::empty());
    } else {
        lemma_listed(pairs.drop_last(), first, second);
        assert(items.drop_last() =~= as_lists(pairs.drop_last()));
        assert(pairs.drop_last().push(pairs.last()) =~= pairs);
    }
}

proof fn lemma_no_pair(items: Seq<JsonView>, first: Seq<char>, second: Seq<char>, i: int)
    requires
        0 <= i < items.len(),
        text_pair(items[i], first, second) is None,
    ensures
        text_pairs(items, first, second) is None,
    decreases items.len(),
{
    if i < items.len() - 1 {
        lemma_no_pair(items.drop_last(), first, second, i);
    }
}

/// Pairs of texts as lists of two.
pub open spec fn as_lists(pairs: Seq<(Seq<char>, Seq<char>)>) -> Seq<JsonView> {
    pairs.map_values(
        |p: (Seq<char>, Seq<char>)|
            JsonView::Array(seq![JsonView::Text(p.0), JsonView::Text(p.1)]),
    )
}

/// A stored turn may also be a list of two texts, the role and the content. One
/// turn that is neither that nor an object makes the conversation unreadable.
pub proof fn turns_may_be_lists(
    text: Seq<char>,
    pairs: Seq<(Seq<char>, Seq<char>)>,
    items: Seq<JsonView>,
    i: int,
)
    requires
        0 <= i < items.len(),
    ensures
        json_parsed(text) == Some(JsonView::Array(as_lists(pairs))) ==> {
            let chat = stored_chat(Some(text));
            &&& chat.len() == pairs.len()
            &&& forall|k: int|
                0 <= k < chat.len() ==> (#[trigger] chat[k]).role == pairs[k].0 && chat[k].content
                    == pairs[k].1
        },
        json_parsed(text) == Some(JsonView::Array(items)) && items[i] !is Object && !(items[i]
            is Array && items[i]->Array_0.len() == 2) ==> stored_chat(Some(text)).len() == 0,
{
    lemma_listed(pairs, "Role"@, "Content"@);
    if text_pair(items[i], "Role"@, "Content"@) is None {
        lemma_no_pair(items, "Role"@, "Content"@, i);
    }
}

} // verus!

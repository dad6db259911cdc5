//! Words as a provider returns them, grouped into one segment for each
//! utterance.

use super::{
    channel_label, channel_speaker, lettered, segment_views, speaker_letter, Segment, SegmentView,
};
use crate::text::{join, joined, owned, same, texts};
use crate::time::Stamp;
use vstd::prelude::*;

verus! {

broadcast use vstd::string::group_string_axioms;

/// A word of a reply; its times are in microseconds. What stands between words
/// has a kind of its own.
#[derive(Debug)]
pub struct ElWord {
    pub text: String,
    pub kind: String,
    pub start: i64,
    pub end: i64,
    pub speaker_id: String,
}

/// The contents of an [`ElWord`].
pub struct WordView {
    pub text: Seq<char>,
    pub kind: Seq<char>,
    pub start: int,
    pub end: int,
    pub speaker_id: Seq<char>,
}

impl View for ElWord {
    type V = WordView;

    open spec fn view(&self) -> WordView {
        WordView {
            text: self.text@,
            kind: self.kind@,
            start: self.start as int,
            end: self.end as int,
            speaker_id: self.speaker_id@,
        }
    }
}

/// A reply: the whole text, and its words.
#[derive(Debug)]
pub struct ElevenLabsResponse {
    pub text: String,
    pub words: Vec<ElWord>,
}

/// The contents of a list of words.
pub open spec fn word_views(words: Seq<ElWord>) -> Seq<WordView> {
    words.map_values(|w: ElWord| w@)
}

/// The contents of a list of references to words.
pub open spec fn ref_views(words: Seq<&ElWord>) -> Seq<WordView> {
    words.map_values(|w: &ElWord| w@)
}

/// The longest silence within one speaker's utterance, in microseconds.
pub const MAX_UTTERANCE_GAP: i64 = 2_000_000;

/// The words proper, without what stands between them.
pub open spec fn spoken(words: Seq<WordView>) -> Seq<WordView>
    decreases words.len(),
{
    if words.len() == 0 {
        seq![]
    } else if words.last().kind == "word"@ {
        spoken(words.drop_last()).push(words.last())
    } else {
        spoken(words.drop_last())
    }
}

/// Whether an utterance ends between two words: where speakers are told apart
/// by channel, after a long silence; else where the speaker changes.
pub open spec fn breaks(multichannel: bool, prev: WordView, next: WordView) -> bool {
    if multichannel {
        next.start - prev.end > MAX_UTTERANCE_GAP
    } else {
        prev.speaker_id != next.speaker_id
    }
}

/// The words in utterances.
pub open spec fn groups(words: Seq<WordView>, multichannel: bool) -> Seq<Seq<WordView>>
    decreases words.len(),
{
    if words.len() == 0 {
        seq![]
    } else {
        let g = groups(words.drop_last(), multichannel);
        if g.len() > 0 && !breaks(multichannel, g.last().last(), words.last()) {
            g.drop_last().push(g.last().push(words.last()))
        } else {
            g.push(seq![words.last()])
        }
    }
}

/// The texts of a list of words.
pub open spec fn word_texts(words: Seq<WordView>) -> Seq<Seq<char>> {
    words.map_values(|w: WordView| w.text)
}

/// The speaker of an utterance.
pub open spec fn label_of(speaker_id: Seq<char>, multichannel: bool) -> Seq<char> {
    if multichannel {
        channel_label(speaker_id)
    } else {
        lettered(speaker_id, 'A')
    }
}

/// The segment of an utterance: its words with blanks between them, from the
/// start of the first to the end of the last.
pub open spec fn utterance(group: Seq<WordView>, multichannel: bool, now: Stamp) -> SegmentView {
    SegmentView {
        text: joined(word_texts(group), " "@),
        speaker: label_of(group[0].speaker_id, multichannel),
        start_time: group[0].start,
        end_time: group.last().end,
        confidence: 1_000_000,
        is_final: true,
        created_at: now,
    }
}

/// The segments of a list of words, one for each utterance.
pub open spec fn utterances(words: Seq<WordView>, multichannel: bool, now: Stamp) -> Seq<
    SegmentView,
> {
    groups(words, multichannel).map_values(|g: Seq<WordView>| utterance(g, multichannel, now))
}

/// The speakers of a list of words, each once, in order of appearance.
pub open spec fn speaker_ids(words: Seq<WordView>) -> Seq<Seq<char>>
    decreases words.len(),
{
    if words.len() == 0 {
        seq![]
    } else {
        let before = speaker_ids(words.drop_last());
        if before.contains(words.last().speaker_id) {
            before
        } else {
            before.push(words.last().speaker_id)
        }
    }
}

/// The words of one speaker.
pub open spec fn of_speaker(words: Seq<WordView>, id: Seq<char>) -> Seq<WordView>
    decreases words.len(),
{
    if words.len() == 0 {
        seq![]
    } else if words.last().speaker_id == id {
        of_speaker(words.drop_last(), id).push(words.last())
    } else {
        of_speaker(words.drop_last(), id)
    }
}

/// The utterances of the speakers, one speaker after the other.
pub open spec fn by_speaker(words: Seq<WordView>, ids: Seq<Seq<char>>, now: Stamp) -> Seq<
    SegmentView,
>
    decreases ids.len(),
{
    if ids.len() == 0 {
        seq![]
    } else {
        by_speaker(words, ids.drop_last(), now) + utterances(
            of_speaker(words, ids.last()),
            true,
            now,
        )
    }
}

/// Puts a segment behind all those that do not start later.
pub open spec fn inserted(list: Seq<SegmentView>, seg: SegmentView) -> Seq<SegmentView>
    decreases list.len(),
{
    if list.len() == 0 || list.last().start_time <= seg.start_time {
        list.push(seg)
    } else {
        inserted(list.drop_last(), seg).push(list.last())
    }
}

/// Segments by their start; those that start together stay in order.
pub open spec fn by_start(list: Seq<SegmentView>) -> Seq<SegmentView>
    decreases list.len(),
{
    if list.len() == 0 {
        seq![]
    } else {
        inserted(by_start(list.drop_last()), list.last())
    }
}

/// What is made of a reply without words: its text, if it has any.
pub open spec fn whole_text(text: Seq<char>, now: Stamp) -> Seq<SegmentView> {
    if text.len() == 0 {
        seq![]
    } else {
        seq![
            SegmentView {
                text,
                speaker: "A"@,
                start_time: 0,
                end_time: 0,
                confidence: 1_000_000,
                is_final: true,
                created_at: now,
            },
        ]
    }
}

/// The segments of a reply.
pub open spec fn reply_segments(
    text: Seq<char>,
    words: Seq<WordView>,
    multichannel: bool,
    now: Stamp,
) -> Seq<SegmentView> {
    let ws = spoken(words);
    if multichannel {
        by_start(by_speaker(ws, speaker_ids(ws), now))
    } else if ws.len() == 0 {
        whole_text(text, now)
    } else {
        utterances(ws, false, now)
    }
}

// ---------------------------------------------------------------------------
// Grouping
// ---------------------------------------------------------------------------

proof fn lemma_groups_full(words: Seq<WordView>, multichannel: bool)
    ensures
        words.len() > 0 ==> groups(words, multichannel).len() > 0,
        forall|k: int|
            0 <= k < groups(words, multichannel).len() ==> (#[trigger] groups(
                words,
                multichannel,
            )[k]).len() > 0,
        words.len() > 0 ==> groups(words, multichannel).last().last() == words.last(),
    decreases words.len(),
{
    if words.len() > 0 {
        let g = groups(words.drop_last(), multichannel);
        let now = groups(words, multichannel);
        lemma_groups_full(words.drop_last(), multichannel);
        assert forall|k: int| 0 <= k < now.len() implies (#[trigger] now[k]).len() > 0 by {
            if k < now.len() - 1 {
                assert(g[k].len() > 0);
            }
        }
    }
}

fn spoken_words<'a>(words: &'a [ElWord]) -> (r: Vec<&'a ElWord>)
    ensures
        ref_views(r@) == spoken(word_views(words@)),
{
    let ghost ws = word_views(words@);
    let mut out: Vec<&'a ElWord> = Vec::new();
    let mut i: usize = 0;
    assert(ws.take(0) =~= Seq::<WordView>::empty());
    assert(ref_views(out@) =~= Seq::<WordView>::empty());
    while i < words.len()
        invariant
            i <= words@.len(),
            ws == word_views(words@),
            ref_views(out@) == spoken(ws.take(i as int)),
        decreases words@.len() - i,
    {
        assert(ws.take(i + 1).drop_last() =~= ws.take(i as int));
        assert(ws.take(i + 1).last() == words@[i as int]@);
        if same(words[i].kind.as_str(), "word") {
            let ghost before = ref_views(out@);
            out.push(&words[i]);
            assert(ref_views(out@) =~= before.push(words@[i as int]@));
        }
        i += 1;
    }
    assert(ws.take(i as int) =~= ws);
    out
}

fn close_group(group: &Vec<&ElWord>, multichannel: bool, now: Stamp) -> (r: Segment)
    requires
        group@.len() > 0,
    ensures
        r@ == utterance(ref_views(group@), multichannel, now),
{
    let ghost g = ref_views(group@);
    let mut parts: Vec<String> = Vec::new();
    let mut i: usize = 0;
    assert(texts(parts@) =~= word_texts(g.take(0)));
    while i < group.len()
        invariant
            i <= group@.len(),
            g == ref_views(group@),
            texts(parts@) == word_texts(g.take(i as int)),
        decreases group@.len() - i,
    {
        let ghost before = texts(parts@);
        parts.push(group[i].text.clone());
        assert(texts(parts@) =~= before.push(g[i as int].text));
        assert(word_texts(g.take(i + 1)) =~= word_texts(g.take(i as int)).push(g[i as int].text));
        i += 1;
    }
    assert(g.take(i as int) =~= g);
    let first = group[0];
    Segment {
        text: join(&parts, " "),
        speaker: if multichannel {
            channel_speaker(first.speaker_id.as_str())
        } else {
            speaker_letter(first.speaker_id.as_str(), 'A')
        },
        start_time: first.start,
        end_time: group[group.len() - 1].end,
        confidence: 1_000_000,
        is_final: true,
        created_at: now,
    }
}

fn group_words(words: &Vec<&ElWord>, multichannel: bool, now: Stamp) -> (r: Vec<Segment>)
    ensures
        segment_views(r@) == utterances(ref_views(words@), multichannel, now),
{
    let ghost ws = ref_views(words@);
    let ghost seg = |g: Seq<WordView>| utterance(g, multichannel, now);
    let mut out: Vec<Segment> = Vec::new();
    if words.len() == 0 {
        assert(segment_views(out@) =~= utterances(ws, multichannel, now));
        return out;
    }
    let mut group: Vec<&ElWord> = Vec::new();
    group.push(words[0]);
    let mut i: usize = 1;
    proof {
        let g = groups(ws.take(1), multichannel);
        assert(ws.take(1).drop_last() =~= Seq::<WordView>::empty());
        assert(groups(Seq::<WordView>::empty(), multichannel) =~= Seq::<Seq<WordView>>::empty());
        assert(g =~= seq![seq![ws[0]]]);
        assert(ref_views(group@) =~= g.last());
        assert(segment_views(out@) =~= g.drop_last().map_values(seg));
    }
    while i < words.len()
        invariant
            1 <= i <= words@.len(),
            ws == ref_views(words@),
            seg == (|g: Seq<WordView>| utterance(g, multichannel, now)),
            group@.len() > 0,
            groups(ws.take(i as int), multichannel).len() > 0,
            ref_views(group@) == groups(ws.take(i as int), multichannel).last(),
            segment_views(out@) == groups(ws.take(i as int), multichannel).drop_last().map_values(
                seg,
            ),
        decreases words@.len() - i,
    {
        let ghost g = groups(ws.take(i as int), multichannel);
        let ghost next = groups(ws.take(i + 1), multichannel);
        assert(ws.take(i + 1).drop_last() =~= ws.take(i as int));
        assert(ws.take(i + 1).last() == words@[i as int]@);
        let w = words[i];
        let prev = group[group.len() - 1];
        assert(g.last().last() == prev@);
        let ends = if multichannel {
            (w.start as i128) - (prev.end as i128) > MAX_UTTERANCE_GAP as i128
        } else {
            !same(prev.speaker_id.as_str(), w.speaker_id.as_str())
        };
        assert(ends == breaks(multichannel, prev@, w@));
        let ghost views = ref_views(group@);
        if ends {
            let done = close_group(&group, multichannel, now);
            let ghost before = segment_views(out@);
            out.push(done);
            assert(segment_views(out@) =~= before.push(seg(views)));
            group = Vec::new();
            group.push(w);
            assert(next =~= g.push(seq![w@]));
            assert(ref_views(group@) =~= next.last());
            assert(next.drop_last() =~= g);
            assert(g.map_values(seg) =~= g.drop_last().map_values(seg).push(seg(g.last())));
        } else {
            group.push(w);
            assert(ref_views(group@) =~= views.push(w@));
            assert(next.drop_last() =~= g.drop_last());
        }
        i += 1;
    }
    let last = close_group(&group, multichannel, now);
    let ghost before = segment_views(out@);
    out.push(last);
    proof {
        assert(ws.take(i as int) =~= ws);
        let g = groups(ws, multichannel);
        assert(segment_views(out@) =~= before.push(seg(g.last())));
        assert(g.map_values(seg) =~= g.drop_last().map_values(seg).push(seg(g.last())));
    }
    out
}

// ---------------------------------------------------------------------------
// Speakers apart
// ---------------------------------------------------------------------------

fn has_id(ids: &Vec<&str>, id: &str) -> (r: bool)
    ensures
        r == ids@.map_values(|s: &str| s@).contains(id@),
{
    let ghost views = ids@.map_values(|s: &str| s@);
    let mut i: usize = 0;
    while i < ids.len()
        invariant
            i <= ids@.len(),
            views == ids@.map_values(|s: &str| s@),
            forall|k: int| 0 <= k < i ==> views[k] != id@,
        decreases ids@.len() - i,
    {
        if same(ids[i], id) {
            assert(views[i as int] == id@);
            return true;
        }
        i += 1;
    }
    false
}

fn ids_of<'a>(words: &Vec<&'a ElWord>) -> (r: Vec<&'a str>)
    ensures
        r@.map_values(|s: &str| s@) == speaker_ids(ref_views(words@)),
{
    let ghost ws = ref_views(words@);
    let mut out: Vec<&'a str> = Vec::new();
    let mut i: usize = 0;
    assert(ws.take(0) =~= Seq::<WordView>::empty());
    assert(out@.map_values(|s: &str| s@) =~= Seq::<Seq<char>>::empty());
    while i < words.len()
        invariant
            i <= words@.len(),
            ws == ref_views(words@),
            out@.map_values(|s: &str| s@) == speaker_ids(ws.take(i as int)),
        decreases words@.len() - i,
    {
        assert(ws.take(i + 1).drop_last() =~= ws.take(i as int));
        assert(ws.take(i + 1).last() == words@[i as int]@);
        let id = words[i].speaker_id.as_str();
        if !has_id(&out, id) {
            let ghost before = out@.map_values(|s: &str| s@);
            out.push(id);
            assert(out@.map_values(|s: &str| s@) =~= before.push(id@));
        }
        i += 1;
    }
    assert(ws.take(i as int) =~= ws);
    out
}

fn words_by<'a>(words: &Vec<&'a ElWord>, id: &str) -> (r: Vec<&'a ElWord>)
    ensures
        ref_views(r@) == of_speaker(ref_views(words@), id@),
{
    let ghost ws = ref_views(words@);
    let mut out: Vec<&'a ElWord> = Vec::new();
    let mut i: usize = 0;
    assert(ws.take(0) =~= Seq::<WordView>::empty());
    assert(ref_views(out@) =~= Seq::<WordView>::empty());
    while i < words.len()
        invariant
            i <= words@.len(),
            ws == ref_views(words@),
            ref_views(out@) == of_speaker(ws.take(i as int), id@),
        decreases words@.len() - i,
    {
        assert(ws.take(i + 1).drop_last() =~= ws.take(i as int));
        assert(ws.take(i + 1).last() == words@[i as int]@);
        if same(words[i].speaker_id.as_str(), id) {
            let ghost before = ref_views(out@);
            out.push(words[i]);
            assert(ref_views(out@) =~= before.push(words@[i as int]@));
        }
        i += 1;
    }
    assert(ws.take(i as int) =~= ws);
    out
}

// ---------------------------------------------------------------------------
// Sorting
// ---------------------------------------------------------------------------

fn insert_segment(list: &mut Vec<Segment>, seg: Segment)
    ensures
        segment_views(final(list)@) == inserted(segment_views(old(list)@), seg@),
{
    let ghost start = segment_views(list@);
    let ghost v = seg@;
    let mut at: usize = list.len();
    assert(start.take(at as int) =~= start);
    assert(inserted(start, v) =~= inserted(start.take(at as int), v) + start.skip(at as int));
    while at > 0 && list[at - 1].start_time > seg.start_time
        invariant
            at <= list@.len(),
            start == segment_views(list@),
            v == seg@,
            inserted(start, v) == inserted(start.take(at as int), v) + start.skip(at as int),
        decreases at,
    {
        let ghost here = start.take(at as int);
        assert(here.last() == list@[at - 1]@);
        assert(here.drop_last() =~= start.take(at - 1));
        assert(inserted(here.drop_last(), v).push(here.last()) + start.skip(at as int)
            =~= inserted(start.take(at - 1), v) + start.skip(at - 1));
        at -= 1;
    }
    proof {
        let here = start.take(at as int);
        if at > 0 {
            assert(here.last() == list@[at - 1]@);
        }
        assert(inserted(here, v) == here.push(v));
        assert(here.push(v) + start.skip(at as int) =~= start.insert(at as int, v));
    }
    list.insert(at, seg);
    assert(segment_views(list@) =~= start.insert(at as int, v));
}

/// Sorts segments by their start; those that start together stay in order.
pub fn sort_segments(segments: Vec<Segment>) -> (r: Vec<Segment>)
    ensures
        segment_views(r@) == by_start(segment_views(segments@)),
{
    let ghost list = segment_views(segments@);
    let mut out: Vec<Segment> = Vec::new();
    let mut i: usize = 0;
    assert(list.take(0) =~= Seq::<SegmentView>::empty());
    assert(segment_views(out@) =~= Seq::<SegmentView>::empty());
    while i < segments.len()
        invariant
            i <= segments@.len(),
            list == segment_views(segments@),
            segment_views(out@) == by_start(list.take(i as int)),
        decreases segments@.len() - i,
    {
        assert(list.take(i + 1).drop_last() =~= list.take(i as int));
        assert(list.take(i + 1).last() == segments@[i as int]@);
        insert_segment(&mut out, segments[i].copy());
        i += 1;
    }
    assert(list.take(i as int) =~= list);
    out
}

fn to_segments_by_speaker(words: &Vec<&ElWord>, now: Stamp) -> (r: Vec<Segment>)
    ensures
        segment_views(r@) == by_start(
            by_speaker(ref_views(words@), speaker_ids(ref_views(words@)), now),
        ),
{
    let ghost ws = ref_views(words@);
    let ids = ids_of(words);
    let ghost names = ids@.map_values(|s: &str| s@);
    let mut out: Vec<Segment> = Vec::new();
    let mut i: usize = 0;
    assert(names.take(0) =~= Seq::<Seq<char>>::empty());
    assert(segment_views(out@) =~= Seq::<SegmentView>::empty());
    while i < ids.len()
        invariant
            i <= ids@.len(),
            ws == ref_views(words@),
            names == ids@.map_values(|s: &str| s@),
            segment_views(out@) == by_speaker(ws, names.take(i as int), now),
        decreases ids@.len() - i,
    {
        assert(names.take(i + 1).drop_last() =~= names.take(i as int));
        assert(names.take(i + 1).last() == ids@[i as int]@);
        let list = words_by(words, ids[i]);
        let mut segs = group_words(&list, true, now);
        let ghost before = segment_views(out@);
        let ghost more = segment_views(segs@);
        out.append(&mut segs);
        assert(segment_views(out@) =~= before + more);
        i += 1;
    }
    assert(names.take(i as int) =~= names);
    sort_segments(out)
}

/// Group words into per-speaker utterance segments.
///
/// Mono and diarized: words arrive in order, consecutive runs of one speaker
/// are grouped. Multichannel: words from different channels interleave in time,
/// so each speaker's words are grouped apart (split on silence gaps) and the
/// resulting segments sorted by start time.
pub fn to_segments(resp: &ElevenLabsResponse, multichannel: bool, now: Stamp) -> (r: Vec<Segment>)
    ensures
        segment_views(r@) == reply_segments(
            resp.text@,
            word_views(resp.words@),
            multichannel,
            now,
        ),
{
    let words = spoken_words(&resp.words);
    if multichannel {
        return to_segments_by_speaker(&words, now);
    }
    if words.len() == 0 {
        let mut out: Vec<Segment> = Vec::new();
        if resp.text.as_str().unicode_len() > 0 {
            out.push(
                Segment {
                    text: resp.text.clone(),
                    speaker: owned("A"),
                    start_time: 0,
                    end_time: 0,
                    confidence: 1_000_000,
                    is_final: true,
                    created_at: now,
                },
            );
        }
        assert(segment_views(out@) =~= whole_text(resp.text@, now));
        return out;
    }
    group_words(&words, false, now)
}

// ---------------------------------------------------------------------------
// What grouping and sorting keep
// ---------------------------------------------------------------------------

/// The words of a list of groups, in order.
pub open spec fn ungrouped(gs: Seq<Seq<WordView>>) -> Seq<WordView>
    decreases gs.len(),
{
    if gs.len() == 0 {
        seq![]
    } else {
        ungrouped(gs.drop_last()) + gs.last()
    }
}

/// Grouping loses, repeats and moves no word, makes no empty group, and begins
/// a new group exactly where one utterance ends and another begins.
pub proof fn groups_hold_the_words(words: Seq<WordView>, multichannel: bool)
    ensures
        ungrouped(groups(words, multichannel)) == words,
        forall|k: int|
            0 <= k < groups(words, multichannel).len() ==> (#[trigger] groups(
                words,
                multichannel,
            )[k]).len() > 0,
        forall|k: int, j: int|
            0 <= k < groups(words, multichannel).len() && 0 < j < groups(
                words,
                multichannel,
            )[k].len() ==> !breaks(
                multichannel,
                groups(words, multichannel)[k][j - 1],
                #[trigger] groups(words, multichannel)[k][j],
            ),
        forall|k: int|
            0 < k < groups(words, multichannel).len() ==> breaks(
                multichannel,
                groups(words, multichannel)[k - 1].last(),
                (#[trigger] groups(words, multichannel)[k])[0],
            ),
    decreases words.len(),
{
    let gs = groups(words, multichannel);
    lemma_groups_full(words, multichannel);
    if words.len() > 0 {
        let before = words.drop_last();
        let g = groups(before, multichannel);
        let w = words.last();
        groups_hold_the_words(before, multichannel);
        if g.len() > 0 && !breaks(multichannel, g.last().last(), w) {
            assert(gs.drop_last() =~= g.drop_last());
            assert(gs.last() == g.last().push(w));
            assert(ungrouped(g) == ungrouped(g.drop_last()) + g.last());
            assert(ungrouped(gs) =~= ungrouped(g).push(w));
            assert forall|k: int, j: int|
                0 <= k < gs.len() && 0 < j < gs[k].len() implies !breaks(
                multichannel,
                gs[k][j - 1],
                #[trigger] gs[k][j],
            ) by {
                if k < gs.len() - 1 {
                    assert(gs[k] == g[k]);
                    assert(!breaks(multichannel, g[k][j - 1], g[k][j]));
                } else if j < gs[k].len() - 1 {
                    assert(!breaks(multichannel, g[k][j - 1], g[k][j]));
                }
            }
            assert forall|k: int| 0 < k < gs.len() implies breaks(
                multichannel,
                gs[k - 1].last(),
                (#[trigger] gs[k])[0],
            ) by {
                assert(breaks(multichannel, g[k - 1].last(), g[k][0]));
                assert(gs[k][0] == g[k][0]);
            }
        } else {
            assert(gs.drop_last() =~= g);
            assert(ungrouped(gs) =~= ungrouped(g).push(w));
            assert forall|k: int, j: int|
                0 <= k < gs.len() && 0 < j < gs[k].len() implies !breaks(
                multichannel,
                gs[k][j - 1],
                #[trigger] gs[k][j],
            ) by {
                if k < g.len() {
                    assert(!breaks(multichannel, g[k][j - 1], g[k][j]));
                }
            }
            assert forall|k: int| 0 < k < gs.len() implies breaks(
                multichannel,
                gs[k - 1].last(),
                (#[trigger] gs[k])[0],
            ) by {
                if k < g.len() {
                    assert(breaks(multichannel, g[k - 1].last(), g[k][0]));
                }
            }
        }
        assert(words =~= before.push(w));
    }
}

/// Every word belongs to the stream of exactly one of the listed speakers.
pub proof fn every_word_has_a_speaker(words: Seq<WordView>)
    ensures
        speaker_ids(words).no_duplicates(),
        forall|i: int|
            0 <= i < words.len() ==> speaker_ids(words).contains(
                (#[trigger] words[i]).speaker_id,
            ),
        forall|i: int|
            0 <= i < words.len() ==> of_speaker(words, words[i].speaker_id).contains(
                #[trigger] words[i],
            ),
    decreases words.len(),
{
    if words.len() > 0 {
        let front = words.drop_last();
        let before = speaker_ids(front);
        let now = speaker_ids(words);
        every_word_has_a_speaker(front);
        assert forall|i: int| 0 <= i < words.len() implies now.contains(
            (#[trigger] words[i]).speaker_id,
        ) && of_speaker(words, words[i].speaker_id).contains(words[i]) by {
            let id = words[i].speaker_id;
            if i < front.len() {
                assert(front[i] == words[i]);
                assert(before.contains(id));
                let k = choose|k: int| 0 <= k < before.len() && before[k] == id;
                assert(now[k] == id);
                let s = of_speaker(front, id);
                let m = choose|m: int| 0 <= m < s.len() && s[m] == words[i];
                assert(of_speaker(words, id)[m] == words[i]);
            } else {
                if before.contains(id) {
                    let k = choose|k: int| 0 <= k < before.len() && before[k] == id;
                    assert(now[k] == id);
                } else {
                    assert(now[before.len() as int] == id);
                }
                let s = of_speaker(words, id);
                assert(s[s.len() - 1] == words[i]);
            }
        }
    }
}

/// The segments of a list that start at a time, in order.
pub open spec fn starting_at(list: Seq<SegmentView>, t: int) -> Seq<SegmentView>
    decreases list.len(),
{
    if list.len() == 0 {
        seq![]
    } else if list.last().start_time == t {
        starting_at(list.drop_last(), t).push(list.last())
    } else {
        starting_at(list.drop_last(), t)
    }
}

/// Whether no segment starts before one that stands in front of it.
pub open spec fn in_order(list: Seq<SegmentView>) -> bool {
    forall|i: int, j: int|
        0 <= i <= j < list.len() ==> (#[trigger] list[i]).start_time <= (
        #[trigger] list[j]).start_time
}

proof fn lemma_inserted(list: Seq<SegmentView>, seg: SegmentView, t: int)
    requires
        in_order(list),
    ensures
        in_order(inserted(list, seg)),
        inserted(list, seg).len() == list.len() + 1,
        list.len() > 0 ==> inserted(list, seg).last().start_time == (if list.last().start_time
            <= seg.start_time {
            seg.start_time
        } else {
            list.last().start_time
        }),
        starting_at(inserted(list, seg), t) == (if seg.start_time == t {
            starting_at(list, t).push(seg)
        } else {
            starting_at(list, t)
        }),
    decreases list.len(),
{
    if list.len() == 0 || list.last().start_time <= seg.start_time {
        assert(list.push(seg).drop_last() =~= list);
        assert forall|i: int, j: int|
            0 <= i <= j < list.push(seg).len() implies (#[trigger] list.push(seg)[i]).start_time <= (
        #[trigger] list.push(seg)[j]).start_time by {
            if i < list.len() {
                assert(list[i].start_time <= list[list.len() - 1].start_time);
            }
        }
    } else {
        let front = list.drop_last();
        let last = list.last();
        let r = inserted(front, seg);
        assert(in_order(front)) by {
            assert forall|i: int, j: int| 0 <= i <= j < front.len() implies (
            #[trigger] front[i]).start_time <= (#[trigger] front[j]).start_time by {
                assert(list[i].start_time <= list[j].start_time);
            }
        }
        lemma_inserted(front, seg, t);
        assert(r.push(last).drop_last() =~= r);
        if front.len() > 0 {
            assert(list[front.len() - 1].start_time <= list[list.len() - 1].start_time);
        } else {
            assert(r =~= seq![seg]);
        }
        assert(r.last().start_time <= last.start_time);
        assert forall|i: int, j: int| 0 <= i <= j < r.push(last).len() implies (
        #[trigger] r.push(last)[i]).start_time <= (#[trigger] r.push(last)[j]).start_time by {
            if i < r.len() {
                assert(r[i].start_time <= r[r.len() - 1].start_time);
            }
        }
    }
}

/// Sorting orders the segments by their start and keeps all of them; those that
/// start together stay in the order in which they came.
pub proof fn sorting_is_stable(list: Seq<SegmentView>)
    ensures
        in_order(by_start(list)),
        by_start(list).len() == list.len(),
        forall|t: int| #[trigger] starting_at(by_start(list), t) == starting_at(list, t),
    decreases list.len(),
{
    if list.len() > 0 {
        let front = list.drop_last();
        sorting_is_stable(front);
        lemma_inserted(by_start(front), list.last(), 0);
        assert forall|t: int| #[trigger] starting_at(by_start(list), t) == starting_at(list, t) by {
            lemma_inserted(by_start(front), list.last(), t);
            assert(starting_at(by_start(front), t) == starting_at(front, t));
        }
    }
}

/// Sorting loses, repeats and changes no segment.
pub proof fn sorting_keeps_all(list: Seq<SegmentView>)
    ensures
        by_start(list).to_multiset() == list.to_multiset(),
    decreases list.len(),
{
    broadcast use vstd::seq_lib::group_to_multiset_ensures;

    if list.len() > 0 {
        let front = list.drop_last();
        sorting_keeps_all(front);
        let p = lemma_insertion(by_start(front), list.last());
        assert(by_start(list).to_multiset() =~= by_start(front).to_multiset().insert(list.last()));
        assert(list =~= front.push(list.last()));
        assert(list.to_multiset() =~= front.to_multiset().insert(list.last()));
    }
}

/// The words proper of a reply are those that are marked as words, in order, and
/// the words of a speaker those that bear the speaker's id.
pub proof fn words_are_filtered(words: Seq<WordView>, id: Seq<char>)
    ensures
        spoken(words) == words.filter(|w: WordView| w.kind == "word"@),
        of_speaker(words, id) == words.filter(|w: WordView| w.speaker_id == id),
    decreases words.len(),
{
    reveal(Seq::filter);
    if words.len() > 0 {
        words_are_filtered(words.drop_last(), id);
    }
}

// ---------------------------------------------------------------------------
// What the segments of a reply tell
// ---------------------------------------------------------------------------

/// Whether a reply has a word proper at a position.
pub open spec fn is_spoken(words: Seq<WordView>, i: int) -> bool {
    0 <= i < words.len() && words[i].kind == "word"@
}

/// Whether a word proper belongs to the stream of another: where speakers are
/// told apart by channel, each has a stream of their own; else there is one.
pub open spec fn in_stream(words: Seq<WordView>, multichannel: bool, of: int, i: int) -> bool {
    is_spoken(words, i) && (multichannel ==> words[i].speaker_id == words[of].speaker_id)
}

/// Whether an utterance ends between two words that follow each other in a
/// stream: by more than two seconds of silence where speakers are told apart by
/// channel, else by a change of speaker.
pub open spec fn parts(words: Seq<WordView>, multichannel: bool, i: int, j: int) -> bool {
    if multichannel {
        words[j].start - words[i].end > 2_000_000
    } else {
        words[i].speaker_id != words[j].speaker_id
    }
}

/// Whether the words at some positions of a reply are one utterance: words
/// proper of one speaker, in order, none of their stream left out between them,
/// not parted from each other, and parted from the word before and from the word
/// behind them in their stream.
#[verifier::opaque]
pub open spec fn is_utterance(words: Seq<WordView>, multichannel: bool, run: Seq<int>) -> bool {
    &&& run.len() > 0
    &&& forall|k: int|
        0 <= k < run.len() ==> is_spoken(words, #[trigger] run[k]) && words[run[k]].speaker_id
            == words[run[0]].speaker_id
    &&& forall|k: int, l: int| 0 <= k < l < run.len() ==> #[trigger] run[k] < #[trigger] run[l]
    &&& forall|i: int|
        run[0] <= i <= run.last() && #[trigger] in_stream(words, multichannel, run[0], i)
            ==> run.contains(i)
    &&& forall|k: int|
        0 < k < run.len() ==> !parts(words, multichannel, run[k - 1], #[trigger] run[k])
    &&& forall|i: int|
        i < run[0] && #[trigger] in_stream(words, multichannel, run[0], i) && (forall|j: int|
            i < j < run[0] ==> !#[trigger] in_stream(words, multichannel, run[0], j)) ==> parts(
            words,
            multichannel,
            i,
            run[0],
        )
    &&& forall|i: int|
        i > run.last() && #[trigger] in_stream(words, multichannel, run[0], i) && (forall|j: int|
            run.last() < j < i ==> !#[trigger] in_stream(words, multichannel, run[0], j)) ==> parts(
            words,
            multichannel,
            run.last(),
            i,
        )
}

/// Whether a segment tells the words at some positions of a reply: their texts
/// with blanks between them, their speaker, from the start of the first to the
/// end of the last.
#[verifier::opaque]
pub open spec fn tells(
    words: Seq<WordView>,
    multichannel: bool,
    now: Stamp,
    run: Seq<int>,
    seg: SegmentView,
) -> bool {
    let id = words[run[0]].speaker_id;
    &&& seg.text == joined(Seq::new(run.len(), |k: int| words[run[k]].text), " "@)
    &&& seg.speaker == (if multichannel {
        channel_label(id)
    } else {
        lettered(id, 'A')
    })
    &&& seg.start_time == words[run[0]].start
    &&& seg.end_time == words[run[run.len() - 1]].end
    &&& seg.confidence == 1_000_000
    &&& seg.is_final
    &&& seg.created_at == now
}

/// Whether segments tell the utterances of a reply one for one: each segment
/// tells one, no two tell the same, and every word proper is told.
pub open spec fn tell_all(
    words: Seq<WordView>,
    multichannel: bool,
    now: Stamp,
    runs: Seq<Seq<int>>,
    segs: Seq<SegmentView>,
) -> bool {
    &&& runs.len() == segs.len()
    &&& forall|k: int|
        0 <= k < runs.len() ==> is_utterance(words, multichannel, #[trigger] runs[k]) && tells(
            words,
            multichannel,
            now,
            runs[k],
            segs[k],
        )
    &&& forall|k: int, l: int|
        0 <= k < l < runs.len() ==> (#[trigger] runs[k])[0] != (#[trigger] runs[l])[0]
    &&& forall|i: int| #[trigger]
        is_spoken(words, i) ==> exists|k: int|
            0 <= k < runs.len() && (#[trigger] runs[k]).contains(i)
}

proof fn lemma_utterance_order(words: Seq<WordView>, multichannel: bool, run: Seq<int>)
    requires
        is_utterance(words, multichannel, run),
    ensures
        run.len() > 0,
        run[0] <= run.last(),
        is_spoken(words, run[0]),
        forall|k: int|
            0 <= k < run.len() ==> run[0] <= #[trigger] run[k] && words[run[k]].speaker_id
                == words[run[0]].speaker_id,
{
    reveal(is_utterance);
    assert forall|k: int| 0 <= k < run.len() implies run[0] <= #[trigger] run[k] by {
        if k > 0 {
            assert(run[0] < run[k]);
        }
    }
    assert(run[0] <= run[run.len() - 1]);
}

/// Whether positions pick out of a list the items of another, in order.
spec fn picks(words: Seq<WordView>, at: Seq<int>, ws: Seq<WordView>) -> bool {
    &&& at.len() == ws.len()
    &&& forall|k: int| 0 <= k < at.len() ==> 0 <= #[trigger] at[k] < words.len()
    &&& forall|k: int| 0 <= k < at.len() ==> ws[k] == words[#[trigger] at[k]]
    &&& forall|k: int, l: int| 0 <= k < l < at.len() ==> #[trigger] at[k] < #[trigger] at[l]
}

proof fn lemma_spoken_at(words: Seq<WordView>) -> (at: Seq<int>)
    ensures
        picks(words, at, spoken(words)),
        forall|i: int| #[trigger] is_spoken(words, i) <==> at.contains(i),
    decreases words.len(),
{
    if words.len() == 0 {
        seq![]
    } else {
        let front = words.drop_last();
        let n = words.len() - 1;
        let before = lemma_spoken_at(front);
        let at = if words.last().kind == "word"@ {
            before.push(n)
        } else {
            before
        };
        assert forall|i: int| #[trigger] is_spoken(words, i) implies at.contains(i) by {
            if i < n {
                assert(is_spoken(front, i));
                let k = choose|k: int| 0 <= k < before.len() && before[k] == i;
                assert(at[k] == i);
            } else {
                assert(at[before.len() as int] == i);
            }
        }
        assert forall|i: int| #[trigger] at.contains(i) implies is_spoken(words, i) by {
            let k = choose|k: int| 0 <= k < at.len() && at[k] == i;
            if k < before.len() {
                assert(before.contains(before[k]));
                assert(is_spoken(front, i));
            }
        }
        at
    }
}

proof fn lemma_speaker_at(words: Seq<WordView>, id: Seq<char>) -> (at: Seq<int>)
    ensures
        picks(words, at, of_speaker(words, id)),
        forall|i: int| #[trigger]
            at.contains(i) <==> 0 <= i < words.len() && words[i].speaker_id == id,
    decreases words.len(),
{
    if words.len() == 0 {
        seq![]
    } else {
        let front = words.drop_last();
        let n = words.len() - 1;
        let before = lemma_speaker_at(front, id);
        let at = if words.last().speaker_id == id {
            before.push(n)
        } else {
            before
        };
        assert forall|i: int|
            0 <= i < words.len() && words[i].speaker_id == id implies #[trigger] at.contains(i) by {
            if i < n {
                assert(front[i] == words[i]);
                assert(before.contains(i));
                let k = choose|k: int| 0 <= k < before.len() && before[k] == i;
                assert(at[k] == i);
            } else {
                assert(at[before.len() as int] == i);
            }
        }
        assert forall|i: int| #[trigger] at.contains(i) implies 0 <= i < words.len()
            && words[i].speaker_id == id by {
            let k = choose|k: int| 0 <= k < at.len() && at[k] == i;
            if k < before.len() {
                assert(before.contains(before[k]));
            }
        }
        at
    }
}

/// Whether positions cut a list of words where its utterances end, and nowhere
/// else.
spec fn cuts(ws: Seq<WordView>, multichannel: bool, b: Seq<int>) -> bool {
    &&& b.len() > 0
    &&& b[0] == 0
    &&& b.last() == ws.len()
    &&& forall|k: int, l: int| 0 <= k < l < b.len() ==> #[trigger] b[k] < #[trigger] b[l]
    &&& forall|j: int|
        0 < j < ws.len() ==> (breaks(multichannel, ws[j - 1], #[trigger] ws[j]) <==> b.contains(j))
}

proof fn lemma_group_bounds(ws: Seq<WordView>, multichannel: bool) -> (b: Seq<int>)
    ensures
        cuts(ws, multichannel, b),
        b.len() == groups(ws, multichannel).len() + 1,
        forall|k: int|
            0 <= k < groups(ws, multichannel).len() ==> 0 <= b[k] < b[k + 1] <= ws.len()
                && #[trigger] groups(ws, multichannel)[k] == ws.subrange(b[k], b[k + 1]),
    decreases ws.len(),
{
    if ws.len() == 0 {
        seq![0int]
    } else {
        let front = ws.drop_last();
        let g = groups(front, multichannel);
        let gs = groups(ws, multichannel);
        let n = ws.len() as int;
        let before = lemma_group_bounds(front, multichannel);
        lemma_groups_full(front, multichannel);
        let joins = g.len() > 0 && !breaks(multichannel, g.last().last(), ws.last());
        let b = if joins {
            before.drop_last().push(n)
        } else {
            before.push(n)
        };
        assert forall|k: int| 0 <= k < gs.len() implies 0 <= b[k] < b[k + 1] <= n
            && #[trigger] gs[k] == ws.subrange(b[k], b[k + 1]) by {
            if joins {
                assert(g[k] == front.subrange(before[k], before[k + 1]));
                if k < gs.len() - 1 {
                    assert(front.subrange(before[k], before[k + 1]) =~= ws.subrange(
                        before[k],
                        before[k + 1],
                    ));
                } else {
                    assert(gs[k] =~= ws.subrange(b[k], b[k + 1]));
                }
            } else if k < g.len() {
                assert(g[k] == front.subrange(before[k], before[k + 1]));
                assert(front.subrange(before[k], before[k + 1]) =~= ws.subrange(
                    before[k],
                    before[k + 1],
                ));
            } else {
                assert(gs[k] =~= ws.subrange(n - 1, n));
            }
        }
        assert forall|j: int| 0 < j < n implies (breaks(multichannel, ws[j - 1], #[trigger] ws[j])
            <==> b.contains(j)) by {
            if j < n - 1 {
                assert(breaks(multichannel, front[j - 1], front[j]) <==> before.contains(j));
                if before.contains(j) {
                    let k = choose|k: int| 0 <= k < before.len() && before[k] == j;
                    assert(b[k] == j);
                }
                if b.contains(j) {
                    let k = choose|k: int| 0 <= k < b.len() && b[k] == j;
                    assert(before[k] == j);
                }
            } else if joins {
                if b.contains(j) {
                    let k = choose|k: int| 0 <= k < b.len() && b[k] == j;
                    assert(before[k] < before[before.len() - 1]);
                }
            } else {
                assert(b[before.len() - 1] == j);
            }
        }
        b
    }
}

/// Whether positions pick the words of one stream of a reply, and all of them.
#[verifier::opaque]
spec fn is_stream(words: Seq<WordView>, multichannel: bool, at: Seq<int>) -> bool {
    forall|i: int, j: int|
        #![trigger in_stream(words, multichannel, i, j)]
        at.contains(i) ==> (in_stream(words, multichannel, i, j) <==> at.contains(j))
}

proof fn lemma_stream_place(
    words: Seq<WordView>,
    multichannel: bool,
    at: Seq<int>,
    of: int,
    i: int,
) -> (p: int)
    requires
        is_stream(words, multichannel, at),
        0 <= of < at.len(),
        in_stream(words, multichannel, at[of], i),
    ensures
        0 <= p < at.len(),
        at[p] == i,
{
    reveal(is_stream);
    assert(at.contains(at[of]));
    assert(at.contains(i));
    choose|p: int| 0 <= p < at.len() && at[p] == i
}

proof fn lemma_stream_member(
    words: Seq<WordView>,
    multichannel: bool,
    at: Seq<int>,
    of: int,
    p: int,
)
    requires
        is_stream(words, multichannel, at),
        0 <= of < at.len(),
        0 <= p < at.len(),
    ensures
        in_stream(words, multichannel, at[of], at[p]),
{
    reveal(is_stream);
    assert(at.contains(at[of]));
    assert(at.contains(at[p]));
}

/// Words between which no utterance ends have one speaker, where speakers are
/// not told apart by channel.
proof fn lemma_one_speaker(ws: Seq<WordView>, lo: int, k: int)
    requires
        0 <= lo <= k < ws.len(),
        forall|j: int| lo < j <= k ==> !breaks(false, ws[j - 1], #[trigger] ws[j]),
    ensures
        ws[k].speaker_id == ws[lo].speaker_id,
    decreases k - lo,
{
    if k > lo {
        lemma_one_speaker(ws, lo, k - 1);
        assert(!breaks(false, ws[k - 1], ws[k]));
    }
}

proof fn lemma_no_cut(ws: Seq<WordView>, multichannel: bool, b: Seq<int>, k: int, j: int)
    requires
        cuts(ws, multichannel, b),
        0 <= k < b.len() - 1,
        b[k] < j < b[k + 1],
    ensures
        0 < j < ws.len(),
        !breaks(multichannel, ws[j - 1], ws[j]),
{
    if k > 0 {
        assert(b[0] < b[k]);
    }
    if k + 1 < b.len() - 1 {
        assert(b[k + 1] < b[b.len() - 1]);
    }
    if b.contains(j) {
        let m = choose|m: int| 0 <= m < b.len() && b[m] == j;
        if m < k {
            assert(b[m] < b[k]);
        } else if m > k + 1 {
            assert(b[k + 1] < b[m]);
        }
    }
}

proof fn lemma_cut(ws: Seq<WordView>, multichannel: bool, b: Seq<int>, k: int)
    requires
        cuts(ws, multichannel, b),
        0 < k < b.len() - 1,
    ensures
        0 < b[k] < ws.len(),
        breaks(multichannel, ws[b[k] - 1], ws[b[k]]),
{
    assert(b[0] < b[k]);
    assert(b[k] < b[b.len() - 1]);
    assert(b.contains(b[k]));
}

proof fn lemma_run_is_utterance(
    words: Seq<WordView>,
    multichannel: bool,
    ws: Seq<WordView>,
    at: Seq<int>,
    b: Seq<int>,
    k: int,
)
    requires
        picks(words, at, ws),
        is_stream(words, multichannel, at),
        cuts(ws, multichannel, b),
        0 <= k < b.len() - 1,
        0 <= b[k] < b[k + 1] <= ws.len(),
    ensures
        is_utterance(words, multichannel, at.subrange(b[k], b[k + 1])),
{
    reveal(is_utterance);
    let lo = b[k];
    let hi = b[k + 1];
    let run = at.subrange(lo, hi);
    assert(run[0] == at[lo]);
    assert(run.last() == at[hi - 1]);
    assert forall|m: int| 0 <= m < run.len() implies is_spoken(words, #[trigger] run[m])
        && words[run[m]].speaker_id == words[run[0]].speaker_id by {
        assert(run[m] == at[lo + m]);
        lemma_stream_member(words, multichannel, at, lo, lo + m);
        if !multichannel {
            assert forall|j: int| lo < j <= lo + m implies !breaks(
                false,
                ws[j - 1],
                #[trigger] ws[j],
            ) by {
                lemma_no_cut(ws, multichannel, b, k, j);
            }
            lemma_one_speaker(ws, lo, lo + m);
            assert(ws[lo + m] == words[at[lo + m]] && ws[lo] == words[at[lo]]);
        }
    }
    assert forall|m: int, l: int| 0 <= m < l < run.len() implies #[trigger] run[m]
        < #[trigger] run[l] by {
        assert(at[lo + m] < at[lo + l]);
    }
    assert forall|i: int|
        run[0] <= i <= run.last() && #[trigger] in_stream(
            words,
            multichannel,
            run[0],
            i,
        ) implies run.contains(i) by {
        let p = lemma_stream_place(words, multichannel, at, lo, i);
        if p < lo {
            assert(at[p] < at[lo]);
        }
        if p >= hi {
            assert(at[hi - 1] < at[p]);
        }
        assert(run[p - lo] == i);
    }
    assert forall|m: int| 0 < m < run.len() implies !parts(
        words,
        multichannel,
        run[m - 1],
        #[trigger] run[m],
    ) by {
        lemma_no_cut(ws, multichannel, b, k, lo + m);
        assert(run[m - 1] == at[lo + m - 1] && run[m] == at[lo + m]);
        assert(ws[lo + m - 1] == words[at[lo + m - 1]] && ws[lo + m] == words[at[lo + m]]);
    }
    assert forall|i: int|
        i < run[0] && #[trigger] in_stream(words, multichannel, run[0], i) && (forall|j: int|
            i < j < run[0] ==> !#[trigger] in_stream(
                words,
                multichannel,
                run[0],
                j,
            )) implies parts(words, multichannel, i, run[0]) by {
        let p = lemma_stream_place(words, multichannel, at, lo, i);
        if p > lo {
            assert(at[lo] < at[p]);
        }
        if p < lo - 1 {
            assert(at[p] < at[lo - 1] && at[lo - 1] < at[lo]);
            lemma_stream_member(words, multichannel, at, lo, lo - 1);
        }
        assert(p == lo - 1);
        lemma_cut(ws, multichannel, b, k);
        assert(ws[lo - 1] == words[at[lo - 1]] && ws[lo] == words[at[lo]]);
    }
    assert forall|i: int|
        i > run.last() && #[trigger] in_stream(words, multichannel, run[0], i) && (forall|j: int|
            run.last() < j < i ==> !#[trigger] in_stream(
                words,
                multichannel,
                run[0],
                j,
            )) implies parts(words, multichannel, run.last(), i) by {
        let p = lemma_stream_place(words, multichannel, at, lo, i);
        if p < hi - 1 {
            assert(at[p] < at[hi - 1]);
        }
        if p > hi {
            assert(at[hi - 1] < at[hi] && at[hi] < at[p]);
            lemma_stream_member(words, multichannel, at, lo, hi);
        }
        assert(p == hi);
        lemma_cut(ws, multichannel, b, k + 1);
        assert(ws[hi - 1] == words[at[hi - 1]] && ws[hi] == words[at[hi]]);
    }
}

proof fn lemma_utterance_tells(
    words: Seq<WordView>,
    multichannel: bool,
    now: Stamp,
    run: Seq<int>,
    group: Seq<WordView>,
)
    requires
        run.len() == group.len(),
        run.len() > 0,
        forall|m: int| 0 <= m < run.len() ==> group[m] == words[#[trigger] run[m]],
    ensures
        tells(words, multichannel, now, run, utterance(group, multichannel, now)),
{
    reveal(tells);
    assert(group[0] == words[run[0]]);
    assert(group[group.len() - 1] == words[run[run.len() - 1]]);
    assert(word_texts(group) =~= Seq::new(run.len(), |m: int| words[run[m]].text));
}

/// The runs of a stream: one for each of its utterances, in order, and together
/// all of its words.
proof fn lemma_stream_runs(
    words: Seq<WordView>,
    multichannel: bool,
    now: Stamp,
    ws: Seq<WordView>,
    at: Seq<int>,
) -> (runs: Seq<Seq<int>>)
    requires
        picks(words, at, ws),
        is_stream(words, multichannel, at),
    ensures
        runs.len() == utterances(ws, multichannel, now).len(),
        forall|k: int|
            0 <= k < runs.len() ==> is_utterance(words, multichannel, #[trigger] runs[k]) && tells(
                words,
                multichannel,
                now,
                runs[k],
                utterances(ws, multichannel, now)[k],
            ),
        forall|k: int, l: int|
            0 <= k < l < runs.len() ==> (#[trigger] runs[k]).last() < (#[trigger] runs[l])[0],
        forall|k: int, m: int|
            0 <= k < runs.len() && 0 <= m < runs[k].len() ==> at.contains(#[trigger] runs[k][m]),
        forall|i: int| #[trigger]
            at.contains(i) ==> exists|k: int|
                0 <= k < runs.len() && (#[trigger] runs[k]).contains(i),
{
    let gs = groups(ws, multichannel);
    let b = lemma_group_bounds(ws, multichannel);
    let runs = Seq::new(gs.len(), |k: int| at.subrange(b[k], b[k + 1]));
    let segs = utterances(ws, multichannel, now);
    assert forall|k: int| 0 <= k < runs.len() implies is_utterance(
        words,
        multichannel,
        #[trigger] runs[k],
    ) && tells(words, multichannel, now, runs[k], segs[k]) by {
        let run = runs[k];
        assert(gs[k] == ws.subrange(b[k], b[k + 1]));
        lemma_run_is_utterance(words, multichannel, ws, at, b, k);
        assert forall|m: int| 0 <= m < run.len() implies gs[k][m] == words[#[trigger] run[m]] by {
            assert(run[m] == at[b[k] + m]);
            assert(ws[b[k] + m] == words[at[b[k] + m]]);
        }
        lemma_utterance_tells(words, multichannel, now, run, gs[k]);
        assert(segs[k] == utterance(gs[k], multichannel, now));
    }
    assert forall|k: int, l: int| 0 <= k < l < runs.len() implies (#[trigger] runs[k]).last() < (
    #[trigger] runs[l])[0] by {
        assert(gs[k] == ws.subrange(b[k], b[k + 1]));
        assert(gs[l] == ws.subrange(b[l], b[l + 1]));
        if k + 1 < l {
            assert(b[k + 1] < b[l]);
        }
        assert(runs[k].last() == at[b[k + 1] - 1]);
        assert(runs[l][0] == at[b[l]]);
        assert(at[b[k + 1] - 1] < at[b[l]]);
    }
    assert forall|k: int, m: int|
        0 <= k < runs.len() && 0 <= m < runs[k].len() implies at.contains(#[trigger] runs[k][m]) by {
        assert(gs[k] == ws.subrange(b[k], b[k + 1]));
        assert(runs[k][m] == at[b[k] + m]);
    }
    assert forall|i: int| #[trigger] at.contains(i) implies exists|k: int|
        0 <= k < runs.len() && (#[trigger] runs[k]).contains(i) by {
        let p = choose|p: int| 0 <= p < at.len() && at[p] == i;
        let k = lemma_between(b, p);
        assert(gs[k] == ws.subrange(b[k], b[k + 1]));
        assert(runs[k][p - b[k]] == i);
        assert(runs[k].contains(i));
    }
    runs
}

proof fn lemma_between(b: Seq<int>, p: int) -> (k: int)
    requires
        b.len() > 1,
        b[0] <= p < b.last(),
    ensures
        0 <= k < b.len() - 1,
        b[k] <= p < b[k + 1],
    decreases b.len(),
{
    if b[b.len() - 2] <= p {
        b.len() - 2
    } else {
        let front = b.drop_last();
        lemma_between(front, p)
    }
}

/// The runs of the streams of some speakers, one stream after the other.
proof fn lemma_streams_runs(words: Seq<WordView>, ids: Seq<Seq<char>>, now: Stamp) -> (runs: Seq<
    Seq<int>,
>)
    requires
        ids.no_duplicates(),
    ensures
        runs.len() == by_speaker(spoken(words), ids, now).len(),
        forall|k: int|
            0 <= k < runs.len() ==> is_utterance(words, true, #[trigger] runs[k]) && tells(
                words,
                true,
                now,
                runs[k],
                by_speaker(spoken(words), ids, now)[k],
            ),
        forall|k: int, l: int|
            0 <= k < l < runs.len() ==> (#[trigger] runs[k])[0] != (#[trigger] runs[l])[0],
        forall|k: int|
            0 <= k < runs.len() ==> ids.contains(words[(#[trigger] runs[k])[0]].speaker_id),
        forall|i: int| #[trigger]
            is_spoken(words, i) && ids.contains(words[i].speaker_id) ==> exists|k: int|
                0 <= k < runs.len() && (#[trigger] runs[k]).contains(i),
    decreases ids.len(),
{
    if ids.len() == 0 {
        seq![]
    } else {
        let id = ids.last();
        let front = ids.drop_last();
        let before = lemma_streams_runs(words, front, now);
        let sp = spoken(words);
        let all = lemma_spoken_at(words);
        let mine = lemma_speaker_at(sp, id);
        let ws = of_speaker(sp, id);
        let at = Seq::new(mine.len(), |k: int| all[mine[k]]);
        assert forall|j: int| #[trigger] at.contains(j) <==> (is_spoken(words, j)
            && words[j].speaker_id == id) by {
            if at.contains(j) {
                let k = choose|k: int| 0 <= k < at.len() && at[k] == j;
                assert(mine.contains(mine[k]));
                assert(all.contains(all[mine[k]]));
                assert(is_spoken(words, j));
            }
            if is_spoken(words, j) && words[j].speaker_id == id {
                assert(all.contains(j));
                let q = choose|q: int| 0 <= q < all.len() && all[q] == j;
                assert(sp[q] == words[all[q]]);
                assert(mine.contains(q));
                let k = choose|k: int| 0 <= k < mine.len() && mine[k] == q;
                assert(at[k] == j);
            }
        }
        assert(picks(words, at, ws)) by {
            assert forall|k: int| 0 <= k < at.len() implies 0 <= #[trigger] at[k] < words.len() by {
                assert(at.contains(at[k]));
            }
            assert forall|k: int| 0 <= k < at.len() implies ws[k] == words[#[trigger] at[k]] by {
                assert(ws[k] == sp[mine[k]]);
                assert(sp[mine[k]] == words[all[mine[k]]]);
            }
            assert forall|k: int, l: int| 0 <= k < l < at.len() implies #[trigger] at[k] < #[trigger] at[l] by {
                assert(mine[k] < mine[l]);
                assert(all[mine[k]] < all[mine[l]]);
            }
        }
        assert(is_stream(words, true, at)) by {
            reveal(is_stream);
        }
        let more = lemma_stream_runs(words, true, now, ws, at);
        let runs = before + more;
        let n = before.len() as int;
        let segs = by_speaker(sp, ids, now);
        assert(segs == by_speaker(sp, front, now) + utterances(ws, true, now));
        assert forall|k: int| 0 <= k < runs.len() implies is_utterance(
            words,
            true,
            #[trigger] runs[k],
        ) && tells(words, true, now, runs[k], segs[k]) && ids.contains(
            words[runs[k][0]].speaker_id,
        ) by {
            if k < n {
                assert(runs[k] == before[k]);
                assert(front.contains(words[before[k][0]].speaker_id));
                let m = choose|m: int|
                    0 <= m < front.len() && front[m] == words[before[k][0]].speaker_id;
                assert(ids[m] == words[runs[k][0]].speaker_id);
            } else {
                assert(runs[k] == more[k - n]);
                lemma_utterance_order(words, true, more[k - n]);
                assert(at.contains(more[k - n][0]));
                assert(ids[ids.len() - 1] == id);
            }
        }
        assert forall|k: int, l: int| 0 <= k < l < runs.len() implies (#[trigger] runs[k])[0] != (
        #[trigger] runs[l])[0] by {
            if l < n {
                assert(before[k][0] != before[l][0]);
            } else if k >= n {
                assert(more[k - n].last() < more[l - n][0]);
                lemma_utterance_order(words, true, more[k - n]);
            } else {
                assert(front.contains(words[before[k][0]].speaker_id));
                lemma_utterance_order(words, true, more[l - n]);
                assert(at.contains(more[l - n][0]));
                let m = choose|m: int|
                    0 <= m < front.len() && front[m] == words[before[k][0]].speaker_id;
                assert(ids[m] != ids[ids.len() - 1]);
            }
        }
        assert forall|i: int| #[trigger]
            is_spoken(words, i) && ids.contains(words[i].speaker_id) implies exists|k: int|
            0 <= k < runs.len() && (#[trigger] runs[k]).contains(i) by {
            if words[i].speaker_id == id {
                assert(at.contains(i));
                let k = choose|k: int| 0 <= k < more.len() && (#[trigger] more[k]).contains(i);
                assert(runs[n + k].contains(i));
            } else {
                let m = choose|m: int| 0 <= m < ids.len() && ids[m] == words[i].speaker_id;
                assert(front[m] == words[i].speaker_id);
                assert(front.contains(words[i].speaker_id));
                let k = choose|k: int| 0 <= k < before.len() && (#[trigger] before[k]).contains(i);
                assert(runs[k].contains(i));
            }
        }
        runs
    }
}

proof fn lemma_insertion(list: Seq<SegmentView>, seg: SegmentView) -> (p: int)
    ensures
        0 <= p <= list.len(),
        inserted(list, seg) == list.insert(p, seg),
    decreases list.len(),
{
    if list.len() == 0 || list.last().start_time <= seg.start_time {
        assert(list.push(seg) =~= list.insert(list.len() as int, seg));
        list.len() as int
    } else {
        let p = lemma_insertion(list.drop_last(), seg);
        assert(list.drop_last().insert(p, seg).push(list.last()) =~= list.insert(p, seg));
        p
    }
}

/// The places that sorted segments had before they were sorted.
proof fn lemma_sorted_places(list: Seq<SegmentView>) -> (perm: Seq<int>)
    ensures
        perm.len() == list.len(),
        by_start(list).len() == list.len(),
        forall|k: int| 0 <= k < perm.len() ==> 0 <= #[trigger] perm[k] < list.len(),
        forall|k: int| 0 <= k < perm.len() ==> by_start(list)[k] == list[#[trigger] perm[k]],
        forall|k: int, l: int| 0 <= k < l < perm.len() ==> #[trigger] perm[k] != #[trigger] perm[l],
        forall|i: int| 0 <= i < list.len() ==> #[trigger] perm.contains(i),
    decreases list.len(),
{
    if list.len() == 0 {
        seq![]
    } else {
        let front = list.drop_last();
        let n = front.len() as int;
        let before = lemma_sorted_places(front);
        let sorted = by_start(front);
        let p = lemma_insertion(sorted, list.last());
        let perm = before.insert(p, n);
        assert(by_start(list) == sorted.insert(p, list.last()));
        assert forall|k: int| 0 <= k < perm.len() implies 0 <= #[trigger] perm[k] < list.len()
            && by_start(list)[k] == list[perm[k]] by {
            if k < p {
                assert(perm[k] == before[k]);
            } else if k > p {
                assert(perm[k] == before[k - 1]);
            }
        }
        assert forall|k: int, l: int| 0 <= k < l < perm.len() implies #[trigger] perm[k] != #[trigger] perm[l] by {
            let a = if k < p {
                k
            } else {
                k - 1
            };
            let c = if l < p {
                l
            } else {
                l - 1
            };
            if k == p {
                assert(perm[l] == before[c]);
            } else if l == p {
                assert(perm[k] == before[a]);
            } else {
                assert(perm[k] == before[a] && perm[l] == before[c]);
            }
        }
        assert forall|i: int| 0 <= i < list.len() implies #[trigger] perm.contains(i) by {
            if i == n {
                assert(perm[p] == n);
            } else {
                assert(before.contains(i));
                let k = choose|k: int| 0 <= k < before.len() && before[k] == i;
                if k < p {
                    assert(perm[k] == i);
                } else {
                    assert(perm[k + 1] == i);
                }
            }
        }
        perm
    }
}

/// The segments of a reply tell its utterances one for one, whether speakers are
/// told apart by channel or not: each segment is one utterance, from the start of
/// its first word to the end of its last, no utterance is left out or told twice,
/// and no word proper is lost. The segments stand in the order of their start
/// where speakers are told apart by channel, else in that of the words.
pub proof fn segments_tell_the_utterances(
    text: Seq<char>,
    words: Seq<WordView>,
    multichannel: bool,
    now: Stamp,
) -> (runs: Seq<Seq<int>>)
    requires
        multichannel || exists|i: int| is_spoken(words, i),
    ensures
        tell_all(
            words,
            multichannel,
            now,
            runs,
            reply_segments(text, words, multichannel, now),
        ),
        multichannel ==> forall|k: int, l: int|
            0 <= k <= l < runs.len() ==> words[(#[trigger] runs[k])[0]].start <= words[(
            #[trigger] runs[l])[0]].start,
        !multichannel ==> forall|k: int, l: int|
            0 <= k < l < runs.len() ==> (#[trigger] runs[k]).last() < (#[trigger] runs[l])[0],
{
    let segs = reply_segments(text, words, multichannel, now);
    let ws = spoken(words);
    let at = lemma_spoken_at(words);
    if multichannel {
        let ids = speaker_ids(ws);
        let list = by_speaker(ws, ids, now);
        every_word_has_a_speaker(ws);
        let before = lemma_streams_runs(words, ids, now);
        let perm = lemma_sorted_places(list);
        let runs = Seq::new(perm.len(), |k: int| before[perm[k]]);
        sorting_is_stable(list);
        assert forall|k: int| 0 <= k < runs.len() implies is_utterance(
            words,
            true,
            #[trigger] runs[k],
        ) && tells(words, true, now, runs[k], segs[k]) by {
            assert(runs[k] == before[perm[k]]);
            assert(segs[k] == list[perm[k]]);
        }
        assert forall|k: int, l: int| 0 <= k < l < runs.len() implies (#[trigger] runs[k])[0] != (
        #[trigger] runs[l])[0] by {
            assert(perm[k] != perm[l]);
            if perm[k] < perm[l] {
                assert(before[perm[k]][0] != before[perm[l]][0]);
            } else {
                assert(before[perm[l]][0] != before[perm[k]][0]);
            }
        }
        assert forall|i: int| #[trigger] is_spoken(words, i) implies exists|k: int|
            0 <= k < runs.len() && (#[trigger] runs[k]).contains(i) by {
            assert(at.contains(i));
            let q = choose|q: int| 0 <= q < at.len() && at[q] == i;
            assert(ws[q] == words[at[q]]);
            assert(ids.contains(ws[q].speaker_id));
            let j = choose|j: int| 0 <= j < before.len() && (#[trigger] before[j]).contains(i);
            assert(perm.contains(j));
            let k = choose|k: int| 0 <= k < perm.len() && perm[k] == j;
            assert(runs[k].contains(i));
        }
        assert forall|k: int, l: int| 0 <= k <= l < runs.len() implies words[(
        #[trigger] runs[k])[0]].start <= words[(#[trigger] runs[l])[0]].start by {
            reveal(tells);
            assert(segs[k].start_time <= segs[l].start_time);
            assert(tells(words, true, now, runs[k], segs[k]));
            assert(tells(words, true, now, runs[l], segs[l]));
        }
        runs
    } else {
        let i = choose|i: int| is_spoken(words, i);
        assert(at.contains(i));
        assert(ws.len() > 0);
        assert(is_stream(words, false, at)) by {
            reveal(is_stream);
        }
        let runs = lemma_stream_runs(words, false, now, ws, at);
        assert forall|k: int, l: int| 0 <= k < l < runs.len() implies (#[trigger] runs[k])[0] != (
        #[trigger] runs[l])[0] by {
            assert(runs[k].last() < runs[l][0]);
            lemma_utterance_order(words, false, runs[k]);
        }
        assert forall|i: int| #[trigger] is_spoken(words, i) implies exists|k: int|
            0 <= k < runs.len() && (#[trigger] runs[k]).contains(i) by {
            assert(at.contains(i));
        }
        runs
    }
}

/// Where speakers are told apart by channel, the first word that a speaker says
/// begins one of their segments: the segment starts when the word does.
pub proof fn speakers_begin_with_their_first_word(
    text: Seq<char>,
    words: Seq<WordView>,
    now: Stamp,
    i: int,
)
    requires
        is_spoken(words, i),
        forall|j: int|
            0 <= j < i && #[trigger] is_spoken(words, j) ==> words[j].speaker_id
                != words[i].speaker_id,
    ensures
        exists|k: int|
            0 <= k < reply_segments(text, words, true, now).len() && (#[trigger] reply_segments(
                text,
                words,
                true,
                now,
            )[k]).start_time == words[i].start && reply_segments(text, words, true, now)[k].speaker
                == channel_label(words[i].speaker_id),
{
    let segs = reply_segments(text, words, true, now);
    let runs = segments_tell_the_utterances(text, words, true, now);
    let k = choose|k: int| 0 <= k < runs.len() && (#[trigger] runs[k]).contains(i);
    let run = runs[k];
    lemma_utterance_order(words, true, run);
    let m = choose|m: int| 0 <= m < run.len() && run[m] == i;
    assert(run[0] <= run[m]);
    reveal(tells);
    assert(tells(words, true, now, run, segs[k]));
    assert(segs[k].start_time == words[i].start);
}

/// A reply without words proper is told as a whole, by its text, where speakers
/// are not told apart by channel; a reply without a text then brings nothing, and
/// neither does one whose channels hold no word.
pub proof fn replies_without_words_are_told_whole(
    text: Seq<char>,
    words: Seq<WordView>,
    now: Stamp,
)
    requires
        forall|i: int| !is_spoken(words, i),
    ensures
        text.len() == 0 ==> reply_segments(text, words, false, now).len() == 0,
        text.len() > 0 ==> reply_segments(text, words, false, now).len() == 1 && reply_segments(
            text,
            words,
            false,
            now,
        )[0].text == text && reply_segments(text, words, false, now)[0].is_final,
        reply_segments(text, words, true, now).len() == 0,
{
    let at = lemma_spoken_at(words);
    if at.len() > 0 {
        assert(at.contains(at[0]));
        assert(is_spoken(words, at[0]));
    }
    assert(spoken(words).len() == 0);
    let runs = segments_tell_the_utterances(text, words, true, now);
    if runs.len() > 0 {
        lemma_utterance_order(words, true, runs[0]);
    }
}

} // verus!

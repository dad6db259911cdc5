//! User-editable glossary of domain vocabulary (names, product names, jargon).
//!
//! Free-form text, one term or phrase per line (blank lines and `#` comments
//! ignored). It is fed to two places to correct words that generic models get
//! wrong: to speech-to-text as key terms, which bias transcription toward these
//! spellings at the source, and to the language model's prompts, so that derived
//! text uses the same spellings.

use crate::paths::{join_path, path_join};
use crate::text::{
    all_white, chars_of, concat2, join, joined, lines, lines_of, same, string_of, texts, trim_chars,
    trimmed, trimming_strips_both_ends,
};
use vstd::prelude::*;

verus! {

broadcast use vstd::string::group_string_axioms;

/// The most key terms that a provider takes.
pub const MAX_KEYTERMS: usize = 1000;

/// The most characters of a key term.
pub const MAX_KEYTERM_LEN: usize = 50;

/// The user's settings.
#[derive(Debug)]
pub struct Settings {
    /// Raw glossary text, exactly as the user typed it.
    pub glossary: String,
}

/// The term of a glossary line, if it has one: trimmed, and cut to the length
/// that a provider takes.
pub open spec fn term_of(line: Seq<char>) -> Option<Seq<char>> {
    let term = trimmed(line);
    if term.len() == 0 || term[0] == '#' {
        None
    } else if term.len() > MAX_KEYTERM_LEN {
        Some(term.take(MAX_KEYTERM_LEN as int))
    } else {
        Some(term)
    }
}

/// The terms of a list of glossary lines, each once, in order, no more than a
/// provider takes.
pub open spec fn terms_in(ls: Seq<Seq<char>>) -> Seq<Seq<char>>
    decreases ls.len(),
{
    if ls.len() == 0 {
        seq![]
    } else {
        let before = terms_in(ls.drop_last());
        match term_of(ls.last()) {
            Some(t) => if before.len() >= MAX_KEYTERMS || before.contains(t) {
                before
            } else {
                before.push(t)
            },
            None => before,
        }
    }
}

/// The key terms of a glossary.
pub open spec fn glossary_terms(glossary: Seq<char>) -> Seq<Seq<char>> {
    terms_in(lines_of(glossary))
}

/// What precedes the terms in a prompt.
pub open spec fn prompt_head() -> Seq<char> {
    "The transcript may contain names, product names, and domain-specific terms that speech-to-text can mis-spell. Below is a glossary of their correct spellings. When a term that clearly refers to one of these appears (including phonetically similar mis-transcriptions), use the glossary spelling exactly:\n"@
}

/// The terms as a list, one on each line.
pub open spec fn listed(terms: Seq<Seq<char>>) -> Seq<Seq<char>> {
    terms.map_values(|t: Seq<char>| "- "@ + t)
}

/// The instruction that a glossary adds to prompts; none where it has no terms.
pub open spec fn glossary_prompt(glossary: Seq<char>) -> Option<Seq<char>> {
    let terms = glossary_terms(glossary);
    if terms.len() == 0 {
        None
    } else {
        Some(prompt_head() + joined(listed(terms), "\n"@))
    }
}

proof fn lemma_terms_full(ls: Seq<Seq<char>>, i: int)
    requires
        0 <= i <= ls.len(),
        terms_in(ls.take(i)).len() >= MAX_KEYTERMS,
    ensures
        terms_in(ls) == terms_in(ls.take(i)),
    decreases ls.len(),
{
    if i == ls.len() {
        assert(ls.take(i) =~= ls);
    } else {
        assert(ls.drop_last().take(i) =~= ls.take(i));
        lemma_terms_full(ls.drop_last(), i);
    }
}

fn line_term(line: &[char]) -> (r: Option<String>)
    ensures
        crate::text::opt_text(r) == term_of(line@),
{
    let term = trim_chars(line);
    if term.len() == 0 || term[0] == '#' {
        None
    } else if term.len() > MAX_KEYTERM_LEN {
        let cut = vstd::slice::slice_subrange(&term, 0, MAX_KEYTERM_LEN);
        assert(cut@ =~= term@.take(MAX_KEYTERM_LEN as int));
        Some(string_of(cut))
    } else {
        Some(string_of(&term))
    }
}

fn holds(list: &[String], t: &str) -> (r: bool)
    ensures
        r == texts(list@).contains(t@),
{
    let mut i: usize = 0;
    while i < list.len()
        invariant
            i <= list@.len(),
            forall|k: int| 0 <= k < i ==> texts(list@)[k] != t@,
        decreases list@.len() - i,
    {
        if same(list[i].as_str(), t) {
            assert(texts(list@)[i as int] == t@);
            return true;
        }
        i += 1;
    }
    false
}

/// Where the glossary is kept below the user's home.
pub open spec fn glossary_file(home: Seq<char>) -> Seq<char> {
    path_join(path_join(home, ".yogurt"@), "glossary.txt"@)
}

/// Where the glossary is kept below the user's home, which is empty where it is
/// not known.
pub fn glossary_path(home: &str) -> (r: String)
    ensures
        r@ == glossary_file(home@),
{
    join_path(join_path(home, ".yogurt").as_str(), "glossary.txt")
}

impl Settings {
    /// The settings by what the glossary file holds; the glossary is empty where
    /// the file cannot be read.
    pub fn load(contents: Option<String>) -> (r: Settings)
        ensures
            r.glossary@ == (match contents {
                Some(text) => text@,
                None => Seq::<char>::empty(),
            }),
    {
        match contents {
            Some(glossary) => Settings { glossary },
            None => Settings { glossary: String::new() },
        }
    }

    /// Glossary terms for key term biasing: one per non-empty, non-comment line,
    /// trimmed and deduped, clamped to the provider's length and count caps.
    pub fn keyterms(&self) -> (r: Vec<String>)
        ensures
            texts(r@) == glossary_terms(self.glossary@),
    {
        let chars = chars_of(self.glossary.as_str());
        let source = lines(&chars);
        let ghost ls = lines_of(self.glossary@);
        let mut out: Vec<String> = Vec::new();
        let mut i: usize = 0;
        assert(ls.take(0) =~= Seq::<Seq<char>>::empty());
        assert(texts(out@) =~= Seq::<Seq<char>>::empty());
        while i < source.len()
            invariant
                i <= source@.len(),
                ls == lines_of(self.glossary@),
                ls == source@.map_values(|l: Vec<char>| l@),
                out@.len() < MAX_KEYTERMS,
                texts(out@) == terms_in(ls.take(i as int)),
            decreases source@.len() - i,
        {
            assert(ls.take(i + 1).drop_last() =~= ls.take(i as int));
            assert(ls.take(i + 1).last() == source@[i as int]@);
            if let Some(term) = line_term(&source[i]) {
                if !holds(&out, term.as_str()) {
                    let ghost before = texts(out@);
                    let ghost t = term@;
                    out.push(term);
                    assert(texts(out@) =~= before.push(t));
                }
            }
            i += 1;
            if out.len() >= MAX_KEYTERMS {
                proof {
                    lemma_terms_full(ls, i as int);
                }
                return out;
            }
        }
        assert(ls.take(i as int) =~= ls);
        out
    }

    /// Instruction block injected into prompts. `None` when the glossary is
    /// empty, so prompts stay unchanged for users who never set one.
    pub fn llm_prompt(&self) -> (r: Option<String>)
        ensures
            crate::text::opt_text(r) == glossary_prompt(self.glossary@),
    {
        let terms = self.keyterms();
        if terms.len() == 0 {
            return None;
        }
        let ghost ts = texts(terms@);
        let mut items: Vec<String> = Vec::new();
        let mut i: usize = 0;
        assert(texts(items@) =~= listed(ts).take(0));
        while i < terms.len()
            invariant
                i <= terms@.len(),
                ts == texts(terms@),
                texts(items@) == listed(ts).take(i as int),
            decreases terms@.len() - i,
        {
            let ghost before = texts(items@);
            items.push(concat2("- ", terms[i].as_str()));
            assert(texts(items@) =~= before.push("- "@ + ts[i as int]));
            assert(listed(ts).take(i + 1) =~= listed(ts).take(i as int).push("- "@ + ts[i as int]));
            i += 1;
        }
        assert(listed(ts).take(i as int) =~= listed(ts));
        let list = join(&items, "\n");
        Some(
            concat2(
                "The transcript may contain names, product names, and domain-specific terms that speech-to-text can mis-spell. Below is a glossary of their correct spellings. When a term that clearly refers to one of these appears (including phonetically similar mis-transcriptions), use the glossary spelling exactly:\n",
                list.as_str(),
            ),
        )
    }
}

/// Key terms keep to the provider's limits, are not empty and not repeated, and
/// each is the term of a line of the glossary.
pub proof fn keyterms_keep_limits(ls: Seq<Seq<char>>)
    ensures
        terms_in(ls).len() <= MAX_KEYTERMS,
        terms_in(ls).no_duplicates(),
        forall|i: int|
            0 <= i < terms_in(ls).len() ==> 0 < (#[trigger] terms_in(ls)[i]).len()
                <= MAX_KEYTERM_LEN,
        forall|i: int|
            0 <= i < terms_in(ls).len() ==> exists|k: int|
                0 <= k < ls.len() && term_of(#[trigger] ls[k]) == Some(#[trigger] terms_in(ls)[i]),
    decreases ls.len(),
{
    if ls.len() > 0 {
        let front = ls.drop_last();
        let before = terms_in(front);
        keyterms_keep_limits(front);
        assert forall|i: int| 0 <= i < terms_in(ls).len() implies exists|k: int|
            0 <= k < ls.len() && term_of(#[trigger] ls[k]) == Some(#[trigger] terms_in(ls)[i]) by {
            if i < before.len() {
                assert(terms_in(ls)[i] == before[i]);
                let k = choose|k: int|
                    0 <= k < front.len() && term_of(#[trigger] front[k]) == Some(before[i]);
                assert(term_of(ls[k]) == Some(terms_in(ls)[i]));
            } else {
                assert(term_of(ls[ls.len() - 1]) == Some(terms_in(ls)[i]));
            }
        }
    }
}

/// What a glossary's line stands for: a term of fifty characters or fewer for
/// itself, without the whitespace around it; a longer one for its first fifty
/// characters; an empty line or a comment for nothing.
pub proof fn lines_stand_for_terms(front: Seq<char>, term: Seq<char>, back: Seq<char>)
    requires
        all_white(front),
        all_white(back),
        term.len() > 0 ==> !crate::text::is_whitespace(term[0]) && !crate::text::is_whitespace(
            term.last(),
        ),
    ensures
        term.len() == 0 ==> term_of(front + term + back) is None,
        term.len() > 0 && term[0] == '#' ==> term_of(front + term + back) is None,
        0 < term.len() <= 50 && term[0] != '#' ==> term_of(front + term + back) == Some(term),
        term.len() > 50 && term[0] != '#' ==> term_of(front + term + back) == Some(term.take(50)),
{
    trimming_strips_both_ends(front, term, back);
}

/// Every line's term is among the key terms, as long as there is room for it;
/// terms stand in the order of the lines they come from first.
pub proof fn every_term_is_used(ls: Seq<Seq<char>>, k: int)
    requires
        0 <= k < ls.len(),
        terms_in(ls).len() < 1000,
    ensures
        term_of(ls[k]) matches Some(t) ==> terms_in(ls).contains(t),
        terms_in(ls.take(k)).is_prefix_of(terms_in(ls)),
    decreases ls.len(),
{
    let front = ls.drop_last();
    let before = terms_in(front);
    let all = terms_in(ls);
    assert(before.is_prefix_of(all)) by {
        assert(all.take(before.len() as int) =~= before);
    }
    if k == ls.len() - 1 {
        assert(ls.take(k) =~= front);
        if let Some(t) = term_of(ls[k]) {
            if before.contains(t) {
                let i = choose|i: int| 0 <= i < before.len() && before[i] == t;
                assert(all[i] == t);
            } else {
                assert(all[before.len() as int] == t);
            }
        }
    } else {
        every_term_is_used(front, k);
        assert(front[k] == ls[k]);
        assert(front.take(k) =~= ls.take(k));
        let early = terms_in(ls.take(k));
        assert(all.take(early.len() as int) =~= early) by {
            assert(before.take(early.len() as int) == early);
        }
        if let Some(t) = term_of(ls[k]) {
            let i = choose|i: int| 0 <= i < before.len() && before[i] == t;
            assert(all[i] == t);
        }
    }
}

/// A glossary without terms adds nothing to prompts. One with terms adds an
/// instruction that lists each of them on a line of its own, behind a dash.
pub proof fn prompts_list_every_term(glossary: Seq<char>)
    ensures
        glossary_terms(glossary).len() == 0 <==> glossary_prompt(glossary) is None,
        glossary_prompt(glossary) matches Some(p) ==> {
            let lines = glossary_terms(glossary).map_values(|t: Seq<char>| seq!['-', ' '] + t);
            &&& p.len() >= joined(lines, "\n"@).len()
            &&& p.skip(p.len() - joined(lines, "\n"@).len()) == joined(lines, "\n"@)
        },
        glossary_terms(seq![]).len() == 0,
{
    reveal_strlit("- ");
    assert("- "@ =~= seq!['-', ' ']);
    let ts = glossary_terms(glossary);
    let lines = ts.map_values(|t: Seq<char>| seq!['-', ' '] + t);
    assert(lines =~= listed(ts));
    if let Some(p) = glossary_prompt(glossary) {
        assert(p.skip(p.len() - joined(lines, "\n"@).len()) =~= joined(lines, "\n"@));
    }
}

} // verus!

//! Wrapping and cutting of text by its width on a terminal.

use crate::text::{chars_of, lines, lines_of, string_of, texts, words, words_of};
use unicode_width::UnicodeWidthStr;
use vstd::prelude::*;

verus! {

broadcast use vstd::string::group_string_axioms;

/// Whether a text holds only printable ASCII characters and ellipses.
pub open spec fn is_narrow(s: Seq<char>) -> bool {
    forall|i: int| 0 <= i < s.len() ==> (' ' <= #[trigger] s[i] <= '~' || s[i] == '\u{2026}')
}

/// The number of terminal columns that a text takes, as the `unicode-width`
/// crate measures it by its tables.
pub uninterp spec fn table_width(s: Seq<char>) -> nat;

/// The number of terminal columns that a text takes. A printable ASCII character
/// takes one, and so does an ellipsis.
pub open spec fn width_of(s: Seq<char>) -> nat {
    if is_narrow(s) {
        s.len()
    } else {
        table_width(s)
    }
}

/// `UnicodeWidthStr::width` measures a text in terminal columns by the Unicode
/// tables; the measure is named by [`table_width`]. Printable ASCII characters
/// and ellipses take a column each beside one another.
#[verifier::external_body]
pub(crate) fn display_width(s: &str) -> (r: usize)
    ensures
        r == (if is_narrow(s@) {
            s@.len()
        } else {
            table_width(s@)
        }),
{
    UnicodeWidthStr::width(s)
}

/// The width of a single character.
pub open spec fn char_width(c: char) -> nat {
    width_of(seq![c])
}

/// How many characters from `from` on fit: the first position at which the
/// widths of the characters, added up from `used`, exceed `limit`.
pub open spec fn fit_from(s: Seq<char>, from: int, used: nat, limit: nat) -> int
    decreases s.len() - from,
{
    if from >= s.len() || used + char_width(s[from]) > limit {
        from
    } else {
        fit_from(s, from + 1, used + char_width(s[from]), limit)
    }
}

/// How many of the first characters fit into `limit` columns.
pub open spec fn fit_len(s: Seq<char>, limit: nat) -> int {
    fit_from(s, 0, 0, limit)
}

/// The sum of the characters' widths.
pub open spec fn total_width(s: Seq<char>) -> nat
    decreases s.len(),
{
    if s.len() == 0 {
        0
    } else {
        total_width(s.drop_last()) + char_width(s.last())
    }
}

/// The characters that fit take no more than the limit, and one more would not
/// fit.
proof fn lemma_fit_from(s: Seq<char>, from: int, used: nat, limit: nat)
    requires
        0 <= from <= s.len(),
        used == total_width(s.take(from)),
        used <= limit,
    ensures
        from <= fit_from(s, from, used, limit) <= s.len(),
        total_width(s.take(fit_from(s, from, used, limit))) <= limit,
        fit_from(s, from, used, limit) < s.len() ==> total_width(
            s.take(fit_from(s, from, used, limit) + 1),
        ) > limit,
    decreases s.len() - from,
{
    if from < s.len() {
        assert(s.take(from + 1).drop_last() =~= s.take(from));
        if used + char_width(s[from]) <= limit {
            lemma_fit_from(s, from + 1, used + char_width(s[from]), limit);
        }
    }
}

/// [`fit_len`] is the longest front part whose characters fit into the limit.
pub proof fn fit_is_longest(s: Seq<char>, limit: nat)
    ensures
        0 <= fit_len(s, limit) <= s.len(),
        total_width(s.take(fit_len(s, limit))) <= limit,
        fit_len(s, limit) < s.len() ==> total_width(s.take(fit_len(s, limit) + 1)) > limit,
{
    assert(s.take(0) =~= Seq::<char>::empty());
    lemma_fit_from(s, 0, 0, limit);
}

fn fit(s: &[char], limit: usize) -> (r: usize)
    ensures
        r == fit_len(s@, limit as nat),
        r <= s@.len(),
{
    let mut used: usize = 0;
    let mut i: usize = 0;
    while i < s.len()
        invariant
            i <= s@.len(),
            used <= limit,
            fit_len(s@, limit as nat) == fit_from(s@, i as int, used as nat, limit as nat),
        decreases s@.len() - i,
    {
        let mut one = String::new();
        one.push(s[i]);
        assert(one@ =~= seq![s@[i as int]]);
        let cw = display_width(one.as_str());
        if cw > limit - used {
            return i;
        }
        used = used + cw;
        i += 1;
    }
    i
}

// ---------------------------------------------------------------------------
// Wrapping
// ---------------------------------------------------------------------------

/// Wrapped lines so far, and the line being filled.
pub struct Wrapping {
    pub done: Seq<Seq<char>>,
    pub line: Seq<char>,
}

/// Whether a line that is too wide can be broken: some but not all of its
/// characters fit.
pub open spec fn breakable(line: Seq<char>, width: nat) -> bool {
    width_of(line) > width && 0 < fit_len(line, width) < line.len()
}

/// Breaks a line that is too wide into lines that fit; what cannot be broken
/// further is the line being filled.
pub open spec fn hard_break(w: Wrapping, width: nat) -> Wrapping
    decreases w.line.len(),
{
    if breakable(w.line, width) {
        let n = fit_len(w.line, width);
        hard_break(
            Wrapping { done: w.done.push(w.line.take(n)), line: w.line.skip(n) },
            width,
        )
    } else {
        w
    }
}

/// Adds a word to the line being filled, or begins a new line with it where it
/// does not fit.
pub open spec fn place_word(w: Wrapping, word: Seq<char>, width: nat) -> Wrapping {
    if w.line.len() == 0 {
        Wrapping { line: word, ..w }
    } else if width_of(w.line) + 1 + width_of(word) <= width {
        Wrapping { line: w.line.push(' ') + word, ..w }
    } else {
        Wrapping { done: w.done.push(w.line), line: word }
    }
}

/// The words of one input line, wrapped.
pub open spec fn wrap_words(words: Seq<Seq<char>>, width: nat) -> Wrapping
    decreases words.len(),
{
    if words.len() == 0 {
        Wrapping { done: seq![], line: seq![] }
    } else {
        hard_break(place_word(wrap_words(words.drop_last(), width), words.last(), width), width)
    }
}

/// The output lines of one input line: an empty line stays, a line of blanks
/// vanishes.
pub open spec fn wrap_line(line: Seq<char>, width: nat) -> Seq<Seq<char>> {
    if line.len() == 0 {
        seq![line]
    } else {
        let w = wrap_words(words_of(line), width);
        if w.line.len() > 0 {
            w.done.push(w.line)
        } else {
            w.done
        }
    }
}

/// The output lines of a list of input lines.
pub open spec fn wrap_lines(input: Seq<Seq<char>>, width: nat) -> Seq<Seq<char>>
    decreases input.len(),
{
    if input.len() == 0 {
        seq![]
    } else {
        wrap_lines(input.drop_last(), width) + wrap_line(input.last(), width)
    }
}

/// The width that text is wrapped to: at least one column.
pub open spec fn at_least_one(width: nat) -> nat {
    if width == 0 {
        1
    } else {
        width
    }
}

/// A text, word-wrapped to a width.
pub open spec fn wrapped(s: Seq<char>, width: nat) -> Seq<Seq<char>> {
    wrap_lines(lines_of(s), at_least_one(width))
}

fn wrap_one(input: &[char], width: usize, out: &mut Vec<String>)
    requires
        input@.len() > 0,
    ensures
        texts(final(out)@) == texts(old(out)@) + wrap_line(input@, width as nat),
{
    let list = words(input);
    let ghost ws = list@.map_values(|w: Vec<char>| w@);
    let ghost start = texts(out@);
    let mut line: Vec<char> = Vec::new();
    let ghost mut state = Wrapping { done: seq![], line: seq![] };
    let mut i: usize = 0;
    proof {
        assert(ws.take(0) =~= Seq::<Seq<char>>::empty());
        assert(start + state.done =~= start);
    }
    while i < list.len()
        invariant
            i <= list@.len(),
            ws == list@.map_values(|w: Vec<char>| w@),
            state == wrap_words(ws.take(i as int), width as nat),
            line@ == state.line,
            texts(out@) == start + state.done,
        decreases list@.len() - i,
    {
        let word = &list[i];
        let ghost before = state;
        proof {
            assert(ws.take(i + 1).drop_last() =~= ws.take(i as int));
            assert(ws.take(i + 1).last() == word@);
            state = place_word(before, word@, width as nat);
        }
        if line.len() == 0 {
            line = vstd::slice::slice_to_vec(word.as_slice());
        } else {
            let lw = display_width(string_of(&line).as_str());
            let ww = display_width(string_of(word).as_str());
            if lw < width && ww <= width - 1 - lw {
                line.push(' ');
                line.extend_from_slice(word.as_slice());
                assert(line@ =~= before.line.push(' ') + word@);
            } else {
                let whole = string_of(&line);
                let ghost outs = texts(out@);
                out.push(whole);
                assert(texts(out@) =~= outs.push(before.line));
                assert(start + before.done.push(before.line) =~= (start + before.done).push(
                    before.line,
                ));
                line = vstd::slice::slice_to_vec(word.as_slice());
            }
        }
        let ghost target = hard_break(state, width as nat);
        loop
            invariant_except_break
                line@ == state.line,
                texts(out@) == start + state.done,
                target == hard_break(state, width as nat),
            ensures
                line@ == state.line,
                texts(out@) == start + state.done,
                target == state,
            decreases state.line.len(),
        {
            if display_width(string_of(&line).as_str()) <= width {
                break;
            }
            let n = fit(&line, width);
            if n == 0 || n >= line.len() {
                break;
            }
            let head = string_of(vstd::slice::slice_subrange(&line, 0, n));
            let rest = vstd::slice::slice_to_vec(
                vstd::slice::slice_subrange(&line, n, line.len()),
            );
            proof {
                assert(head@ =~= state.line.take(n as int));
                assert(rest@ =~= state.line.skip(n as int));
            }
            let ghost outs = texts(out@);
            let ghost h = head@;
            out.push(head);
            proof {
                assert(texts(out@) =~= outs.push(h));
                assert(start + state.done.push(h) =~= (start + state.done).push(h));
                state = Wrapping {
                    done: state.done.push(state.line.take(n as int)),
                    line: state.line.skip(n as int),
                };
            }
            line = rest;
        }
        i += 1;
    }
    assert(ws.take(i as int) =~= ws);
    if line.len() > 0 {
        let last = string_of(&line);
        let ghost outs = texts(out@);
        out.push(last);
        assert(texts(out@) =~= outs.push(state.line));
        assert(start + state.done.push(state.line) =~= (start + state.done).push(state.line));
    }
}

/// Word-wrap text to a display width: words move to the next line where they do
/// not fit, and a word wider than the width is broken.
pub fn word_wrap(text: &str, width: usize) -> (r: Vec<String>)
    ensures
        texts(r@) == wrapped(text@, width as nat),
{
    let width = if width == 0 {
        1
    } else {
        width
    };
    let chars = chars_of(text);
    let input = lines(&chars);
    let ghost ls = input@.map_values(|l: Vec<char>| l@);
    let mut out: Vec<String> = Vec::new();
    let mut i: usize = 0;
    proof {
        assert(ls.take(0) =~= Seq::<Seq<char>>::empty());
        assert(texts(out@) =~= Seq::<Seq<char>>::empty());
    }
    while i < input.len()
        invariant
            i <= input@.len(),
            ls == input@.map_values(|l: Vec<char>| l@),
            texts(out@) == wrap_lines(ls.take(i as int), width as nat),
        decreases input@.len() - i,
    {
        proof {
            assert(ls.take(i + 1).drop_last() =~= ls.take(i as int));
            assert(ls.take(i + 1).last() == input@[i as int]@);
        }
        if input[i].len() == 0 {
            let ghost outs = texts(out@);
            out.push(String::new());
            assert(input@[i as int]@ =~= Seq::<char>::empty());
            assert(texts(out@) =~= outs + seq![Seq::<char>::empty()]);
        } else {
            wrap_one(&input[i], width, &mut out);
        }
        i += 1;
    }
    assert(ls.take(i as int) =~= ls);
    out
}

// ---------------------------------------------------------------------------
// Cutting
// ---------------------------------------------------------------------------

/// A text cut to a width; an ellipsis stands for what was cut.
pub open spec fn truncated(s: Seq<char>, width: nat) -> Seq<char> {
    if width_of(s) <= width {
        s
    } else {
        s.take(
            fit_len(
                s,
                if width == 0 {
                    0
                } else {
                    (width - 1) as nat
                },
            ),
        ).push('\u{2026}')
    }
}

/// Truncate to a display width, appending an ellipsis when cut.
pub fn truncate(text: &str, width: usize) -> (r: String)
    ensures
        r@ == truncated(text@, width as nat),
{
    if display_width(text) <= width {
        return text.to_owned();
    }
    let chars = chars_of(text);
    let limit = if width == 0 {
        0
    } else {
        width - 1
    };
    let n = fit(&chars, limit);
    let mut out = string_of(vstd::slice::slice_subrange(&chars, 0, n));
    assert(out@ =~= text@.take(n as int));
    out.push('\u{2026}');
    out
}

// ---------------------------------------------------------------------------
// What wrapping and cutting keep
// ---------------------------------------------------------------------------

/// A text without its blanks.
pub open spec fn ink(s: Seq<char>) -> Seq<char>
    decreases s.len(),
{
    if s.len() == 0 {
        seq![]
    } else if s.last() == ' ' {
        ink(s.drop_last())
    } else {
        ink(s.drop_last()).push(s.last())
    }
}

/// The texts of a list in a row, without their blanks.
pub open spec fn ink_all(list: Seq<Seq<char>>) -> Seq<char>
    decreases list.len(),
{
    if list.len() == 0 {
        seq![]
    } else {
        ink_all(list.drop_last()) + ink(list.last())
    }
}

/// The words of a list of lines, in order.
pub open spec fn all_words(input: Seq<Seq<char>>) -> Seq<Seq<char>>
    decreases input.len(),
{
    if input.len() == 0 {
        seq![]
    } else {
        all_words(input.drop_last()) + words_of(input.last())
    }
}

pub(crate) proof fn lemma_ink_add(a: Seq<char>, b: Seq<char>)
    ensures
        ink(a + b) == ink(a) + ink(b),
    decreases b.len(),
{
    if b.len() == 0 {
        assert(a + b =~= a);
        assert(ink(a) + ink(b) =~= ink(a));
    } else {
        lemma_ink_add(a, b.drop_last());
        assert((a + b).drop_last() =~= a + b.drop_last());
        assert((a + b).last() == b.last());
        assert(ink(a) + ink(b.drop_last()).push(b.last()) =~= (ink(a) + ink(b.drop_last())).push(
            b.last(),
        ));
    }
}

proof fn lemma_ink_all_push(list: Seq<Seq<char>>, s: Seq<char>)
    ensures
        ink_all(list.push(s)) == ink_all(list) + ink(s),
{
    assert(list.push(s).drop_last() =~= list);
}

pub(crate) proof fn lemma_ink_all_add(a: Seq<Seq<char>>, b: Seq<Seq<char>>)
    ensures
        ink_all(a + b) == ink_all(a) + ink_all(b),
    decreases b.len(),
{
    if b.len() == 0 {
        assert(a + b =~= a);
        assert(ink_all(a) + ink_all(b) =~= ink_all(a));
    } else {
        lemma_ink_all_add(a, b.drop_last());
        assert((a + b).drop_last() =~= a + b.drop_last());
        assert((a + b).last() == b.last());
        assert(ink_all(a) + (ink_all(b.drop_last()) + ink(b.last())) =~= (ink_all(a) + ink_all(
            b.drop_last(),
        )) + ink(b.last()));
    }
}

/// Everything wrapped so far, without blanks.
spec fn ink_of(w: Wrapping) -> Seq<char> {
    ink_all(w.done) + ink(w.line)
}

proof fn lemma_hard_break_keeps(w: Wrapping, width: nat)
    requires
        forall|i: int| 0 <= i < w.done.len() ==> !breakable(#[trigger] w.done[i], width),
    ensures
        ink_of(hard_break(w, width)) == ink_of(w),
        !breakable(hard_break(w, width).line, width),
        forall|i: int|
            0 <= i < hard_break(w, width).done.len() ==> !breakable(
                #[trigger] hard_break(w, width).done[i],
                width,
            ),
    decreases w.line.len(),
{
    if breakable(w.line, width) {
        let n = fit_len(w.line, width);
        let head = w.line.take(n);
        let rest = w.line.skip(n);
        let next = Wrapping { done: w.done.push(head), line: rest };
        fit_is_longest(w.line, width);
        fit_is_longest(head, width);
        assert(head.take(head.len() as int) =~= head);
        if fit_len(head, width) < head.len() {
            let k = fit_len(head, width);
            lemma_total_width_grows(head, k + 1);
        }
        lemma_hard_break_keeps(next, width);
        lemma_ink_all_push(w.done, head);
        lemma_ink_add(head, rest);
        assert(head + rest =~= w.line);
        assert((ink_all(w.done) + ink(head)) + ink(rest) =~= ink_all(w.done) + (ink(head) + ink(
            rest,
        )));
    }
}

proof fn lemma_total_width_grows(s: Seq<char>, k: int)
    requires
        0 <= k <= s.len(),
    ensures
        total_width(s.take(k)) <= total_width(s),
    decreases s.len(),
{
    if k == s.len() {
        assert(s.take(k) =~= s);
    } else {
        lemma_total_width_grows(s.drop_last(), k);
        assert(s.drop_last().take(k) =~= s.take(k));
    }
}

proof fn lemma_wrap_words_keeps(ws: Seq<Seq<char>>, width: nat)
    ensures
        ink_of(wrap_words(ws, width)) == ink_all(ws),
        !breakable(wrap_words(ws, width).line, width),
        forall|i: int|
            0 <= i < wrap_words(ws, width).done.len() ==> !breakable(
                #[trigger] wrap_words(ws, width).done[i],
                width,
            ),
    decreases ws.len(),
{
    if ws.len() == 0 {
        assert(ink_of(wrap_words(ws, width)) =~= Seq::<char>::empty());
    } else {
        let prev = wrap_words(ws.drop_last(), width);
        let word = ws.last();
        let placed = place_word(prev, word, width);
        lemma_wrap_words_keeps(ws.drop_last(), width);
        lemma_ink_all_push(prev.done, prev.line);
        lemma_ink_add(prev.line.push(' '), word);
        assert(prev.line.push(' ').drop_last() =~= prev.line);
        assert(ink(prev.line.push(' ')) == ink(prev.line));
        assert((ink_all(prev.done) + ink(prev.line)) + ink(word) =~= ink_all(prev.done) + (ink(
            prev.line,
        ) + ink(word)));
        if prev.line.len() == 0 {
            assert(ink_all(prev.done) + ink(word) =~= ink_all(prev.done) + (ink(prev.line) + ink(
                word,
            )));
        }
        assert(ink_of(placed) == ink_of(prev) + ink(word));
        lemma_hard_break_keeps(placed, width);
    }
}

proof fn lemma_wrap_line_keeps(line: Seq<char>, width: nat)
    requires
        width > 0,
    ensures
        ink_all(wrap_line(line, width)) == ink_all(words_of(line)),
        forall|i: int|
            0 <= i < wrap_line(line, width).len() ==> !breakable(
                #[trigger] wrap_line(line, width)[i],
                width,
            ),
{
    if line.len() == 0 {
        assert(words_of(line) =~= Seq::<Seq<char>>::empty());
        assert(wrap_line(line, width).drop_last() =~= Seq::<Seq<char>>::empty());
        assert(wrap_line(line, width).last() =~= Seq::<char>::empty());
        assert(ink_all(Seq::<Seq<char>>::empty()) == Seq::<char>::empty());
        assert(ink_all(wrap_line(line, width)) =~= Seq::<char>::empty());
    } else {
        let w = wrap_words(words_of(line), width);
        lemma_wrap_words_keeps(words_of(line), width);
        lemma_ink_all_push(w.done, w.line);
        if w.line.len() == 0 {
            assert(ink_all(w.done) + ink(w.line) =~= ink_all(w.done));
        }
    }
}

/// Wrapping changes nothing but blanks and line breaks: the output lines hold
/// the words of the text, in order, character for character. And no output
/// line is left too wide that could be broken.
pub proof fn wrapping_keeps_words_and_fits(s: Seq<char>, width: nat)
    ensures
        ink_all(wrapped(s, width)) == ink_all(all_words(lines_of(s))),
        forall|i: int|
            0 <= i < wrapped(s, width).len() ==> !breakable(
                #[trigger] wrapped(s, width)[i],
                at_least_one(width),
            ),
{
    lemma_wrap_lines_keeps(lines_of(s), at_least_one(width));
}

proof fn lemma_wrap_lines_keeps(input: Seq<Seq<char>>, width: nat)
    requires
        width > 0,
    ensures
        ink_all(wrap_lines(input, width)) == ink_all(all_words(input)),
        forall|i: int|
            0 <= i < wrap_lines(input, width).len() ==> !breakable(
                #[trigger] wrap_lines(input, width)[i],
                width,
            ),
    decreases input.len(),
{
    if input.len() > 0 {
        lemma_wrap_lines_keeps(input.drop_last(), width);
        lemma_wrap_line_keeps(input.last(), width);
        lemma_ink_all_add(wrap_lines(input.drop_last(), width), wrap_line(input.last(), width));
        lemma_ink_all_add(all_words(input.drop_last()), words_of(input.last()));
    }
}

/// A cut text keeps the longest front part that leaves a column for the
/// ellipsis; a text that fits is left as it is.
pub proof fn truncation_keeps_a_front_part(s: Seq<char>, width: nat)
    ensures
        width_of(s) <= width ==> truncated(s, width) == s,
        width_of(s) > width ==> ({
            let t = truncated(s, width);
            &&& t.len() > 0
            &&& t.last() == '\u{2026}'
            &&& t.drop_last() == s.take(t.len() - 1)
            &&& width > 0 ==> total_width(t.drop_last()) <= width - 1
        }),
{
    if width_of(s) > width {
        let limit: nat = if width == 0 {
            0
        } else {
            (width - 1) as nat
        };
        fit_is_longest(s, limit);
        let t = truncated(s, width);
        assert(t.drop_last() =~= s.take(fit_len(s, limit)));
    }
}

/// Cutting a text that was cut changes nothing, and the cut text fits, where
/// each front part with an ellipsis takes as many columns as its characters and
/// one more.
pub proof fn cutting_again_changes_nothing(s: Seq<char>, width: nat)
    requires
        width > 0,
        forall|n: int|
            0 <= n <= s.len() ==> width_of(#[trigger] s.take(n).push('\u{2026}')) == total_width(
                s.take(n),
            ) + 1,
    ensures
        width_of(truncated(s, width)) <= width,
        truncated(truncated(s, width), width) == truncated(s, width),
{
    if width_of(s) > width {
        let limit = (width - 1) as nat;
        fit_is_longest(s, limit);
        let n = fit_len(s, limit);
        assert(truncated(s, width) == s.take(n).push('\u{2026}'));
    }
}

proof fn lemma_narrow_total(s: Seq<char>)
    requires
        is_narrow(s),
    ensures
        total_width(s) == s.len(),
    decreases s.len(),
{
    if s.len() > 0 {
        assert(is_narrow(s.drop_last())) by {
            assert forall|i: int| 0 <= i < s.drop_last().len() implies (' '
                <= #[trigger] s.drop_last()[i] <= '~' || s.drop_last()[i] == '\u{2026}') by {
                assert(s.drop_last()[i] == s[i]);
            }
        }
        lemma_narrow_total(s.drop_last());
        let c = s[s.len() - 1];
        assert(is_narrow(seq![c]));
    }
}

/// A text of printable ASCII characters is cut to the width, all but the last
/// column being its own front part, and cutting it again changes nothing.
pub proof fn ascii_is_cut_to_the_width(s: Seq<char>, width: nat)
    requires
        width > 0,
        is_narrow(s),
    ensures
        truncated(s, width) == (if s.len() <= width {
            s
        } else {
            s.take(width - 1).push('\u{2026}')
        }),
        width_of(truncated(s, width)) <= width,
        truncated(truncated(s, width), width) == truncated(s, width),
{
    assert forall|n: int| 0 <= n <= s.len() implies is_narrow(#[trigger] s.take(n)) by {
        assert forall|i: int| 0 <= i < s.take(n).len() implies (' ' <= #[trigger] s.take(n)[i]
            <= '~' || s.take(n)[i] == '\u{2026}') by {
            assert(s.take(n)[i] == s[i]);
        }
    }
    assert forall|n: int| 0 <= n <= s.len() implies width_of(
        #[trigger] s.take(n).push('\u{2026}'),
    ) == total_width(s.take(n)) + 1 by {
        let t = s.take(n).push('\u{2026}');
        assert(is_narrow(s.take(n)));
        assert forall|i: int| 0 <= i < t.len() implies (' ' <= #[trigger] t[i] <= '~' || t[i]
            == '\u{2026}') by {
            if i < n {
                assert(t[i] == s[i]);
            }
        }
        lemma_narrow_total(s.take(n));
    }
    cutting_again_changes_nothing(s, width);
    if s.len() > width {
        let limit = (width - 1) as nat;
        fit_is_longest(s, limit);
        let n = fit_len(s, limit);
        assert(is_narrow(s.take(n)));
        lemma_narrow_total(s.take(n));
        if n < s.len() {
            assert(is_narrow(s.take(n + 1)));
            lemma_narrow_total(s.take(n + 1));
        }
    }
}

} // verus!

//! Text primitives: conversions between strings and character vectors,
//! trimming, line and word splitting, joining, and decimal notation.

use vstd::prelude::*;

verus! {

broadcast use vstd::string::group_string_axioms;

// ---------------------------------------------------------------------------
// The standard library's characters and strings
// ---------------------------------------------------------------------------

/// `String::push` appends one character.
pub assume_specification[ String::push ](s: &mut String, c: char)
    ensures
        final(s)@ == old(s)@.push(c),
;

/// `==` on string slices compares their characters.
pub assume_specification[ <str as PartialEq>::eq ](a: &str, b: &str) -> (r: bool)
    ensures
        r == (a@ == b@),
;

/// Whether a character has the Unicode `White_Space` property.
pub open spec fn is_whitespace(c: char) -> bool {
    ||| '\u{9}' <= c <= '\u{d}'
    ||| c == '\u{20}'
    ||| c == '\u{85}'
    ||| c == '\u{a0}'
    ||| c == '\u{1680}'
    ||| '\u{2000}' <= c <= '\u{200a}'
    ||| c == '\u{2028}'
    ||| c == '\u{2029}'
    ||| c == '\u{202f}'
    ||| c == '\u{205f}'
    ||| c == '\u{3000}'
}

/// `char::is_whitespace` tests the Unicode `White_Space` property.
pub assume_specification[ char::is_whitespace ](c: char) -> (r: bool)
    ensures
        r == is_whitespace(c),
;

/// The upper-case form of a text, as `str::to_uppercase` gives it.
pub uninterp spec fn uppercase(s: Seq<char>) -> Seq<char>;

/// The lower-case form of a text, as `str::to_lowercase` gives it.
pub uninterp spec fn lowercase(s: Seq<char>) -> Seq<char>;

/// `str::to_uppercase` maps a text by the Unicode upper-case tables; the
/// mapping is named by [`uppercase`].
pub assume_specification[ str::to_uppercase ](s: &str) -> (r: String)
    ensures
        r@ == uppercase(s@),
;

/// `str::to_lowercase` maps a text by the Unicode lower-case tables; the
/// mapping is named by [`lowercase`].
pub assume_specification[ str::to_lowercase ](s: &str) -> (r: String)
    ensures
        r@ == lowercase(s@),
;

/// The characters of a list of strings.
pub open spec fn texts(v: Seq<String>) -> Seq<Seq<char>> {
    v.map_values(|s: String| s@)
}

/// The characters of an optional string.
pub open spec fn opt_text(s: Option<String>) -> Option<Seq<char>> {
    match s {
        Some(t) => Some(t@),
        None => None,
    }
}

/// Whether two texts are equal.
pub fn same(a: &str, b: &str) -> (r: bool)
    ensures
        r == (a@ == b@),
{
    a.eq(b)
}

/// A copy of a text.
pub fn owned(s: &str) -> (r: String)
    ensures
        r@ == s@,
{
    s.to_owned()
}

/// The characters of a string, in order.
pub fn chars_of(s: &str) -> (r: Vec<char>)
    ensures
        r@ == s@,
{
    let mut out: Vec<char> = Vec::new();
    for c in it: s.chars()
        invariant
            out@ =~= it.seq().take(it.index() as int),
            it.seq() == s@,
    {
        out.push(c);
    }
    out
}

/// The string made of the given characters.
pub fn string_of(chars: &[char]) -> (r: String)
    ensures
        r@ == chars@,
{
    let mut out = String::new();
    let mut i: usize = 0;
    while i < chars.len()
        invariant
            i <= chars.len(),
            out@ =~= chars@.take(i as int),
        decreases chars.len() - i,
    {
        out.push(chars[i]);
        i += 1;
    }
    out
}

/// The string made of `chars[from..to]`.
pub fn string_between(chars: &[char], from: usize, to: usize) -> (r: String)
    requires
        from <= to <= chars@.len(),
    ensures
        r@ == chars@.subrange(from as int, to as int),
{
    string_of(vstd::slice::slice_subrange(chars, from, to))
}

// ---------------------------------------------------------------------------
// Prefixes and searching
// ---------------------------------------------------------------------------

/// Whether `s` begins with `p`.
pub open spec fn starts_with(s: Seq<char>, p: Seq<char>) -> bool {
    p.len() <= s.len() && s.take(p.len() as int) == p
}

/// Whether `s` begins with `p`.
pub fn has_prefix(s: &[char], p: &[char]) -> (r: bool)
    ensures
        r == starts_with(s@, p@),
{
    if s.len() < p.len() {
        return false;
    }
    let mut i: usize = 0;
    while i < p.len()
        invariant
            i <= p.len() <= s.len(),
            forall|k: int| 0 <= k < i ==> s@[k] == p@[k],
        decreases p.len() - i,
    {
        if s[i] != p[i] {
            assert(s@.take(p@.len() as int)[i as int] != p@[i as int]);
            return false;
        }
        i += 1;
    }
    assert(s@.take(p@.len() as int) =~= p@);
    true
}

/// What follows the prefix `p` in `s`, if `s` begins with `p`.
pub open spec fn after_prefix(s: Seq<char>, p: Seq<char>) -> Option<Seq<char>> {
    if starts_with(s, p) {
        Some(s.skip(p.len() as int))
    } else {
        None
    }
}

/// What follows the prefix `p` in `s`, if `s` begins with `p`.
pub fn strip_prefix(s: &str, p: &str) -> (r: Option<String>)
    ensures
        opt_text(r) == after_prefix(s@, p@),
{
    let sc = chars_of(s);
    let pc = chars_of(p);
    if has_prefix(&sc, &pc) {
        let rest = string_between(&sc, pc.len(), sc.len());
        assert(rest@ =~= s@.skip(p@.len() as int));
        Some(rest)
    } else {
        None
    }
}

/// The first position at or after `from` that holds `c`; the length if none does.
pub open spec fn index_from(s: Seq<char>, c: char, from: int) -> int
    decreases s.len() - from,
{
    if from >= s.len() {
        s.len() as int
    } else if s[from] == c {
        from
    } else {
        index_from(s, c, from + 1)
    }
}

/// The first position that holds `c`; the length if none does.
pub open spec fn first_index(s: Seq<char>, c: char) -> int {
    index_from(s, c, 0)
}

/// [`index_from`] is the least position that holds the character.
pub proof fn lemma_index_from(s: Seq<char>, c: char, from: int)
    requires
        0 <= from <= s.len(),
    ensures
        from <= index_from(s, c, from) <= s.len(),
        index_from(s, c, from) < s.len() ==> s[index_from(s, c, from)] == c,
        forall|k: int| from <= k < index_from(s, c, from) ==> s[k] != c,
    decreases s.len() - from,
{
    if from < s.len() && s[from] != c {
        lemma_index_from(s, c, from + 1);
    }
}

/// The first position that holds `c`; the length if none does.
pub fn find_char(s: &[char], c: char) -> (r: usize)
    ensures
        r == first_index(s@, c),
        r <= s@.len(),
{
    let mut i: usize = 0;
    while i < s.len()
        invariant
            i <= s.len(),
            first_index(s@, c) == index_from(s@, c, i as int),
        decreases s.len() - i,
    {
        if s[i] == c {
            return i;
        }
        i += 1;
    }
    i
}

// ---------------------------------------------------------------------------
// Trimming
// ---------------------------------------------------------------------------

/// `s` without its leading whitespace.
pub open spec fn trim_start(s: Seq<char>) -> Seq<char>
    decreases s.len(),
{
    if s.len() > 0 && is_whitespace(s[0]) {
        trim_start(s.drop_first())
    } else {
        s
    }
}

/// `s` without its trailing whitespace.
pub open spec fn trim_end(s: Seq<char>) -> Seq<char>
    decreases s.len(),
{
    if s.len() > 0 && is_whitespace(s.last()) {
        trim_end(s.drop_last())
    } else {
        s
    }
}

/// `s` without leading and trailing whitespace.
pub open spec fn trimmed(s: Seq<char>) -> Seq<char> {
    trim_end(trim_start(s))
}

/// Trimming leaves a contiguous part that neither begins nor ends with whitespace.
pub proof fn lemma_trim_start(s: Seq<char>)
    ensures
        trim_start(s).len() <= s.len(),
        trim_start(s) == s.skip(s.len() - trim_start(s).len()),
        trim_start(s).len() > 0 ==> !is_whitespace(trim_start(s)[0]),
    decreases s.len(),
{
    if s.len() > 0 && is_whitespace(s[0]) {
        lemma_trim_start(s.drop_first());
        let n = trim_start(s).len() as int;
        assert(s.skip(s.len() - n) =~= s.drop_first().skip(s.drop_first().len() - n));
    } else {
        assert(s.skip(0) =~= s);
    }
}

/// Where the text begins after its leading whitespace.
pub fn trim_start_at(s: &[char], from: usize) -> (r: usize)
    requires
        from <= s@.len(),
    ensures
        from <= r <= s@.len(),
        trim_start(s@.skip(from as int)) == s@.skip(r as int),
        r < s@.len() ==> !is_whitespace(s@[r as int]),
        forall|k: int| from <= k < r ==> is_whitespace(s@[k]),
{
    let mut i: usize = from;
    while i < s.len() && s[i].is_whitespace()
        invariant
            from <= i <= s@.len(),
            trim_start(s@.skip(from as int)) == trim_start(s@.skip(i as int)),
            forall|k: int| from <= k < i ==> is_whitespace(s@[k]),
        decreases s@.len() - i,
    {
        assert(s@.skip(i as int).drop_first() =~= s@.skip(i + 1));
        i += 1;
    }
    i
}

/// `s` without leading and trailing whitespace.
pub fn trim_chars(s: &[char]) -> (r: Vec<char>)
    ensures
        r@ == trimmed(s@),
{
    let start = trim_start_at(s, 0);
    assert(s@.skip(0) =~= s@);
    let mut end: usize = s.len();
    assert(s@.skip(start as int) =~= s@.subrange(start as int, end as int));
    while end > start && s[end - 1].is_whitespace()
        invariant
            start <= end <= s@.len(),
            trimmed(s@) == trim_end(s@.subrange(start as int, end as int)),
        decreases end,
    {
        assert(s@.subrange(start as int, end as int).drop_last() =~= s@.subrange(
            start as int,
            end - 1,
        ));
        end -= 1;
    }
    vstd::slice::slice_to_vec(vstd::slice::slice_subrange(s, start, end))
}

/// `s` without leading and trailing whitespace.
pub fn trim(s: &str) -> (r: String)
    ensures
        r@ == trimmed(s@),
{
    let c = chars_of(s);
    let t = trim_chars(&c);
    string_of(&t)
}

// ---------------------------------------------------------------------------
// Lines and words
// ---------------------------------------------------------------------------

/// A line without the carriage return that ends it.
pub open spec fn without_cr(s: Seq<char>) -> Seq<char> {
    if s.len() > 0 && s.last() == '\r' {
        s.drop_last()
    } else {
        s
    }
}

/// The lines of a text: each ends at a line feed, with or without a carriage
/// return before it; a last line that no line feed ends is kept as it is.
pub open spec fn lines_of(s: Seq<char>) -> Seq<Seq<char>>
    decreases s.len(),
{
    let i = first_index(s, '\n');
    if s.len() == 0 {
        seq![]
    } else if i < s.len() {
        proof {
            lemma_index_from(s, '\n', 0);
        }
        seq![without_cr(s.take(i))] + lines_of(s.skip(i + 1))
    } else {
        seq![s]
    }
}

/// The lines of a text.
pub fn lines(s: &[char]) -> (r: Vec<Vec<char>>)
    ensures
        r@.map_values(|l: Vec<char>| l@) == lines_of(s@),
{
    let mut out: Vec<Vec<char>> = Vec::new();
    let mut pos: usize = 0;
    proof {
        lemma_index_from(s@, '\n', 0);
        assert(s@.skip(0) =~= s@);
        assert(out@.map_values(|l: Vec<char>| l@) + lines_of(s@) =~= lines_of(s@));
    }
    while pos < s.len()
        invariant
            pos <= s@.len(),
            out@.map_values(|l: Vec<char>| l@) + lines_of(s@.skip(pos as int)) == lines_of(s@),
        decreases s@.len() - pos,
    {
        let rest = vstd::slice::slice_subrange(s, pos, s.len());
        assert(rest@ =~= s@.skip(pos as int));
        let i = find_char(rest, '\n');
        proof {
            lemma_index_from(rest@, '\n', 0);
        }
        let ghost before = out@.map_values(|l: Vec<char>| l@);
        if i < rest.len() {
            let end = if i > 0 && rest[i - 1] == '\r' {
                i - 1
            } else {
                i
            };
            let line = vstd::slice::slice_to_vec(vstd::slice::slice_subrange(rest, 0, end));
            assert(line@ =~= without_cr(rest@.take(i as int)));
            let ghost l = line@;
            out.push(line);
            proof {
                lemma_index_from(rest@.skip(i + 1), '\n', 0);
                assert(out@.map_values(|l: Vec<char>| l@) =~= before.push(l));
                assert(s@.skip(pos + i + 1) =~= rest@.skip(i + 1));
                assert(before.push(l) + lines_of(rest@.skip(i + 1)) =~= before + (seq![l]
                    + lines_of(rest@.skip(i + 1))));
            }
            pos = pos + i + 1;
        } else {
            let line = vstd::slice::slice_to_vec(rest);
            let ghost l = line@;
            out.push(line);
            proof {
                assert(out@.map_values(|l: Vec<char>| l@) =~= before.push(l));
                assert(s@.skip(s@.len() as int) =~= Seq::<char>::empty());
                lemma_index_from(Seq::<char>::empty(), '\n', 0);
                assert(before.push(l) + Seq::<Seq<char>>::empty() =~= before + seq![l]);
            }
            pos = s.len();
        }
    }
    proof {
        assert(s@.skip(pos as int) =~= Seq::<char>::empty());
        lemma_index_from(Seq::<char>::empty(), '\n', 0);
        assert(out@.map_values(|l: Vec<char>| l@) + Seq::<Seq<char>>::empty() =~= out@.map_values(
            |l: Vec<char>| l@,
        ));
    }
    out
}

/// The length of the run of non-whitespace characters at the front of `s`.
pub open spec fn word_len(s: Seq<char>) -> int
    decreases s.len(),
{
    if s.len() == 0 || is_whitespace(s[0]) {
        0
    } else {
        1 + word_len(s.drop_first())
    }
}

pub proof fn lemma_word_len(s: Seq<char>)
    ensures
        0 <= word_len(s) <= s.len(),
        s.len() > 0 && !is_whitespace(s[0]) ==> word_len(s) > 0,
        forall|k: int| 0 <= k < word_len(s) ==> !is_whitespace(s[k]),
        word_len(s) < s.len() ==> is_whitespace(s[word_len(s)]),
    decreases s.len(),
{
    if s.len() > 0 && !is_whitespace(s[0]) {
        lemma_word_len(s.drop_first());
        assert forall|k: int| 0 <= k < word_len(s) implies !is_whitespace(s[k]) by {
            if k > 0 {
                assert(s[k] == s.drop_first()[k - 1]);
            }
        }
    }
}

/// The words of a text: its maximal runs of non-whitespace characters.
pub open spec fn words_of(s: Seq<char>) -> Seq<Seq<char>>
    decreases s.len(),
{
    let t = trim_start(s);
    if t.len() == 0 {
        seq![]
    } else {
        proof {
            lemma_trim_start(s);
            lemma_word_len(t);
        }
        seq![t.take(word_len(t))] + words_of(t.skip(word_len(t)))
    }
}

/// The words of a text.
pub fn words(s: &[char]) -> (r: Vec<Vec<char>>)
    ensures
        r@.map_values(|w: Vec<char>| w@) == words_of(s@),
{
    let mut out: Vec<Vec<char>> = Vec::new();
    let mut pos: usize = 0;
    proof {
        assert(s@.skip(0) =~= s@);
        assert(out@.map_values(|w: Vec<char>| w@) + words_of(s@) =~= words_of(s@));
    }
    loop
        invariant
            pos <= s@.len(),
            out@.map_values(|w: Vec<char>| w@) + words_of(s@.skip(pos as int)) == words_of(s@),
        decreases s@.len() - pos,
    {
        let start = trim_start_at(s, pos);
        let ghost t = s@.skip(start as int);
        proof {
            lemma_word_len(t);
        }
        if start == s.len() {
            assert(out@.map_values(|w: Vec<char>| w@) + Seq::<Seq<char>>::empty()
                =~= out@.map_values(|w: Vec<char>| w@));
            return out;
        }
        let mut end: usize = start;
        while end < s.len() && !s[end].is_whitespace()
            invariant
                start <= end <= s@.len(),
                t == s@.skip(start as int),
                word_len(t) == (end - start) + word_len(s@.skip(end as int)),
            decreases s@.len() - end,
        {
            assert(s@.skip(end as int).drop_first() =~= s@.skip(end + 1));
            end += 1;
        }
        assert(word_len(s@.skip(end as int)) == 0);
        let ghost before = out@.map_values(|w: Vec<char>| w@);
        let word = vstd::slice::slice_to_vec(vstd::slice::slice_subrange(s, start, end));
        let ghost w = word@;
        assert(w =~= t.take(word_len(t)));
        out.push(word);
        proof {
            assert(out@.map_values(|w: Vec<char>| w@) =~= before.push(w));
            assert(s@.skip(end as int) =~= t.skip(word_len(t)));
            assert(before.push(w) + words_of(t.skip(word_len(t))) =~= before + (seq![w] + words_of(
                t.skip(word_len(t)),
            )));
        }
        pos = end;
    }
}

// ---------------------------------------------------------------------------
// Joining
// ---------------------------------------------------------------------------

/// The parts in order, with `sep` between each and the next.
pub open spec fn joined(parts: Seq<Seq<char>>, sep: Seq<char>) -> Seq<char>
    decreases parts.len(),
{
    if parts.len() == 0 {
        seq![]
    } else if parts.len() == 1 {
        parts[0]
    } else {
        joined(parts.drop_last(), sep) + sep + parts.last()
    }
}

/// The strings in order, with `sep` between each and the next.
pub fn join(parts: &[String], sep: &str) -> (r: String)
    ensures
        r@ == joined(texts(parts@), sep@),
{
    let mut out = String::new();
    let mut i: usize = 0;
    while i < parts.len()
        invariant
            i <= parts@.len(),
            out@ == joined(texts(parts@).take(i as int), sep@),
        decreases parts@.len() - i,
    {
        proof {
            let next = texts(parts@).take(i + 1);
            assert(next.drop_last() =~= texts(parts@).take(i as int));
            assert(next.last() == parts@[i as int]@);
            if i == 0 {
                assert(out@ + parts@[0]@ =~= parts@[0]@);
            }
        }
        if i > 0 {
            out.append(sep);
        }
        out.append(parts[i].as_str());
        i += 1;
    }
    assert(texts(parts@).take(i as int) =~= texts(parts@));
    out
}

/// A count, at most what the machine can count.
pub open spec fn countable(n: nat) -> nat {
    if n > usize::MAX {
        usize::MAX as nat
    } else {
        n
    }
}

/// The sum of two counts, at most what the machine can count.
pub fn add_counts(a: usize, b: usize) -> (r: usize)
    ensures
        r == countable(a as nat + b as nat),
{
    if b > usize::MAX - a {
        usize::MAX
    } else {
        a + b
    }
}

/// `a` followed by `b`.
pub fn concat2(a: &str, b: &str) -> (r: String)
    ensures
        r@ == a@ + b@,
{
    let mut out = a.to_owned();
    out.append(b);
    out
}

/// `a`, `b` and `c` in a row.
pub fn concat3(a: &str, b: &str, c: &str) -> (r: String)
    ensures
        r@ == a@ + b@ + c@,
{
    let mut out = a.to_owned();
    out.append(b);
    out.append(c);
    out
}

// ---------------------------------------------------------------------------
// Decimal notation
// ---------------------------------------------------------------------------

/// The decimal digit of a number below ten.
pub open spec fn digit(n: int) -> char {
    (48 + n) as char
}

/// Whether a character is a decimal digit.
pub open spec fn is_digit(c: char) -> bool {
    '0' <= c <= '9'
}

/// The value of a decimal digit.
pub open spec fn digit_value(c: char) -> int {
    c as int - 48
}

/// The decimal notation of a number, without leading zeros.
pub open spec fn decimal(n: nat) -> Seq<char>
    decreases n,
{
    if n < 10 {
        seq![digit(n as int)]
    } else {
        decimal(n / 10).push(digit((n % 10) as int))
    }
}

/// The number that a run of decimal digits denotes.
pub open spec fn digits_value(s: Seq<char>) -> nat
    decreases s.len(),
{
    if s.len() == 0 {
        0
    } else {
        (digits_value(s.drop_last()) * 10 + digit_value(s.last())) as nat
    }
}

/// Whether a text consists of decimal digits alone.
pub open spec fn all_digits(s: Seq<char>) -> bool {
    forall|i: int| 0 <= i < s.len() ==> is_digit(s[i])
}

fn digit_char(n: u8) -> (r: char)
    requires
        n < 10,
    ensures
        r == digit(n as int),
{
    (48u8 + n) as char
}

/// The decimal notation of a number.
pub fn decimal_string(n: u64) -> (r: String)
    ensures
        r@ == decimal(n as nat),
    decreases n,
{
    if n < 10 {
        let mut out = String::new();
        out.push(digit_char(n as u8));
        assert(out@ =~= decimal(n as nat));
        out
    } else {
        let mut out = decimal_string(n / 10);
        out.push(digit_char((n % 10) as u8));
        out
    }
}

/// Reading the decimal notation of a number gives the number back.
pub proof fn decimal_round_trip(n: nat)
    ensures
        all_digits(decimal(n)),
        decimal(n).len() > 0,
        digits_value(decimal(n)) == n,
    decreases n,
{
    if n < 10 {
        let s = decimal(n);
        assert(s.drop_last() =~= Seq::<char>::empty());
        assert(digits_value(s.drop_last()) == 0);
    } else {
        decimal_round_trip(n / 10);
        let s = decimal(n);
        assert(s.drop_last() =~= decimal(n / 10));
    }
}

/// At least two digits, with a leading zero where one digit would do.
pub open spec fn two_digits(n: nat) -> Seq<char> {
    if n < 10 {
        seq!['0', digit(n as int)]
    } else {
        decimal(n)
    }
}

/// At least two digits, with a leading zero where one digit would do.
pub fn two_digit_string(n: u64) -> (r: String)
    ensures
        r@ == two_digits(n as nat),
{
    if n < 10 {
        let mut out = String::new();
        out.push('0');
        out.push(digit_char(n as u8));
        assert(out@ =~= two_digits(n as nat));
        out
    } else {
        decimal_string(n)
    }
}

/// A duration in whole seconds as `HH:MM:SS`; the hours take as many digits as
/// they need.
pub open spec fn clock(total: nat) -> Seq<char> {
    two_digits(total / 3600) + seq![':'] + two_digits((total % 3600) / 60) + seq![':'] + two_digits(
        total % 60,
    )
}

/// A duration in whole seconds as `HH:MM:SS`.
pub fn clock_string(total: u64) -> (r: String)
    ensures
        r@ == clock(total as nat),
{
    let mut out = two_digit_string(total / 3600);
    out.push(':');
    out.append(two_digit_string((total % 3600) / 60).as_str());
    out.push(':');
    out.append(two_digit_string(total % 60).as_str());
    assert(out@ =~= clock(total as nat));
    out
}

/// The digits of a number in the notation that the standard library reads: an
/// optional plus sign, then digits.
pub open spec fn unsigned_digits(s: Seq<char>) -> Seq<char> {
    if s.len() > 0 && s[0] == '+' {
        s.skip(1)
    } else {
        s
    }
}

/// The unsigned number up to `max` that a text denotes: an optional plus sign
/// followed by digits alone, at least one.
pub open spec fn parse_unsigned(s: Seq<char>, max: nat) -> Option<nat> {
    let d = unsigned_digits(s);
    if d.len() > 0 && all_digits(d) && digits_value(d) <= max {
        Some(digits_value(d))
    } else {
        None
    }
}

/// The number up to `max` that the digits `s[from..]` denote.
pub fn parse_digits(s: &[char], from: usize, max: u64) -> (r: Option<u64>)
    requires
        from <= s@.len(),
    ensures
        r == (if from < s@.len() && all_digits(s@.skip(from as int)) && digits_value(
            s@.skip(from as int),
        ) <= max {
            Some(digits_value(s@.skip(from as int)) as u64)
        } else {
            None
        }),
{
    if from == s.len() {
        return None;
    }
    let ghost d = s@.skip(from as int);
    let mut acc: u64 = 0;
    let mut i: usize = from;
    assert(d.take(0) =~= Seq::<char>::empty());
    let mut over = false;
    while i < s.len()
        invariant
            from <= i <= s@.len(),
            from < s@.len(),
            d == s@.skip(from as int),
            all_digits(d.take(i - from)),
            over == (digits_value(d.take(i - from)) > max),
            !over ==> acc == digits_value(d.take(i - from)),
        decreases s@.len() - i,
    {
        let c = s[i];
        assert(d[i - from] == c);
        if !('0' <= c && c <= '9') {
            assert(!is_digit(d[i - from]));
            return None;
        }
        let v: u64 = (c as u64) - 48;
        proof {
            let next = d.take(i - from + 1);
            assert(next.drop_last() =~= d.take(i - from));
            assert(next.last() == c);
            assert forall|k: int| 0 <= k < next.len() implies is_digit(next[k]) by {
                if k < i - from {
                    assert(next[k] == d.take(i - from)[k]);
                }
            }
        }
        if !over {
            if acc > max / 10 || v > max - acc * 10 {
                over = true;
            } else {
                acc = acc * 10 + v;
            }
        }
        i += 1;
    }
    assert(d.take(i - from) =~= d);
    if over {
        None
    } else {
        Some(acc)
    }
}

/// The `u32` that a text denotes, read as the standard library reads it.
pub fn parse_u32(s: &str) -> (r: Option<u32>)
    ensures
        r == (match parse_unsigned(s@, u32::MAX as nat) {
            Some(n) => Some(n as u32),
            None => None,
        }),
{
    let c = chars_of(s);
    let from: usize = if c.len() > 0 && c[0] == '+' {
        1
    } else {
        0
    };
    assert(c@.skip(from as int) =~= unsigned_digits(s@));
    match parse_digits(&c, from, u32::MAX as u64) {
        Some(n) => Some(n as u32),
        None => None,
    }
}

/// The `u64` that a text denotes, read as the standard library reads it.
pub fn parse_u64(s: &str) -> (r: Option<u64>)
    ensures
        r == (match parse_unsigned(s@, u64::MAX as nat) {
            Some(n) => Some(n as u64),
            None => None,
        }),
{
    let c = chars_of(s);
    let from: usize = if c.len() > 0 && c[0] == '+' {
        1
    } else {
        0
    };
    assert(c@.skip(from as int) =~= unsigned_digits(s@));
    parse_digits(&c, from, u64::MAX)
}

/// The `i32` that a text denotes: an optional sign followed by digits alone.
pub open spec fn parse_signed(s: Seq<char>) -> Option<int> {
    if s.len() > 0 && s[0] == '-' {
        let d = s.skip(1);
        if d.len() > 0 && all_digits(d) && digits_value(d) <= 0x8000_0000 {
            Some(-(digits_value(d) as int))
        } else {
            None
        }
    } else {
        match parse_unsigned(s, i32::MAX as nat) {
            Some(n) => Some(n as int),
            None => None,
        }
    }
}

/// The `i32` that a text denotes, read as the standard library reads it.
pub fn parse_i32(s: &str) -> (r: Option<i32>)
    ensures
        r == (match parse_signed(s@) {
            Some(n) => Some(n as i32),
            None => None,
        }),
{
    let c = chars_of(s);
    if c.len() > 0 && c[0] == '-' {
        match parse_digits(&c, 1, 0x8000_0000) {
            Some(n) => Some((-(n as i64)) as i32),
            None => None,
        }
    } else {
        let from: usize = if c.len() > 0 && c[0] == '+' {
            1
        } else {
            0
        };
        assert(c@.skip(from as int) =~= unsigned_digits(s@));
        match parse_digits(&c, from, i32::MAX as u64) {
            Some(n) => Some(n as i32),
            None => None,
        }
    }
}

// ---------------------------------------------------------------------------
// What trimming, splitting and joining do
// ---------------------------------------------------------------------------

/// Whether a text is made of whitespace alone.
pub open spec fn all_white(s: Seq<char>) -> bool {
    forall|i: int| 0 <= i < s.len() ==> is_whitespace(#[trigger] s[i])
}

/// Whether a text holds no whitespace.
pub open spec fn no_white(s: Seq<char>) -> bool {
    forall|i: int| 0 <= i < s.len() ==> !is_whitespace(#[trigger] s[i])
}

proof fn lemma_trim_front(front: Seq<char>, rest: Seq<char>)
    requires
        all_white(front),
        rest.len() > 0 ==> !is_whitespace(rest[0]),
    ensures
        trim_start(front + rest) == rest,
    decreases front.len(),
{
    let s = front + rest;
    if front.len() == 0 {
        assert(s =~= rest);
    } else {
        assert(s[0] == front[0]);
        assert(s.drop_first() =~= front.drop_first() + rest);
        assert forall|i: int| 0 <= i < front.drop_first().len() implies is_whitespace(
            #[trigger] front.drop_first()[i],
        ) by {
            assert(front.drop_first()[i] == front[i + 1]);
        }
        lemma_trim_front(front.drop_first(), rest);
    }
}

proof fn lemma_trim_back(rest: Seq<char>, back: Seq<char>)
    requires
        all_white(back),
        rest.len() > 0 ==> !is_whitespace(rest.last()),
    ensures
        trim_end(rest + back) == rest,
    decreases back.len(),
{
    let s = rest + back;
    if back.len() == 0 {
        assert(s =~= rest);
    } else {
        assert(s.last() == back[back.len() - 1]);
        assert(s.drop_last() =~= rest + back.drop_last());
        lemma_trim_back(rest, back.drop_last());
    }
}

/// Trimming takes the whitespace from both ends of a text and leaves what lies
/// between as it is; a text of whitespace alone becomes empty.
pub proof fn trimming_strips_both_ends(front: Seq<char>, core: Seq<char>, back: Seq<char>)
    requires
        all_white(front),
        all_white(back),
        core.len() > 0 ==> !is_whitespace(core[0]) && !is_whitespace(core.last()),
    ensures
        trimmed(front + core + back) == core,
{
    if core.len() > 0 {
        assert(front + core + back =~= front + (core + back));
        lemma_trim_front(front, core + back);
        lemma_trim_back(core, back);
    } else {
        let s = front + core + back;
        assert(s =~= (front + back) + Seq::<char>::empty());
        assert(all_white(front + back));
        lemma_trim_front(front + back, Seq::empty());
        assert(trim_end(Seq::<char>::empty()) =~= core);
    }
}

/// Joining puts the separator between the parts and nowhere else: one part
/// stands for itself, none for the empty text, and two lists of parts are joined
/// by one more separator.
pub proof fn joining_puts_separators_between(
    a: Seq<Seq<char>>,
    b: Seq<Seq<char>>,
    one: Seq<char>,
    sep: Seq<char>,
)
    ensures
        joined(seq![], sep) == Seq::<char>::empty(),
        joined(seq![one], sep) == one,
        a.len() > 0 && b.len() > 0 ==> joined(a + b, sep) == joined(a, sep) + sep + joined(b, sep),
    decreases b.len(),
{
    if a.len() > 0 && b.len() > 0 {
        assert((a + b).drop_last() =~= a + b.drop_last());
        assert((a + b).last() == b.last());
        if b.len() == 1 {
            assert(a + b.drop_last() =~= a);
        } else {
            joining_puts_separators_between(a, b.drop_last(), one, sep);
            assert(joined(a, sep) + sep + joined(b.drop_last(), sep) + sep + b.last()
                =~= joined(a, sep) + sep + (joined(b.drop_last(), sep) + sep + b.last()));
        }
    }
}

/// A line ends at a line feed, which belongs to no line, and neither does a
/// carriage return right before it; what no line feed ends is a line too, unless
/// it is empty.
pub proof fn lines_end_at_line_feeds(line: Seq<char>, rest: Seq<char>)
    requires
        !line.contains('\n'),
    ensures
        lines_of(line + seq!['\n'] + rest) == seq![
            if line.len() > 0 && line.last() == '\r' {
                line.drop_last()
            } else {
                line
            },
        ] + lines_of(rest),
        line.len() > 0 ==> lines_of(line) == seq![line],
        lines_of(seq![]) == Seq::<Seq<char>>::empty(),
{
    let s = line + seq!['\n'] + rest;
    lemma_index_from(s, '\n', 0);
    let i = first_index(s, '\n');
    assert(s[line.len() as int] == '\n');
    assert(i == line.len()) by {
        if i < line.len() {
            assert(line[i] == '\n');
        }
    }
    assert(s.take(i) =~= line);
    assert(s.skip(i + 1) =~= rest);
    lemma_index_from(line, '\n', 0);
    if first_index(line, '\n') < line.len() {
        assert(line.contains(line[first_index(line, '\n')]));
    }
}

proof fn lemma_word_len_is(w: Seq<char>, rest: Seq<char>)
    requires
        no_white(w),
        rest.len() > 0 ==> is_whitespace(rest[0]),
    ensures
        word_len(w + rest) == w.len(),
    decreases w.len(),
{
    let s = w + rest;
    if w.len() > 0 {
        assert(s[0] == w[0]);
        assert(s.drop_first() =~= w.drop_first() + rest);
        assert forall|i: int| 0 <= i < w.drop_first().len() implies !is_whitespace(
            #[trigger] w.drop_first()[i],
        ) by {
            assert(w.drop_first()[i] == w[i + 1]);
        }
        lemma_word_len_is(w.drop_first(), rest);
    } else {
        assert(s =~= rest);
    }
}

/// The words of a text are what lies between its whitespace: whitespace in front
/// does not matter, and a run of other characters up to the next whitespace is a
/// word.
pub proof fn words_lie_between_whitespace(front: Seq<char>, word: Seq<char>, rest: Seq<char>)
    requires
        all_white(front),
        no_white(word),
        word.len() > 0,
        rest.len() > 0 ==> is_whitespace(rest[0]),
    ensures
        words_of(front + word + rest) == seq![word] + words_of(rest),
        words_of(front) == Seq::<Seq<char>>::empty(),
{
    let s = front + word + rest;
    assert(s =~= front + (word + rest));
    lemma_trim_front(front, word + rest);
    lemma_word_len_is(word, rest);
    let t = trim_start(s);
    assert(t.take(word_len(t)) =~= word);
    assert(t.skip(word_len(t)) =~= rest);
    assert(front + Seq::<char>::empty() =~= front);
    lemma_trim_front(front, Seq::empty());
}

/// A number's notation is read back as the number, with a plus sign as without,
/// up to the largest that is allowed; with a minus sign it is read as the
/// negative number.
pub proof fn numbers_are_read_back(n: nat, max: nat)
    ensures
        parse_unsigned(decimal(n), max) == (if n <= max {
            Some(n)
        } else {
            None
        }),
        parse_unsigned(seq!['+'] + decimal(n), max) == parse_unsigned(decimal(n), max),
        parse_unsigned(seq!['-'] + decimal(n), max) is None,
        parse_unsigned(seq![], max) is None,
        n <= i32::MAX ==> parse_signed(decimal(n)) == Some(n as int),
        n <= i32::MAX ==> parse_signed(seq!['-'] + decimal(n)) == Some(-(n as int)),
{
    let d = decimal(n);
    decimal_round_trip(n);
    assert(is_digit(d[0]));
    let p = seq!['+'] + d;
    let m = seq!['-'] + d;
    assert(p.skip(1) =~= d);
    assert(m.skip(1) =~= d);
    assert(!is_digit(m[0]));
}

/// The clock of a duration below a hundred hours: two digits each for hours,
/// minutes and seconds, colons between them, and together they are the duration.
pub proof fn clocks_tell_the_duration(total: nat)
    requires
        total < 360_000,
    ensures
        ({
            let c = clock(total);
            &&& c.len() == 8
            &&& c[2] == ':' && c[5] == ':'
            &&& is_digit(c[0]) && is_digit(c[1]) && is_digit(c[3]) && is_digit(c[4]) && is_digit(
                c[6],
            ) && is_digit(c[7])
            &&& 10 * (c[3] as int - 48) + (c[4] as int - 48) < 60
            &&& 10 * (c[6] as int - 48) + (c[7] as int - 48) < 60
            &&& total == 3600 * (10 * (c[0] as int - 48) + (c[1] as int - 48)) + 60 * (10 * (
            c[3] as int - 48) + (c[4] as int - 48)) + (10 * (c[6] as int - 48) + (c[7] as int
                - 48))
        }),
{
    lemma_two_digits(total / 3600);
    lemma_two_digits((total % 3600) / 60);
    lemma_two_digits(total % 60);
    let h = two_digits(total / 3600);
    let m = two_digits((total % 3600) / 60);
    let s = two_digits(total % 60);
    assert(clock(total) =~= seq![h[0], h[1], ':', m[0], m[1], ':', s[0], s[1]]);
}

proof fn lemma_two_digits(n: nat)
    requires
        n < 100,
    ensures
        two_digits(n).len() == 2,
        is_digit(two_digits(n)[0]),
        is_digit(two_digits(n)[1]),
        10 * (two_digits(n)[0] as int - 48) + (two_digits(n)[1] as int - 48) == n,
{
    if n >= 10 {
        assert(decimal(n / 10) =~= seq![digit((n / 10) as int)]);
    }
}

} // verus!

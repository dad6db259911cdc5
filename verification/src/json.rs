//! JSON values as plain data, and what the rest of the library reads out of
//! them.

use crate::text::{
    all_digits, chars_of, decimal, digits_value, find_char, first_index, is_digit, owned,
    parse_digits, parse_i32, parse_signed, same, string_between,
};
use crate::time::seconds_decimal;
use vstd::prelude::*;

verus! {

broadcast use vstd::string::group_string_axioms;

/// A JSON value. A number is kept in its decimal notation, an object as its
/// members in order.
#[derive(Debug)]
pub enum Json {
    Null,
    Bool(bool),
    Number(String),
    Text(String),
    Array(Vec<Json>),
    Object(Vec<(String, Json)>),
}

/// The contents of a [`Json`].
pub enum JsonView {
    Null,
    Bool(bool),
    Number(Seq<char>),
    Text(Seq<char>),
    Array(Seq<JsonView>),
    Object(Seq<(Seq<char>, JsonView)>),
}

impl Json {
    /// The contents of the value.
    pub open spec fn content(self) -> JsonView
        decreases self,
    {
        match self {
            Json::Null => JsonView::Null,
            Json::Bool(b) => JsonView::Bool(b),
            Json::Number(t) => JsonView::Number(t@),
            Json::Text(t) => JsonView::Text(t@),
            Json::Array(items) => JsonView::Array(
                Seq::new(
                    items@.len(),
                    |i: int|
                        if 0 <= i < items@.len() {
                            items@[i].content()
                        } else {
                            JsonView::Null
                        },
                ),
            ),
            Json::Object(members) => JsonView::Object(
                Seq::new(
                    members@.len(),
                    |i: int|
                        if 0 <= i < members@.len() {
                            (members@[i].0@, members@[i].1.content())
                        } else {
                            (seq![], JsonView::Null)
                        },
                ),
            ),
        }
    }
}

impl View for Json {
    type V = JsonView;

    open spec fn view(&self) -> JsonView {
        self.content()
    }
}

/// `serde_json::Value`, the parsed form of a JSON text.
#[verifier::external_type_specification]
#[verifier::external_body]
pub struct ExValue(serde_json::Value);

/// The JSON value that a text denotes, as `serde_json` parses it, or the notice
/// that says why it denotes none.
pub uninterp spec fn json_read(text: Seq<char>) -> Result<JsonView, Seq<char>>;

/// The JSON value that a text denotes, if it denotes one.
pub open spec fn json_parsed(text: Seq<char>) -> Option<JsonView> {
    match json_read(text) {
        Ok(v) => Some(v),
        Err(_) => None,
    }
}

/// What a `serde_json::Value` holds.
pub uninterp spec fn json_of(v: serde_json::Value) -> JsonView;

/// `serde_json::from_str` reads a text as JSON, or says why it cannot; what it
/// reads or says is named by [`json_read`], and what the value holds by
/// [`json_of`].
#[verifier::external_body]
pub(crate) fn parse_value(text: &str) -> (r: Result<serde_json::Value, String>)
    ensures
        match r {
            Ok(v) => json_read(text@) == Ok::<JsonView, Seq<char>>(json_of(v)),
            Err(e) => json_read(text@) == Err::<JsonView, Seq<char>>(e@),
        },
{
    serde_json::from_str::<serde_json::Value>(text).map_err(|e| e.to_string())
}

/// The variants of `serde_json::Value`, taken apart one for one; a number by
/// the text that `serde_json::Number` prints.
#[verifier::external_body]
pub(crate) fn plain_value(v: &serde_json::Value) -> (r: Json)
    ensures
        r@ == json_of(*v),
{
    match v {
        serde_json::Value::Null => Json::Null,
        serde_json::Value::Bool(b) => Json::Bool(*b),
        serde_json::Value::Number(n) => Json::Number(n.to_string()),
        serde_json::Value::String(s) => Json::Text(s.clone()),
        serde_json::Value::Array(a) => Json::Array(a.iter().map(plain_value).collect()),
        serde_json::Value::Object(o) => Json::Object(
            o.iter().map(|(k, v)| (k.clone(), plain_value(v))).collect(),
        ),
    }
}

/// Reads a text as JSON.
pub fn read_json(text: &str) -> (r: Option<Json>)
    ensures
        r is Some <==> json_parsed(text@) is Some,
        r matches Some(v) ==> v@ == json_parsed(text@)->0,
{
    match parse_value(text) {
        Ok(v) => Some(plain_value(&v)),
        Err(_) => None,
    }
}

/// Reads a text as JSON, or says why it is not.
pub fn try_read_json(text: &str) -> (r: Result<Json, String>)
    ensures
        match r {
            Ok(v) => json_read(text@) == Ok::<JsonView, Seq<char>>(v@),
            Err(e) => json_read(text@) == Err::<JsonView, Seq<char>>(e@),
        },
{
    match parse_value(text) {
        Ok(v) => Ok(plain_value(&v)),
        Err(e) => Err(e),
    }
}

// ---------------------------------------------------------------------------
// Writing values
// ---------------------------------------------------------------------------

/// Whether two members are the same, or objects with the same members, in
/// whatever order.
pub open spec fn same_member(a: Option<JsonView>, b: Option<JsonView>) -> bool {
    match (a, b) {
        (Some(JsonView::Object(x)), Some(JsonView::Object(y))) => forall|k: Seq<char>| #[trigger]
            field_of(JsonView::Object(x), k) == field_of(JsonView::Object(y), k),
        _ => a == b,
    }
}

/// Whether two values are objects whose members have the same keys and values,
/// in whatever order.
pub open spec fn same_members(a: JsonView, b: JsonView) -> bool {
    a is Object && b is Object && forall|k: Seq<char>|
        same_member(#[trigger] field_of(a, k), field_of(b, k))
}

/// Whether two values have the same members, or are lists of values of which
/// each has the same members as its counterpart.
pub open spec fn same_value(a: JsonView, b: JsonView) -> bool {
    match (a, b) {
        (JsonView::Array(x), JsonView::Array(y)) => x.len() == y.len() && forall|i: int|
            0 <= i < x.len() ==> same_members(#[trigger] x[i], y[i]),
        _ => same_members(a, b),
    }
}

/// Whether a number is written as it is printed: a whole number of 64 bits, or
/// seconds with up to three digits behind the point and fifteen in all.
pub open spec fn plain_number(t: Seq<char>) -> bool {
    ||| exists|n: nat| n <= u64::MAX && t == #[trigger] decimal(n)
    ||| exists|m: int|
        -1_000_000_000_000_000 < m < 1_000_000_000_000_000 && t == #[trigger] seconds_decimal(m)
}

/// Whether a value has no parts.
pub open spec fn scalar(j: JsonView) -> bool {
    match j {
        JsonView::Number(t) => plain_number(t),
        JsonView::Array(_) => false,
        JsonView::Object(_) => false,
        _ => true,
    }
}

/// Whether no two members have the same key.
pub open spec fn distinct_keys(m: Seq<(Seq<char>, JsonView)>) -> bool {
    forall|i: int, k: int| 0 <= i < k < m.len() ==> (#[trigger] m[i]).0 != (#[trigger] m[k]).0
}

/// Whether a value has no parts, or is an object with distinct keys whose members
/// have none.
pub open spec fn flat_member(j: JsonView) -> bool {
    match j {
        JsonView::Object(m) => distinct_keys(m) && forall|i: int|
            0 <= i < m.len() ==> scalar((#[trigger] m[i]).1),
        _ => scalar(j),
    }
}

/// Whether a value is an object with distinct keys and flat members.
pub open spec fn flat_object(j: JsonView) -> bool {
    match j {
        JsonView::Object(m) => distinct_keys(m) && forall|i: int|
            0 <= i < m.len() ==> flat_member((#[trigger] m[i]).1),
        _ => false,
    }
}

/// Whether a value is a flat object or a list of flat objects.
pub open spec fn is_flat(j: JsonView) -> bool {
    match j {
        JsonView::Array(items) => forall|i: int|
            0 <= i < items.len() ==> flat_object(#[trigger] items[i]),
        _ => flat_object(j),
    }
}

/// Whether a text denotes a flat value, which is this one but for the order of
/// members.
pub open spec fn reads_as(text: Seq<char>, j: JsonView) -> bool {
    json_parsed(text) matches Some(w) && is_flat(w) && same_value(w, j)
}

/// What a `serde_json::Value` made of a value holds.
pub uninterp spec fn json_kept(j: JsonView) -> JsonView;

/// The text that `serde_json` prints of a value, over several lines.
pub uninterp spec fn pretty_text(j: JsonView) -> Seq<char>;

/// The text that `serde_json` prints of a value, in one line.
pub uninterp spec fn compact_text(j: JsonView) -> Seq<char>;

/// The variants of `serde_json::Value`, put together one for one; what they hold
/// is named by [`json_kept`]. `serde_json::Map` keeps one member for each key, in
/// an order of its own, and `serde_json::Number` reads a number's text; one that
/// it cannot read becomes null. A flat value keeps its members.
#[verifier::external_body]
fn outside_value(j: &Json) -> (r: serde_json::Value)
    ensures
        json_of(r) == json_kept(j@),
        is_flat(j@) ==> same_value(json_of(r), j@) && is_flat(json_of(r)),
{
    match j {
        Json::Null => serde_json::Value::Null,
        Json::Bool(b) => serde_json::Value::Bool(*b),
        Json::Number(n) => n.parse().map(serde_json::Value::Number).unwrap_or_default(),
        Json::Text(t) => serde_json::Value::String(t.clone()),
        Json::Array(a) => serde_json::Value::Array(a.iter().map(outside_value).collect()),
        Json::Object(m) => serde_json::Value::Object(
            m.iter().map(|(k, v)| (k.clone(), outside_value(v))).collect(),
        ),
    }
}

/// `serde_json::to_string_pretty` prints a value over several lines, which does
/// not fail on a `serde_json::Value`; the text is named by [`pretty_text`]. That
/// of a flat value reads back as the value.
#[verifier::external_body]
fn pretty_value(v: &serde_json::Value) -> (r: String)
    ensures
        r@ == pretty_text(json_of(*v)),
        is_flat(json_of(*v)) ==> json_parsed(r@) == Some(json_of(*v)),
{
    serde_json::to_string_pretty(v).unwrap()
}

/// The `Display` of `serde_json::Value` prints it in one line; the text is named
/// by [`compact_text`]. That of a flat value reads back as the value.
#[verifier::external_body]
fn compact_value(v: &serde_json::Value) -> (r: String)
    ensures
        r@ == compact_text(json_of(*v)),
        is_flat(json_of(*v)) ==> json_parsed(r@) == Some(json_of(*v)),
{
    v.to_string()
}

/// The text of a value, over several lines.
pub open spec fn printed(j: JsonView) -> Seq<char> {
    pretty_text(json_kept(j))
}

/// The text of a value, in one line.
pub open spec fn printed_line(j: JsonView) -> Seq<char> {
    compact_text(json_kept(j))
}

/// Writes a value as JSON over several lines.
pub fn print_json(j: &Json) -> (r: String)
    ensures
        r@ == printed(j@),
        is_flat(j@) ==> reads_as(r@, j@),
{
    pretty_value(&outside_value(j))
}

/// Writes a value as JSON in one line.
pub fn print_json_line(j: &Json) -> (r: String)
    ensures
        r@ == printed_line(j@),
        is_flat(j@) ==> reads_as(r@, j@),
{
    compact_value(&outside_value(j))
}

// ---------------------------------------------------------------------------
// Making values
// ---------------------------------------------------------------------------

/// The contents of an object's members.
pub open spec fn member_views(members: Seq<(String, Json)>) -> Seq<(Seq<char>, JsonView)> {
    members.map_values(|m: (String, Json)| (m.0@, m.1@))
}

/// The contents of an array's items.
pub open spec fn item_views(items: Seq<Json>) -> Seq<JsonView> {
    items.map_values(|j: Json| j@)
}

/// A JSON string.
pub fn json_text(t: String) -> (r: Json)
    ensures
        r@ == JsonView::Text(t@),
{
    Json::Text(t)
}

/// A JSON number, by its notation.
pub fn json_number(t: String) -> (r: Json)
    ensures
        r@ == JsonView::Number(t@),
{
    Json::Number(t)
}

/// A JSON array.
pub fn json_array(items: Vec<Json>) -> (r: Json)
    ensures
        r@ == JsonView::Array(item_views(items@)),
{
    let r = Json::Array(items);
    assert(r@->Array_0 =~= item_views(items@));
    r
}

/// A JSON object.
pub fn json_object(members: Vec<(String, Json)>) -> (r: Json)
    ensures
        r@ == JsonView::Object(member_views(members@)),
{
    let r = Json::Object(members);
    assert(r@->Object_0 =~= member_views(members@));
    r
}

/// Appends a member.
pub fn push_member(members: &mut Vec<(String, Json)>, key: &str, value: Json)
    ensures
        member_views(final(members)@) == member_views(old(members)@).push((key@, value@)),
{
    let ghost before = member_views(members@);
    members.push((owned(key), value));
    assert(member_views(members@) =~= before.push((key@, value@)));
}

// ---------------------------------------------------------------------------
// Reading values
// ---------------------------------------------------------------------------

/// The first member of a list that has the key; the length if none has.
pub open spec fn member_index(members: Seq<(Seq<char>, JsonView)>, key: Seq<char>) -> int
    decreases members.len(),
{
    if members.len() == 0 {
        0
    } else if members[0].0 == key {
        0
    } else {
        1 + member_index(members.drop_first(), key)
    }
}

/// [`member_index`] is the least position that holds the key.
pub proof fn lemma_member_index(members: Seq<(Seq<char>, JsonView)>, key: Seq<char>)
    ensures
        0 <= member_index(members, key) <= members.len(),
        member_index(members, key) < members.len() ==> members[member_index(members, key)].0
            == key,
        forall|k: int| 0 <= k < member_index(members, key) ==> (#[trigger] members[k]).0 != key,
    decreases members.len(),
{
    if members.len() > 0 && members[0].0 != key {
        lemma_member_index(members.drop_first(), key);
        assert forall|k: int| 0 <= k < member_index(members, key) implies (
        #[trigger] members[k]).0 != key by {
            if k > 0 {
                assert(members.drop_first()[k - 1] == members[k]);
            }
        }
    }
}

/// The least position that holds the key is [`member_index`].
pub proof fn lemma_member_index_is(members: Seq<(Seq<char>, JsonView)>, key: Seq<char>, i: int)
    requires
        0 <= i <= members.len(),
        i < members.len() ==> members[i].0 == key,
        forall|k: int| 0 <= k < i ==> (#[trigger] members[k]).0 != key,
    ensures
        member_index(members, key) == i,
{
    lemma_member_index(members, key);
    let j = member_index(members, key);
    if j < i {
        assert(members[j].0 != key);
    } else if i < j {
        assert(members[i].0 != key);
    }
}

/// The member of an object with the given key.
pub open spec fn field_of(j: JsonView, key: Seq<char>) -> Option<JsonView> {
    match j {
        JsonView::Object(members) => {
            let i = member_index(members, key);
            if i < members.len() {
                Some(members[i].1)
            } else {
                None
            }
        },
        _ => None,
    }
}

/// The member of an object with the given key.
pub fn field<'a>(j: &'a Json, key: &str) -> (r: Option<&'a Json>)
    ensures
        r is Some <==> field_of(j@, key@) is Some,
        r matches Some(v) ==> v@ == field_of(j@, key@)->0,
{
    match j {
        Json::Object(members) => {
            let ghost views = j@->Object_0;
            assert(views.len() == members@.len());
            let mut i: usize = 0;
            assert(views.skip(0) =~= views);
            while i < members.len()
                invariant
                    i <= members@.len(),
                    j == Json::Object(*members),
                    views == j@->Object_0,
                    views.len() == members@.len(),
                    member_index(views, key@) == i + member_index(views.skip(i as int), key@),
                decreases members@.len() - i,
            {
                assert(views[i as int] == (members@[i as int].0@, members@[i as int].1@));
                assert(views.skip(i as int).drop_first() =~= views.skip(i + 1));
                assert(views.skip(i as int)[0] == views[i as int]);
                if same(members[i].0.as_str(), key) {
                    return Some(&members[i].1);
                }
                i += 1;
            }
            None
        },
        _ => None,
    }
}

/// The text of a JSON string.
pub open spec fn text_of(j: JsonView) -> Option<Seq<char>> {
    match j {
        JsonView::Text(t) => Some(t),
        _ => None,
    }
}

/// The unsigned number that a JSON value holds, if it is one that fits.
pub open spec fn unsigned_of(j: JsonView) -> Option<nat> {
    match j {
        JsonView::Number(t) => if t.len() > 0 && all_digits(t) && digits_value(t) <= u64::MAX {
            Some(digits_value(t))
        } else {
            None
        },
        _ => None,
    }
}

/// The truth value of a JSON boolean.
pub open spec fn bool_of(j: JsonView) -> Option<bool> {
    match j {
        JsonView::Bool(b) => Some(b),
        _ => None,
    }
}

/// The text of an object's member; `default` where there is none.
pub open spec fn text_field(j: JsonView, key: Seq<char>) -> Option<Seq<char>> {
    match field_of(j, key) {
        Some(v) => text_of(v),
        None => None,
    }
}

/// The text of an object's member that is a string.
pub fn get_text(j: &Json, key: &str) -> (r: Option<String>)
    ensures
        crate::text::opt_text(r) == text_field(j@, key@),
{
    match field(j, key) {
        Some(Json::Text(t)) => Some(t.clone()),
        _ => None,
    }
}

/// The text of an object's member that is a string, else the empty text.
pub open spec fn text_or_empty(j: JsonView, key: Seq<char>) -> Seq<char> {
    match text_field(j, key) {
        Some(t) => t,
        None => seq![],
    }
}

/// The text of an object's member that is a string, else the empty text.
pub fn get_text_or_empty(j: &Json, key: &str) -> (r: String)
    ensures
        r@ == text_or_empty(j@, key@),
{
    match get_text(j, key) {
        Some(t) => t,
        None => {
            let t = String::new();
            assert(t@ =~= Seq::<char>::empty());
            t
        },
    }
}

/// The unsigned number of an object's member.
pub open spec fn unsigned_field(j: JsonView, key: Seq<char>) -> Option<nat> {
    match field_of(j, key) {
        Some(v) => unsigned_of(v),
        None => None,
    }
}

/// The unsigned number of an object's member.
pub fn get_unsigned(j: &Json, key: &str) -> (r: Option<u64>)
    ensures
        r == (match unsigned_field(j@, key@) {
            Some(n) => Some(n as u64),
            None => None,
        }),
{
    match field(j, key) {
        Some(Json::Number(t)) => {
            let chars = chars_of(t.as_str());
            assert(chars@.skip(0) =~= chars@);
            parse_digits(&chars, 0, u64::MAX)
        },
        _ => None,
    }
}

/// The truth value of an object's member.
pub open spec fn bool_field(j: JsonView, key: Seq<char>) -> Option<bool> {
    match field_of(j, key) {
        Some(v) => bool_of(v),
        None => None,
    }
}

/// The truth value of an object's member.
pub fn get_bool(j: &Json, key: &str) -> (r: Option<bool>)
    ensures
        r == bool_field(j@, key@),
{
    match field(j, key) {
        Some(Json::Bool(b)) => Some(*b),
        _ => None,
    }
}

// ---------------------------------------------------------------------------
// Numbers with a fraction
// ---------------------------------------------------------------------------

/// A run of digits with the decimal point behind it moved to the right, or to
/// the left where `shift` is negative; what then follows the point is dropped.
pub open spec fn point_moved(digits: Seq<char>, shift: int) -> Seq<char> {
    if shift >= 0 {
        digits + Seq::new(shift as nat, |i: int| '0')
    } else if digits.len() + shift > 0 {
        digits.take(digits.len() + shift)
    } else {
        seq![]
    }
}

/// A decimal number taken apart: sign, digits before and behind the point, and
/// exponent.
pub struct DecimalParts {
    pub negative: bool,
    pub whole: Seq<char>,
    pub fraction: Seq<char>,
    pub exponent: Option<int>,
}

/// The parts of a number's notation.
pub open spec fn decimal_parts(s: Seq<char>) -> DecimalParts {
    let negative = s.len() > 0 && s[0] == '-';
    let body = if negative {
        s.skip(1)
    } else {
        s
    };
    let e = first_index(body, 'e');
    let mantissa = body.take(e);
    let d = first_index(mantissa, '.');
    DecimalParts {
        negative,
        whole: mantissa.take(d),
        fraction: if d < mantissa.len() {
            mantissa.skip(d + 1)
        } else {
            seq![]
        },
        exponent: if e < body.len() {
            parse_signed(body.skip(e + 1))
        } else {
            Some(0)
        },
    }
}

/// A number, at most `i64::MAX`.
pub open spec fn at_most_max(n: nat) -> int {
    if n > i64::MAX {
        i64::MAX as int
    } else {
        n as int
    }
}

/// The number that a notation denotes, times ten to the power of `places`,
/// without what is left behind the point, and cut to the range of an `i64`.
pub open spec fn scaled(s: Seq<char>, places: int) -> Option<int> {
    let p = decimal_parts(s);
    let digits = p.whole + p.fraction;
    match p.exponent {
        Some(exponent) => if digits.len() > 0 && all_digits(digits) {
            let n = at_most_max(
                digits_value(point_moved(digits, places + exponent - p.fraction.len())),
            );
            Some(
                if p.negative {
                    -n
                } else {
                    n
                },
            )
        } else {
            None
        },
        None => None,
    }
}

proof fn lemma_trailing_zeros(d: Seq<char>, k: nat)
    ensures
        digits_value(d + Seq::new(k, |i: int| '0')) >= digits_value(d),
        digits_value(d) == 0 ==> digits_value(d + Seq::new(k, |i: int| '0')) == 0,
    decreases k,
{
    let z = Seq::new(k, |i: int| '0');
    if k == 0 {
        assert(d + z =~= d);
    } else {
        let y = Seq::new((k - 1) as nat, |i: int| '0');
        lemma_trailing_zeros(d, (k - 1) as nat);
        assert((d + z).drop_last() =~= d + y);
        assert((d + z).last() == '0');
    }
}

/// The value of a run of digits, at most `i64::MAX`.
fn value_of(digits: &[char]) -> (r: i64)
    requires
        all_digits(digits@),
    ensures
        r == at_most_max(digits_value(digits@)),
{
    let mut acc: u64 = 0;
    let mut i: usize = 0;
    assert(digits@.take(0) =~= Seq::<char>::empty());
    while i < digits.len()
        invariant
            i <= digits@.len(),
            all_digits(digits@),
            acc == at_most_max(digits_value(digits@.take(i as int))),
        decreases digits@.len() - i,
    {
        assert(digits@.take(i + 1).drop_last() =~= digits@.take(i as int));
        assert(is_digit(digits@[i as int]));
        let v: u64 = (digits[i] as u64) - 48;
        let max: u64 = i64::MAX as u64;
        acc = if acc > (max - v) / 10 {
            max
        } else {
            acc * 10 + v
        };
        i += 1;
    }
    assert(digits@.take(i as int) =~= digits@);
    acc as i64
}

fn with_zeros(value: i64, zeros: u64, Ghost(d): Ghost<Seq<char>>) -> (r: i64)
    requires
        value == at_most_max(digits_value(d)),
    ensures
        r == at_most_max(digits_value(d + Seq::new(zeros as nat, |i: int| '0'))),
{
    let mut acc: i64 = value;
    let mut k: u64 = 0;
    assert(d + Seq::new(0, |i: int| '0') =~= d);
    while k < zeros
        invariant
            k <= zeros,
            0 <= acc,
            acc == at_most_max(digits_value(d + Seq::new(k as nat, |i: int| '0'))),
        decreases zeros - k,
    {
        proof {
            let now = d + Seq::new(k as nat, |i: int| '0');
            let next = d + Seq::new((k + 1) as nat, |i: int| '0');
            assert(next.drop_last() =~= now);
            assert(next.last() == '0');
            let rest = Seq::new((zeros - k) as nat, |i: int| '0');
            lemma_trailing_zeros(now, (zeros - k) as nat);
            assert(now + rest =~= d + Seq::new(zeros as nat, |i: int| '0'));
        }
        if acc == 0 || acc == i64::MAX {
            return acc;
        }
        acc = if acc > i64::MAX / 10 {
            i64::MAX
        } else {
            acc * 10
        };
        k += 1;
    }
    acc
}

/// The parts of a number's notation: sign, digits, how many of them stand
/// behind the point, and exponent.
fn split_number(s: &str) -> (r: Option<(bool, Vec<char>, usize, i32)>)
    ensures
        r is Some <==> decimal_parts(s@).exponent is Some,
        r matches Some(t) ==> {
            let p = decimal_parts(s@);
            &&& t.0 == p.negative
            &&& t.1@ == p.whole + p.fraction
            &&& t.2 == p.fraction.len()
            &&& t.3 == p.exponent->0
        },
{
    let chars = chars_of(s);
    let negative = chars.len() > 0 && chars[0] == '-';
    let from: usize = if negative {
        1
    } else {
        0
    };
    let body = vstd::slice::slice_subrange(&chars, from, chars.len());
    assert(body@ =~= (if negative {
        s@.skip(1)
    } else {
        s@
    }));
    let e = find_char(body, 'e');
    let mantissa = vstd::slice::slice_subrange(body, 0, e);
    assert(mantissa@ =~= body@.take(e as int));
    let exponent: i32 = if e < body.len() {
        let tail = string_between(body, e + 1, body.len());
        assert(tail@ =~= body@.skip(e + 1));
        match parse_i32(tail.as_str()) {
            Some(n) => n,
            None => {
                return None;
            },
        }
    } else {
        0
    };
    let d = find_char(mantissa, '.');
    let mut digits = vstd::slice::slice_to_vec(vstd::slice::slice_subrange(mantissa, 0, d));
    assert(digits@ =~= mantissa@.take(d as int));
    let mut behind: usize = 0;
    if d < mantissa.len() {
        let fraction = vstd::slice::slice_subrange(mantissa, d + 1, mantissa.len());
        assert(fraction@ =~= mantissa@.skip(d + 1));
        behind = fraction.len();
        digits.extend_from_slice(fraction);
    }
    assert(digits@ =~= decimal_parts(s@).whole + decimal_parts(s@).fraction);
    Some((negative, digits, behind, exponent))
}

fn only_digits(s: &[char]) -> (r: bool)
    ensures
        r == all_digits(s@),
{
    let mut i: usize = 0;
    while i < s.len()
        invariant
            i <= s@.len(),
            forall|k: int| 0 <= k < i ==> is_digit(s@[k]),
        decreases s@.len() - i,
    {
        if !('0' <= s[i] && s[i] <= '9') {
            assert(!is_digit(s@[i as int]));
            return false;
        }
        i += 1;
    }
    true
}

/// The value of the digits after the decimal point moved by
/// `places + exponent - behind`, at most `i64::MAX`.
fn moved_value(digits: &[char], behind: usize, places: u8, exponent: i32) -> (r: i64)
    requires
        all_digits(digits@),
    ensures
        r == at_most_max(digits_value(point_moved(digits@, places + exponent - behind))),
{
    let ghost shift = places + exponent - behind;
    let right: u64 = if exponent >= 0 {
        places as u64 + exponent as u64
    } else {
        places as u64
    };
    let left: u64 = if exponent >= 0 {
        0
    } else {
        (-(exponent as i64)) as u64
    };
    assert(shift == right - left - behind);
    if left <= right && behind as u64 <= right - left {
        let zeros = right - left - behind as u64;
        let v = value_of(digits);
        with_zeros(v, zeros, Ghost(digits@))
    } else {
        // Digits behind the point that are left over.
        let dropped: u64 = if left <= right {
            behind as u64 - (right - left)
        } else if left - right > u64::MAX - behind as u64 {
            u64::MAX
        } else {
            behind as u64 + (left - right)
        };
        if dropped >= digits.len() as u64 {
            assert(point_moved(digits@, shift) =~= Seq::<char>::empty());
            0
        } else {
            let kept = vstd::slice::slice_subrange(digits, 0, digits.len() - dropped as usize);
            assert(kept@ =~= point_moved(digits@, shift));
            value_of(kept)
        }
    }
}

/// The number that a notation denotes, times ten to the power of `places`.
pub fn scale(s: &str, places: u8) -> (r: Option<i64>)
    ensures
        r is Some <==> scaled(s@, places as int) is Some,
        r matches Some(n) ==> n == scaled(s@, places as int)->0,
{
    match split_number(s) {
        Some((negative, digits, behind, exponent)) => {
            if digits.len() == 0 || !only_digits(&digits) {
                return None;
            }
            let n = moved_value(&digits, behind, places, exponent);
            Some(
                if negative {
                    -n
                } else {
                    n
                },
            )
        },
        None => None,
    }
}

/// The number of an object's member, scaled; zero where it has none.
pub open spec fn scaled_field(j: JsonView, key: Seq<char>, places: int, default: int) -> int {
    match field_of(j, key) {
        Some(JsonView::Number(t)) => match scaled(t, places) {
            Some(n) => n,
            None => default,
        },
        _ => default,
    }
}

/// The number of an object's member, scaled; `default` where it has none.
pub fn get_scaled(j: &Json, key: &str, places: u8, default: i64) -> (r: i64)
    ensures
        r == scaled_field(j@, key@, places as int, default as int),
{
    match field(j, key) {
        Some(Json::Number(t)) => match scale(t.as_str(), places) {
            Some(n) => n,
            None => default,
        },
        _ => default,
    }
}

// ---------------------------------------------------------------------------
// What is read out of values
// ---------------------------------------------------------------------------

/// Of an object whose keys are distinct, each member is found by its key, and
/// nothing by any other key.
pub proof fn members_are_found(members: Seq<(Seq<char>, JsonView)>, i: int, other: Seq<char>)
    requires
        distinct_keys(members),
        0 <= i < members.len(),
        forall|k: int| 0 <= k < members.len() ==> (#[trigger] members[k]).0 != other,
    ensures
        field_of(JsonView::Object(members), members[i].0) == Some(members[i].1),
        field_of(JsonView::Object(members), other) is None,
{
    lemma_member_index_is(members, members[i].0, i);
    lemma_member_index_is(members, other, members.len() as int);
}

proof fn lemma_three_zeros(d: Seq<char>)
    ensures
        digits_value(d.push('0').push('0').push('0')) == 1000 * digits_value(d),
{
    let a = d.push('0');
    let b = a.push('0');
    let c = b.push('0');
    assert(a.drop_last() =~= d);
    assert(b.drop_last() =~= a);
    assert(c.drop_last() =~= b);
    assert(digits_value(a) == 10 * digits_value(d));
    assert(digits_value(b) == 10 * digits_value(a));
}

/// A whole number is scaled to thousands and to millions of itself, as far as
/// the range goes, and a minus sign in front of it to their negative.
pub proof fn whole_numbers_scale(n: nat)
    ensures
        scaled(decimal(n), 0) == Some(at_most_max(n)),
        scaled(decimal(n), 3) == Some(at_most_max(1000 * n)),
        scaled(decimal(n), 6) == Some(at_most_max(1_000_000 * n)),
        scaled(seq!['-'] + decimal(n), 3) == Some(-at_most_max(1000 * n)),
{
    let d = decimal(n);
    let m = seq!['-'] + d;
    crate::text::decimal_round_trip(n);
    assert(is_digit(d[0]));
    crate::text::lemma_index_from(d, 'e', 0);
    crate::text::lemma_index_from(d, '.', 0);
    assert(first_index(d, 'e') == d.len()) by {
        let e = first_index(d, 'e');
        if e < d.len() {
            assert(is_digit(d[e]));
        }
    }
    assert(first_index(d, '.') == d.len()) by {
        let e = first_index(d, '.');
        if e < d.len() {
            assert(is_digit(d[e]));
        }
    }
    assert(d.take(d.len() as int) =~= d);
    assert(m.skip(1) =~= d);
    assert(d + Seq::<char>::empty() =~= d);
    let p = decimal_parts(d);
    assert(p.whole == d && p.fraction.len() == 0 && p.exponent == Some(0int) && !p.negative);
    let q = decimal_parts(m);
    assert(q.whole == d && q.fraction.len() == 0 && q.exponent == Some(0int) && q.negative);
    assert(p.whole + p.fraction =~= d);
    assert(q.whole + q.fraction =~= d);
    assert(point_moved(d, 0) =~= d);
    let k = d.push('0').push('0').push('0');
    assert(point_moved(d, 3) =~= k);
    assert(point_moved(d, 6) =~= k.push('0').push('0').push('0'));
    lemma_three_zeros(d);
    lemma_three_zeros(k);
}

} // verus!

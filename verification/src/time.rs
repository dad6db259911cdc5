//! Moments in time, their texts and the spans between them.

use crate::text::{decimal, decimal_string};
use chrono::{DateTime, FixedOffset};
use vstd::prelude::*;

verus! {

broadcast use vstd::string::group_string_axioms;

/// A moment: whole seconds and nanoseconds since the start of 1970 in UTC, and
/// the offset of local time from UTC in seconds.
#[derive(Debug, Clone, Copy, PartialEq, Eq, Structural)]
pub struct Stamp {
    pub secs: i64,
    pub nanos: u32,
    pub offset: i32,
}

/// Whether a moment can be written as a date: it lies within a quarter of a
/// million years of 1970, its nanoseconds exceed a second only within a leap
/// second, and its offset is less than a day.
pub open spec fn valid_stamp(s: Stamp) -> bool {
    &&& -8_000_000_000_000 <= s.secs <= 8_000_000_000_000
    &&& s.nanos < 1_000_000_000 || (s.nanos < 2_000_000_000 && s.secs % 60 == 59)
    &&& -86_400 < s.offset < 86_400
}

/// The format of the time in a session folder's name.
pub open spec fn folder_format() -> Seq<char> {
    "%Y-%m-%d_%H-%M-%S"@
}

/// The format of a time in a list.
pub open spec fn list_format() -> Seq<char> {
    "%Y-%m-%d %H:%M"@
}

/// A moment's local date and time in a format of the `chrono` crate.
pub uninterp spec fn stamp_text(s: Stamp, format: Seq<char>) -> Seq<char>;

/// A moment in the notation of RFC 3339, as the `chrono` crate writes it.
pub uninterp spec fn rfc3339_text(s: Stamp) -> Seq<char>;

/// The moment that a text in the notation of RFC 3339 denotes, as the `chrono`
/// crate reads it.
pub uninterp spec fn rfc3339_read(text: Seq<char>) -> Option<Stamp>;

/// `chrono::DateTime::format` writes the local date and time of a moment by a
/// format; the text is named by [`stamp_text`]. The two formats admitted here
/// hold only specifiers that the crate knows.
#[verifier::external_body]
pub(crate) fn format_stamp(s: Stamp, format: &str) -> (r: String)
    requires
        valid_stamp(s),
        format@ == folder_format() || format@ == list_format(),
    ensures
        r@ == stamp_text(s, format@),
{
    let zone = FixedOffset::east_opt(s.offset).unwrap();
    let at = DateTime::from_timestamp(s.secs, s.nanos).unwrap().with_timezone(&zone);
    at.format(format).to_string()
}

/// Whether the RFC 3339 text of a moment holds all of it: the offset is in
/// whole minutes, the second is no leap second, and the year has four digits.
pub open spec fn writable_stamp(s: Stamp) -> bool {
    &&& 0 <= s.secs < 253_402_214_400
    &&& s.nanos < 1_000_000_000
    &&& -86_400 < s.offset < 86_400
    &&& s.offset % 60 == 0
}

/// `chrono::DateTime::to_rfc3339` writes a moment in the notation of RFC 3339;
/// the text is named by [`rfc3339_text`]. It gives the fraction of the second
/// with as many digits as it needs and the offset in minutes, so where these
/// hold all of the moment, reading the text gives the moment back.
#[verifier::external_body]
pub(crate) fn to_rfc3339(s: Stamp) -> (r: String)
    requires
        valid_stamp(s),
    ensures
        r@ == rfc3339_text(s),
        writable_stamp(s) ==> rfc3339_read(r@) == Some(s),
{
    let zone = FixedOffset::east_opt(s.offset).unwrap();
    let at = DateTime::from_timestamp(s.secs, s.nanos).unwrap().with_timezone(&zone);
    at.to_rfc3339()
}

/// `chrono::DateTime::parse_from_rfc3339` reads a text in the notation of RFC
/// 3339; the moment is named by [`rfc3339_read`]. Its years have four digits
/// and its offset is less than a day, so the moment can be written as a date.
#[verifier::external_body]
pub(crate) fn parse_rfc3339(text: &str) -> (r: Option<Stamp>)
    ensures
        r == rfc3339_read(text@),
        r matches Some(s) ==> valid_stamp(s),
{
    let at = DateTime::parse_from_rfc3339(text).ok()?;
    Some(
        Stamp {
            secs: at.timestamp(),
            nanos: at.timestamp_subsec_nanos(),
            offset: at.offset().local_minus_utc(),
        },
    )
}

/// Nanoseconds since the start of 1970.
pub open spec fn total_nanos(s: Stamp) -> int {
    s.secs * 1_000_000_000 + s.nanos
}

/// Whether a moment lies within a leap second.
pub open spec fn in_leap_second(s: Stamp) -> bool {
    s.nanos >= 1_000_000_000
}

/// The second of its day that a moment lies in; that of a leap second is the one
/// before it.
pub open spec fn second_of_day(s: Stamp) -> int {
    s.secs as int % 86_400
}

/// The leap second between two moments that their seconds do not count: it is
/// the earlier one's, told by the time of day.
pub open spec fn uncounted_second(start: Stamp, end: Stamp) -> int {
    if second_of_day(end) > second_of_day(start) && in_leap_second(start) {
        1
    } else if second_of_day(end) < second_of_day(start) && in_leap_second(end) {
        -1
    } else {
        0
    }
}

/// Whole milliseconds from `start` to `end`, without what is left over.
pub open spec fn millis_from(start: Stamp, end: Stamp) -> int {
    let d = total_nanos(end) - total_nanos(start) + 1_000_000_000 * uncounted_second(start, end);
    if d >= 0 {
        d / 1_000_000
    } else {
        -((-d) / 1_000_000)
    }
}

/// Whole milliseconds from `start` to `end`; negative where `end` comes first.
pub fn millis_between(start: Stamp, end: Stamp) -> (r: i64)
    requires
        valid_stamp(start),
        valid_stamp(end),
    ensures
        r == millis_from(start, end),
        -17_000_000_000_000_000 <= r <= 17_000_000_000_000_000,
{
    let a: i128 = start.secs as i128 * 1_000_000_000 + start.nanos as i128;
    let b: i128 = end.secs as i128 * 1_000_000_000 + end.nanos as i128;
    let from = day_second(start);
    let to = day_second(end);
    let uncounted: i128 = if to > from && start.nanos >= 1_000_000_000 {
        1_000_000_000
    } else if to < from && end.nanos >= 1_000_000_000 {
        -1_000_000_000
    } else {
        0
    };
    let d: i128 = b - a + uncounted;
    if d >= 0 {
        (d / 1_000_000) as i64
    } else {
        -(((-d) / 1_000_000) as i64)
    }
}

fn day_second(s: Stamp) -> (r: i64)
    requires
        valid_stamp(s),
    ensures
        r == second_of_day(s),
{
    // Whole days are added, so that the remainder counts forward.
    (s.secs + 8_640_000_000_000) % 86_400
}

/// The moment a number of milliseconds later. From within a leap second one
/// stays in it as long as it lasts; leaving it, one counts from the second before
/// it.
pub open spec fn later(s: Stamp, millis: int) -> Stamp {
    if in_leap_second(s) && millis < 1000 && s.nanos + millis * 1_000_000 < 2_000_000_000 {
        Stamp { nanos: (s.nanos + millis * 1_000_000) as u32, ..s }
    } else {
        let counted = if in_leap_second(s) {
            total_nanos(s) - 1_000_000_000
        } else {
            total_nanos(s)
        };
        let n = counted + millis * 1_000_000;
        Stamp {
            secs: (n / 1_000_000_000) as i64,
            nanos: (n % 1_000_000_000) as u32,
            offset: s.offset,
        }
    }
}

/// The moment a number of milliseconds later, up to a thousand for each byte
/// that the machine can count.
pub fn add_millis(s: Stamp, millis: u128) -> (r: Stamp)
    requires
        valid_stamp(s),
        millis <= 18_446_744_073_709_551_615_000,
    ensures
        r == later(s, millis as int),
{
    let leap = s.nanos >= 1_000_000_000;
    if leap && millis < 1000 && s.nanos as u128 + millis * 1_000_000 < 2_000_000_000 {
        return Stamp { secs: s.secs, nanos: s.nanos + millis as u32 * 1_000_000, offset: s.offset };
    }
    let nanos = if leap {
        s.nanos - 1_000_000_000
    } else {
        s.nanos
    };
    let n: i128 = s.secs as i128 * 1_000_000_000 + nanos as i128 + millis as i128 * 1_000_000;
    if n >= 0 {
        Stamp {
            secs: (n / 1_000_000_000) as i64,
            nanos: (n % 1_000_000_000) as u32,
            offset: s.offset,
        }
    } else {
        // Rounded down, so that the nanoseconds count forward.
        let m: i128 = -n;
        let whole: i128 = (m + 999_999_999) / 1_000_000_000;
        let rest: i128 = whole * 1_000_000_000 - m;
        Stamp { secs: (-whole) as i64, nanos: rest as u32, offset: s.offset }
    }
}

/// The decimal notation of a number with its sign.
pub open spec fn signed_decimal(n: int) -> Seq<char> {
    if n < 0 {
        seq!['-'] + decimal((-n) as nat)
    } else {
        decimal(n as nat)
    }
}

/// The decimal notation of a number with its sign.
pub fn signed_string(n: i64) -> (r: String)
    ensures
        r@ == signed_decimal(n as int),
{
    if n < 0 {
        let m: u64 = (-(n as i128)) as u64;
        let mut out = String::new();
        out.push('-');
        out.append(decimal_string(m).as_str());
        assert(out@ =~= signed_decimal(n as int));
        out
    } else {
        decimal_string(n as u64)
    }
}

/// A moment as a number: nanoseconds since the start of 1970 where they fit
/// into an `i64`, else milliseconds.
pub open spec fn stamp_number(s: Stamp) -> int {
    if i64::MIN <= total_nanos(s) <= i64::MAX {
        total_nanos(s)
    } else {
        s.secs * 1000 + s.nanos as int / 1_000_000
    }
}

/// A moment as a number.
pub fn number_of(s: Stamp) -> (r: i64)
    requires
        valid_stamp(s),
    ensures
        r == stamp_number(s),
{
    let n: i128 = s.secs as i128 * 1_000_000_000 + s.nanos as i128;
    if i64::MIN as i128 <= n && n <= i64::MAX as i128 {
        n as i64
    } else {
        s.secs * 1000 + (s.nanos / 1_000_000) as i64
    }
}

/// Milliseconds as a decimal number of seconds, with at least one digit behind
/// the point and none that is not needed.
pub open spec fn seconds_decimal(millis: int) -> Seq<char> {
    let m: nat = if millis < 0 {
        (-millis) as nat
    } else {
        millis as nat
    };
    let sign: Seq<char> = if millis < 0 {
        seq!['-']
    } else {
        seq![]
    };
    sign + decimal(m / 1000) + seq!['.'] + fraction_digits(m % 1000)
}

/// The digits of thousandths behind the point, without trailing zeros beyond
/// the first digit.
pub open spec fn fraction_digits(f: nat) -> Seq<char> {
    let a = crate::text::digit((f / 100) as int);
    let b = crate::text::digit((f / 10 % 10) as int);
    let c = crate::text::digit((f % 10) as int);
    if f % 100 == 0 {
        seq![a]
    } else if f % 10 == 0 {
        seq![a, b]
    } else {
        seq![a, b, c]
    }
}

/// Milliseconds as a decimal number of seconds.
pub fn seconds_string(millis: i64) -> (r: String)
    ensures
        r@ == seconds_decimal(millis as int),
{
    let m: u64 = if millis < 0 {
        (-(millis as i128)) as u64
    } else {
        millis as u64
    };
    let mut out = String::new();
    if millis < 0 {
        out.push('-');
    }
    out.append(decimal_string(m / 1000).as_str());
    out.push('.');
    let f = m % 1000;
    out.append(decimal_string(f / 100).as_str());
    if f % 100 != 0 {
        out.append(decimal_string(f / 10 % 10).as_str());
    }
    if f % 10 != 0 {
        out.append(decimal_string(f % 10).as_str());
    }
    assert(f % 10 != 0 ==> f % 100 != 0);
    assert(out@ =~= seconds_decimal(millis as int));
    out
}

/// A number within the range of an `i64`.
pub open spec fn clamped(n: int) -> int {
    if n > i64::MAX {
        i64::MAX as int
    } else if n < i64::MIN {
        i64::MIN as int
    } else {
        n
    }
}

/// A number within the range of an `i64`.
pub fn clamp(n: i128) -> (r: i64)
    ensures
        r == clamped(n as int),
{
    if n > i64::MAX as i128 {
        i64::MAX
    } else if n < i64::MIN as i128 {
        i64::MIN
    } else {
        n as i64
    }
}

/// Outside of leap seconds, a moment that is reached after some milliseconds
/// lies that many milliseconds behind, keeps its zone, and the time from it back
/// is as long.
pub proof fn later_moments_lie_behind(s: Stamp, millis: int)
    requires
        valid_stamp(s),
        s.nanos < 1_000_000_000,
        0 <= millis <= 1_000_000_000_000_000,
    ensures
        millis_from(s, later(s, millis)) == millis,
        millis_from(later(s, millis), s) == -millis,
        later(s, millis).offset == s.offset,
        later(s, millis).nanos < 1_000_000_000,
        later(s, 0) == s,
{
    let n = total_nanos(s) + millis * 1_000_000;
    let t = later(s, millis);
    assert(total_nanos(t) == n);
    assert((millis * 1_000_000) / 1_000_000 == millis);
}

/// Waiting twice is waiting once for as long as both.
pub proof fn waiting_adds_up(s: Stamp, a: int, b: int)
    requires
        valid_stamp(s),
        s.nanos < 1_000_000_000,
        0 <= a <= 1_000_000_000_000_000,
        0 <= b <= 1_000_000_000_000_000,
    ensures
        later(later(s, a), b) == later(s, a + b),
{
    let t = later(s, a);
    assert(total_nanos(t) == total_nanos(s) + a * 1_000_000);
    assert(a * 1_000_000 + b * 1_000_000 == (a + b) * 1_000_000);
}

/// Outside of leap seconds, moments in the same second of the clock are as many
/// milliseconds apart as their seconds are thousands apart, whatever their zones.
pub proof fn seconds_have_thousand_milliseconds(a: Stamp, b: Stamp)
    requires
        a.nanos == b.nanos,
        a.nanos < 1_000_000_000,
    ensures
        millis_from(a, b) == 1000 * (b.secs - a.secs),
{
}

/// The number of a moment is its nanoseconds since 1970, as long as they fit:
/// different moments of these centuries have different numbers, later ones
/// larger ones.
pub proof fn numbers_rise_with_time(a: Stamp, b: Stamp)
    requires
        0 <= a.secs < 9_000_000_000,
        0 <= b.secs < 9_000_000_000,
        a.nanos < 1_000_000_000,
        b.nanos < 1_000_000_000,
        a.secs < b.secs || (a.secs == b.secs && a.nanos < b.nanos),
    ensures
        stamp_number(a) < stamp_number(b),
{
}

} // verus!

//! RFC 3339 timestamps.
//!
//! A timestamp is read byte by byte. A stretch of bytes that reads as a number
//! is ASCII, so a position behind one is never inside a character.

use vstd::prelude::*;
use vstd::utf8::encode_utf8;

#[allow(unused_imports)]
use crate::clock::clock_reads;
use crate::clock::{signed_seconds, unix_now};
use crate::text::trim;
#[allow(unused_imports)]
use crate::text::{trimmed, what_stands_between_is_kept, white_space};

verus! {

// ---------------------------------------------------------------------------
// Models
// ---------------------------------------------------------------------------

/// `b` is an ASCII decimal digit.
pub open spec fn digit_byte(b: u8) -> bool {
    48 <= b <= 57
}

/// The number that a row of digits stands for.
pub open spec fn digit_bytes_value(b: Seq<u8>) -> int
    decreases b.len(),
{
    if b.len() == 0 {
        0
    } else {
        10 * digit_bytes_value(b.drop_last()) + (b.last() - 48)
    }
}

/// `b` begins with a sign.
pub open spec fn signed(b: Seq<u8>) -> bool {
    b.len() > 0 && (b[0] == 43 || b[0] == 45)
}

/// What follows the optional sign of `b`.
pub open spec fn number_digits(b: Seq<u8>) -> Seq<u8> {
    if signed(b) {
        b.skip(1)
    } else {
        b
    }
}

/// Every byte of `b` is a digit.
pub open spec fn all_digit_bytes(b: Seq<u8>) -> bool {
    forall|i: int| 0 <= i < b.len() ==> digit_byte(#[trigger] b[i])
}

/// The number that `b` denotes: an optional sign and at least one digit.
pub open spec fn number_value(b: Seq<u8>) -> Option<int> {
    let digits = number_digits(b);
    if digits.len() == 0 || !all_digit_bytes(digits) {
        None
    } else if b[0] == 45 {
        Some(-digit_bytes_value(digits))
    } else {
        Some(digit_bytes_value(digits))
    }
}

/// The number that stands in `b` from `from` up to `to`.
pub open spec fn field(b: Seq<u8>, from: int, to: int) -> Option<int> {
    number_value(b.subrange(from, to))
}

/// Leap years have 366 days.
pub open spec fn leap_year(year: int) -> bool {
    year % 4 == 0 && (year % 100 != 0 || year % 400 == 0)
}

/// Days of an ordinary year that precede its `month`.
pub open spec fn days_before_month(month: int) -> int {
    if month <= 1 {
        0
    } else if month == 2 {
        31
    } else if month == 3 {
        59
    } else if month == 4 {
        90
    } else if month == 5 {
        120
    } else if month == 6 {
        151
    } else if month == 7 {
        181
    } else if month == 8 {
        212
    } else if month == 9 {
        243
    } else if month == 10 {
        273
    } else if month == 11 {
        304
    } else {
        334
    }
}

/// Division that rounds towards zero, for a positive divisor.
pub open spec fn quotient(a: int, d: int) -> int {
    if a >= 0 {
        a / d
    } else {
        -((-a) / d)
    }
}

/// Leap days from the Unix epoch up to the beginning of `year`.
pub open spec fn leap_days(year: int) -> int {
    quotient(year - 1, 4) - quotient(year - 1, 100) + quotient(year - 1, 400) - 477
}

/// Days from the Unix epoch to a date.
pub open spec fn day_number(year: int, month: int, day: int) -> int {
    365 * (year - 1970) + leap_days(year) + days_before_month(month) + (day - 1) + (if month > 2
        && leap_year(year) {
        1int
    } else {
        0int
    })
}

/// What is left of `b` behind fractional seconds.
pub open spec fn after_fraction(b: Seq<u8>) -> Seq<u8>
    decreases b.len(),
{
    if b.len() > 0 && (b[0] == 46 || digit_byte(b[0])) {
        after_fraction(b.drop_first())
    } else {
        b
    }
}

/// The seconds that the zone `tz` is ahead of UTC. A zone that is not written
/// as an offset counts as UTC; an offset that cannot be read has no value.
pub open spec fn zone_offset(tz: Seq<u8>) -> Option<int> {
    if tz.len() >= 5 && (tz[0] == 43 || tz[0] == 45) {
        if tz.len() < 6 {
            None
        } else {
            match (field(tz, 1, 3), field(tz, 4, 6)) {
                (Some(h), Some(m)) => if tz[0] == 45 {
                    Some(-(h * 3600 + m * 60))
                } else {
                    Some(h * 3600 + m * 60)
                },
                _ => None,
            }
        }
    } else {
        Some(0)
    }
}

/// Seconds from the Unix epoch to the moment that the bytes `b` denote.
pub open spec fn epoch_of_bytes(b: Seq<u8>) -> Option<int> {
    if b.len() < 19 {
        None
    } else {
        match (
            field(b, 0, 4),
            field(b, 5, 7),
            field(b, 8, 10),
            field(b, 11, 13),
            field(b, 14, 16),
            field(b, 17, 19),
            zone_offset(after_fraction(b.skip(19))),
        ) {
            (
                Some(year),
                Some(month),
                Some(day),
                Some(hour),
                Some(min),
                Some(sec),
                Some(offset),
            ) => if 1 <= month <= 12 {
                Some(
                    day_number(year, month, day) * 86400 + hour * 3600 + min * 60 + sec - offset,
                )
            } else {
                None
            },
            _ => None,
        }
    }
}

/// Seconds from the Unix epoch to the moment that the text `s` denotes.
pub open spec fn epoch_of(s: Seq<char>) -> Option<int> {
    epoch_of_bytes(encode_utf8(trimmed(s)))
}

/// The timestamp `s` lies before `now`. What is no timestamp lies nowhere.
pub open spec fn past(s: Seq<char>, now: int) -> bool {
    epoch_of(s) matches Some(epoch) && epoch < now
}

// ---------------------------------------------------------------------------
// Laws
// ---------------------------------------------------------------------------

/// The number of days of a month.
pub open spec fn month_length(year: int, month: int) -> int {
    if month == 2 {
        if leap_year(year) {
            29
        } else {
            28
        }
    } else if month == 4 || month == 6 || month == 9 || month == 11 {
        30
    } else {
        31
    }
}

/// Dates are numbered as the Gregorian calendar counts them: the Unix epoch has
/// number zero, and from each date of the common era to the following one the
/// number grows by one.
pub proof fn day_number_follows_the_calendar(year: int, month: int, day: int)
    requires
        year >= 1,
        1 <= month <= 12,
        1 <= day <= month_length(year, month),
    ensures
        day_number(1970, 1, 1) == 0,
        day < month_length(year, month) ==> day_number(year, month, day + 1) == day_number(
            year,
            month,
            day,
        ) + 1,
        day == month_length(year, month) && month < 12 ==> day_number(year, month + 1, 1)
            == day_number(year, month, day) + 1,
        day == month_length(year, month) && month == 12 ==> day_number(year + 1, 1, 1)
            == day_number(year, month, day) + 1,
{
}

/// Fractional seconds do not move a timestamp: `fraction`, made of dots and
/// digits and put between the seconds and the zone, changes nothing.
pub proof fn fraction_is_ignored(head: Seq<u8>, fraction: Seq<u8>, tz: Seq<u8>)
    requires
        head.len() == 19,
        forall|i: int|
            0 <= i < fraction.len() ==> (#[trigger] fraction[i] == 46 || digit_byte(fraction[i])),
    ensures
        epoch_of_bytes(head + fraction + tz) == epoch_of_bytes(head + tz),
{
    lemma_after_fraction(fraction, tz);
    let whole = head + fraction + tz;
    let plain = head + tz;
    assert(whole.skip(19) =~= fraction + tz);
    assert(plain.skip(19) =~= tz);
    assert(whole.subrange(0, 4) =~= plain.subrange(0, 4));
    assert(whole.subrange(5, 7) =~= plain.subrange(5, 7));
    assert(whole.subrange(8, 10) =~= plain.subrange(8, 10));
    assert(whole.subrange(11, 13) =~= plain.subrange(11, 13));
    assert(whole.subrange(14, 16) =~= plain.subrange(14, 16));
    assert(whole.subrange(17, 19) =~= plain.subrange(17, 19));
}

proof fn lemma_after_fraction(fraction: Seq<u8>, tz: Seq<u8>)
    requires
        forall|i: int|
            0 <= i < fraction.len() ==> (#[trigger] fraction[i] == 46 || digit_byte(fraction[i])),
    ensures
        after_fraction(fraction + tz) == after_fraction(tz),
    decreases fraction.len(),
{
    if fraction.len() == 0 {
        assert(fraction + tz =~= tz);
    } else {
        assert((fraction + tz).drop_first() =~= fraction.drop_first() + tz);
        assert((fraction + tz)[0] == fraction[0]);
        lemma_after_fraction(fraction.drop_first(), tz);
    }
}

// ---------------------------------------------------------------------------
// Operations
// ---------------------------------------------------------------------------

/// The number that stands in `b` from `from` up to `to`, a stretch of at most
/// four bytes.
fn read_field(b: &[u8], from: usize, to: usize) -> (r: Option<i64>)
    requires
        from < to <= b@.len(),
        to - from <= 4,
    ensures
        r matches Some(v) ==> field(b@, from as int, to as int) == Some(v as int) && -9999 <= v
            <= 9999,
        r is None ==> field(b@, from as int, to as int) is None,
{
    let ghost part = b@.subrange(from as int, to as int);
    let has_sign = b[from] == 43 || b[from] == 45;
    let start: usize = if has_sign {
        from + 1
    } else {
        from
    };
    let ghost digits = number_digits(part);
    assert(digits =~= b@.subrange(start as int, to as int));
    if start == to {
        return None;
    }
    let mut value: i64 = 0;
    let mut i: usize = start;
    while i < to
        invariant
            from <= start <= i <= to <= b@.len(),
            to - from <= 4,
            part == b@.subrange(from as int, to as int),
            digits == number_digits(part),
            digits == b@.subrange(start as int, to as int),
            forall|j: int| 0 <= j < i - start ==> digit_byte(#[trigger] digits[j]),
            value == digit_bytes_value(digits.take(i - start)),
            i == start ==> value == 0,
            i == start + 1 ==> 0 <= value <= 9,
            i == start + 2 ==> 0 <= value <= 99,
            i == start + 3 ==> 0 <= value <= 999,
            i == start + 4 ==> 0 <= value <= 9999,
        ensures
            i == to,
            0 <= value <= 9999,
            value == digit_bytes_value(digits.take(to - start)),
            forall|j: int| 0 <= j < to - start ==> digit_byte(#[trigger] digits[j]),
        decreases to - i,
    {
        let d = b[i];
        assert(digits[i - start] == d);
        if d < 48 || d > 57 {
            assert(!all_digit_bytes(digits));
            return None;
        }
        assert(digits.take(i + 1 - start).drop_last() =~= digits.take(i - start));
        value = value * 10 + ((d - 48) as i64);
        i = i + 1;
    }
    assert(digits.take(to - start) =~= digits);
    if b[from] == 45 {
        Some(-value)
    } else {
        Some(value)
    }
}

/// Division that rounds towards zero.
fn divide(a: i64, d: i64) -> (r: i64)
    requires
        -100_000 <= a <= 100_000,
        1 <= d <= 400,
    ensures
        r == quotient(a as int, d as int),
        -100_000 <= r <= 100_000,
{
    if a >= 0 {
        let q: i64 = a / d;
        assert(0 <= q <= a) by (nonlinear_arith)
            requires
                q == a / d,
                a >= 0,
                d >= 1,
        ;
        q
    } else {
        let n: i64 = -a;
        let q: i64 = n / d;
        assert(0 <= q <= n) by (nonlinear_arith)
            requires
                q == n / d,
                n >= 0,
                d >= 1,
        ;
        -q
    }
}

/// Days of an ordinary year that precede its `month`.
fn days_before(month: i64) -> (r: i64)
    ensures
        r == days_before_month(month as int),
        0 <= r <= 334,
{
    if month <= 1 {
        0
    } else if month == 2 {
        31
    } else if month == 3 {
        59
    } else if month == 4 {
        90
    } else if month == 5 {
        120
    } else if month == 6 {
        151
    } else if month == 7 {
        181
    } else if month == 8 {
        212
    } else if month == 9 {
        243
    } else if month == 10 {
        273
    } else if month == 11 {
        304
    } else {
        334
    }
}

/// Leap years have 366 days.
fn is_leap_year(year: i64) -> (r: bool)
    requires
        -9999 <= year <= 9999,
    ensures
        r == leap_year(year as int),
{
    year % 4 == 0 && (year % 100 != 0 || year % 400 == 0)
}

/// Leap days from the Unix epoch up to the beginning of `year`.
fn leap_days_before(year: i64) -> (r: i64)
    requires
        -9999 <= year <= 9999,
    ensures
        r == leap_days(year as int),
        -400_000 <= r <= 400_000,
{
    let fourth: i64 = divide(year - 1, 4);
    let hundredth: i64 = divide(year - 1, 100);
    let four_hundredth: i64 = divide(year - 1, 400);
    fourth - hundredth + four_hundredth - 477
}

/// Days from the Unix epoch to a date.
fn days_from_epoch(year: i64, month: i64, day: i64) -> (r: i64)
    requires
        -9999 <= year <= 9999,
        1 <= month <= 12,
        -9999 <= day <= 9999,
    ensures
        r == day_number(year as int, month as int, day as int),
        -10_000_000 <= r <= 10_000_000,
{
    let leap: i64 = leap_days_before(year);
    let before: i64 = days_before(month);
    let leap_adj: i64 = if month > 2 && is_leap_year(year) {
        1
    } else {
        0
    };
    365 * (year - 1970) + leap + before + (day - 1) + leap_adj
}

/// The seconds that the zone standing in `b` behind the seconds is ahead of UTC.
fn read_zone(b: &[u8]) -> (r: Option<i64>)
    requires
        b@.len() >= 19,
    ensures
        r matches Some(v) ==> zone_offset(after_fraction(b@.skip(19))) == Some(v as int)
            && -100_000_000 <= v <= 100_000_000,
        r is None ==> zone_offset(after_fraction(b@.skip(19))) is None,
{
    let n: usize = b.len();
    let mut at: usize = 19;
    while at < n && (b[at] == 46 || (48 <= b[at] && b[at] <= 57))
        invariant
            19 <= at <= n,
            n == b@.len(),
            after_fraction(b@.skip(19)) == after_fraction(b@.skip(at as int)),
        decreases n - at,
    {
        assert(b@.skip(at as int).drop_first() =~= b@.skip(at + 1));
        at = at + 1;
    }
    let ghost tz = b@.skip(at as int);
    assert(after_fraction(b@.skip(19)) == tz);
    if n - at < 5 || (b[at] != 43 && b[at] != 45) {
        return Some(0);
    }
    if n - at < 6 {
        return None;
    }
    assert(b@.subrange(at + 1, at + 3) =~= tz.subrange(1, 3));
    assert(b@.subrange(at + 4, at + 6) =~= tz.subrange(4, 6));
    match (read_field(b, at + 1, at + 3), read_field(b, at + 4, at + 6)) {
        (Some(h), Some(m)) => {
            let seconds: i64 = h * 3600 + m * 60;
            if b[at] == 45 {
                Some(-seconds)
            } else {
                Some(seconds)
            }
        },
        _ => None,
    }
}

/// Parse an RFC 3339 timestamp into seconds since the Unix epoch (UTC).
///
/// Handles `2025-03-10T12:34:56Z`, `2025-03-10T12:34:56.123Z` and
/// `2025-03-10T12:34:56+05:30`.
pub fn parse_rfc3339_epoch(s: &str) -> (r: Option<i64>)
    ensures
        r matches Some(epoch) ==> epoch_of(s@) == Some(epoch as int) && -1_000_000_000_000 <= epoch
            <= 1_000_000_000_000,
        r is None ==> epoch_of(s@) is None,
{
    let t = trim(s);
    let b = t.as_str().as_bytes();
    if b.len() < 19 {
        return None;
    }
    let year: i64 = match read_field(b, 0, 4) {
        Some(v) => v,
        None => {
            return None;
        },
    };
    let month: i64 = match read_field(b, 5, 7) {
        Some(v) => v,
        None => {
            return None;
        },
    };
    let day: i64 = match read_field(b, 8, 10) {
        Some(v) => v,
        None => {
            return None;
        },
    };
    let hour: i64 = match read_field(b, 11, 13) {
        Some(v) => v,
        None => {
            return None;
        },
    };
    let min: i64 = match read_field(b, 14, 16) {
        Some(v) => v,
        None => {
            return None;
        },
    };
    let sec: i64 = match read_field(b, 17, 19) {
        Some(v) => v,
        None => {
            return None;
        },
    };
    if month < 1 || month > 12 {
        return None;
    }
    let days: i64 = days_from_epoch(year, month, day);
    let epoch: i64 = days * 86400 + hour * 3600 + min * 60 + sec;
    match read_zone(b) {
        Some(offset) => Some(epoch - offset),
        None => None,
    }
}

/// The RFC 3339 timestamp `s` lies before `now`, in seconds since the Unix
/// epoch. False when `s` cannot be read.
pub fn is_expired_at(s: &str, now: i64) -> (r: bool)
    ensures
        r == past(s@, now as int),
        epoch_of(s@) is None ==> !r,
        epoch_of(s@) is Some ==> (r <==> epoch_of(s@)->0 < now),
{
    match parse_rfc3339_epoch(s) {
        Some(epoch) => epoch < now,
        None => false,
    }
}

/// The RFC 3339 timestamp `s` lies before what the clock reads. False when `s` cannot be read.
pub fn is_expired_rfc3339(s: &str) -> (r: bool)
    ensures
        exists|now: u64| #[trigger] clock_reads(now) && r == past(s@, (now as i64) as int),
        epoch_of(s@) is None ==> !r,
{
    let now: u64 = unix_now();
    is_expired_at(s, signed_seconds(now))
}

// ---------------------------------------------------------------------------
// Laws on what is read
// ---------------------------------------------------------------------------

/// A number below a hundred, in two digits.
pub open spec fn two_digits(n: int) -> Seq<u8> {
    seq![(48 + n / 10) as u8, (48 + n % 10) as u8]
}

/// A number below ten thousand, in four digits.
pub open spec fn four_digits(n: int) -> Seq<u8> {
    two_digits(n / 100) + two_digits(n % 100)
}

proof fn lemma_two_digits(n: int)
    requires
        0 <= n <= 99,
    ensures
        number_value(two_digits(n)) == Some(n),
{
    let b = two_digits(n);
    assert(b.drop_last() =~= seq![b[0]]);
    assert(b.drop_last().drop_last() =~= Seq::empty());
    reveal_with_fuel(digit_bytes_value, 3);
    assert(all_digit_bytes(b));
}

proof fn lemma_four_digits(n: int)
    requires
        0 <= n <= 9999,
    ensures
        number_value(four_digits(n)) == Some(n),
{
    let b = four_digits(n);
    let h = n / 100;
    let l = n % 100;
    assert(b =~= seq![
        (48 + h / 10) as u8,
        (48 + h % 10) as u8,
        (48 + l / 10) as u8,
        (48 + l % 10) as u8,
    ]);
    assert(b.drop_last() =~= seq![b[0], b[1], b[2]]);
    assert(b.drop_last().drop_last() =~= seq![b[0], b[1]]);
    assert(b.drop_last().drop_last().drop_last() =~= seq![b[0]]);
    assert(b.drop_last().drop_last().drop_last().drop_last() =~= Seq::empty());
    reveal_with_fuel(digit_bytes_value, 5);
    assert(all_digit_bytes(b));
}

/// Six numbers with one separator behind each but the last.
pub open spec fn separated(numbers: Seq<Seq<u8>>, between: Seq<u8>) -> Seq<u8> {
    numbers[0] + seq![between[0]] + numbers[1] + seq![between[1]] + numbers[2] + seq![between[2]]
        + numbers[3] + seq![between[3]] + numbers[4] + seq![between[4]] + numbers[5]
}

/// Date and time with one separator behind each number but the last.
pub open spec fn date_and_time(
    date: (int, int, int),
    time: (int, int, int),
    between: Seq<u8>,
) -> Seq<u8> {
    separated(
        seq![
            four_digits(date.0),
            two_digits(date.1),
            two_digits(date.2),
            two_digits(time.0),
            two_digits(time.1),
            two_digits(time.2),
        ],
        between,
    )
}

proof fn lemma_between(a: Seq<u8>, b: Seq<u8>, c: Seq<u8>)
    ensures
        (a + b + c).subrange(a.len() as int, (a.len() + b.len()) as int) == b,
        (a + b).skip(a.len() as int) == b,
{
    assert((a + b + c).subrange(a.len() as int, (a.len() + b.len()) as int) =~= b);
    assert((a + b).skip(a.len() as int) =~= b);
}

proof fn lemma_separated(n: Seq<Seq<u8>>, between: Seq<u8>, tz: Seq<u8>)
    requires
        n.len() == 6,
        n[0].len() == 4,
        forall|i: int| 1 <= i < 6 ==> (#[trigger] n[i]).len() == 2,
    ensures
        separated(n, between).len() == 19,
        (separated(n, between) + tz).subrange(0, 4) == n[0],
        (separated(n, between) + tz).subrange(5, 7) == n[1],
        (separated(n, between) + tz).subrange(8, 10) == n[2],
        (separated(n, between) + tz).subrange(11, 13) == n[3],
        (separated(n, between) + tz).subrange(14, 16) == n[4],
        (separated(n, between) + tz).subrange(17, 19) == n[5],
        (separated(n, between) + tz).skip(19) == tz,
{
    let none = Seq::<u8>::empty();
    let a1 = n[0] + seq![between[0]];
    let a2 = a1 + n[1] + seq![between[1]];
    let a3 = a2 + n[2] + seq![between[2]];
    let a4 = a3 + n[3] + seq![between[3]];
    let a5 = a4 + n[4] + seq![between[4]];
    let all = separated(n, between);
    assert(all == a5 + n[5]);
    lemma_between(all, tz, none);
    assert(a1.subrange(0, 4) =~= n[0]);
    lemma_between(a1, n[1], seq![between[1]]);
    lemma_between(a2, n[2], seq![between[2]]);
    lemma_between(a3, n[3], seq![between[3]]);
    lemma_between(a4, n[4], seq![between[4]]);
    lemma_between(a5, n[5], tz);
    lemma_grow(a1, n[1], seq![between[1]], 0, 4);
    lemma_grow(a2, n[2], seq![between[2]], 0, 4);
    lemma_grow(a3, n[3], seq![between[3]], 0, 4);
    lemma_grow(a4, n[4], seq![between[4]], 0, 4);
    lemma_grow(a5, n[5], tz, 0, 4);
    lemma_grow(a2, n[2], seq![between[2]], 5, 7);
    lemma_grow(a3, n[3], seq![between[3]], 5, 7);
    lemma_grow(a4, n[4], seq![between[4]], 5, 7);
    lemma_grow(a5, n[5], tz, 5, 7);
    lemma_grow(a3, n[3], seq![between[3]], 8, 10);
    lemma_grow(a4, n[4], seq![between[4]], 8, 10);
    lemma_grow(a5, n[5], tz, 8, 10);
    lemma_grow(a4, n[4], seq![between[4]], 11, 13);
    lemma_grow(a5, n[5], tz, 11, 13);
    lemma_grow(a5, n[5], tz, 14, 16);
}

proof fn lemma_grow(a: Seq<u8>, b: Seq<u8>, c: Seq<u8>, i: int, j: int)
    requires
        0 <= i <= j <= a.len(),
    ensures
        (a + b + c).subrange(i, j) == a.subrange(i, j),
{
    assert((a + b + c).subrange(i, j) =~= a.subrange(i, j));
}

/// A timestamp is read by place. Without a zone, and with `Z`, it is the
/// seconds of the days since the Unix epoch and those of the time of day. A zone
/// ahead of UTC takes its hours and minutes away, one behind UTC adds them. A
/// month beyond twelve, a missing one and a zone without its minutes are
/// refused.
#[verifier::rlimit(60)]
pub proof fn timestamps_are_read_by_place(
    date: (int, int, int),
    time: (int, int, int),
    between: Seq<u8>,
    zone: (int, int),
    colon: u8,
)
    requires
        0 <= date.0 <= 9999,
        0 <= date.1 <= 99,
        0 <= date.2 <= 99,
        0 <= time.0 <= 99,
        0 <= time.1 <= 99,
        0 <= time.2 <= 99,
        between.len() == 5,
        0 <= zone.0 <= 99,
        0 <= zone.1 <= 99,
    ensures
        ({
            let head = date_and_time(date, time, between);
            let offset = two_digits(zone.0) + seq![colon] + two_digits(zone.1);
            let seconds = day_number(date.0, date.1, date.2) * 86400 + time.0 * 3600 + time.1 * 60
                + time.2;
            let ahead = zone.0 * 3600 + zone.1 * 60;
            if 1 <= date.1 <= 12 {
                &&& epoch_of_bytes(head) == Some(seconds)
                &&& epoch_of_bytes(head + seq![90u8]) == Some(seconds)
                &&& epoch_of_bytes(head + (seq![43u8] + offset)) == Some(seconds - ahead)
                &&& epoch_of_bytes(head + (seq![45u8] + offset)) == Some(seconds + ahead)
                &&& epoch_of_bytes(head + (seq![43u8] + two_digits(zone.0) + two_digits(zone.1)))
                    is None
            } else {
                &&& epoch_of_bytes(head) is None
                &&& epoch_of_bytes(head + seq![90u8]) is None
            }
        }),
{
    let head = date_and_time(date, time, between);
    let offset = two_digits(zone.0) + seq![colon] + two_digits(zone.1);
    lemma_zones(zone, colon);
    lemma_read_by_place(date, time, between, Seq::empty());
    assert(head + Seq::<u8>::empty() =~= head);
    lemma_read_by_place(date, time, between, seq![90u8]);
    lemma_read_by_place(date, time, between, seq![43u8] + offset);
    lemma_read_by_place(date, time, between, seq![45u8] + offset);
    lemma_read_by_place(
        date,
        time,
        between,
        seq![43u8] + two_digits(zone.0) + two_digits(zone.1),
    );
}

proof fn lemma_zones(zone: (int, int), colon: u8)
    requires
        0 <= zone.0 <= 99,
        0 <= zone.1 <= 99,
    ensures
        ({
            let offset = two_digits(zone.0) + seq![colon] + two_digits(zone.1);
            let ahead = zone.0 * 3600 + zone.1 * 60;
            &&& zone_offset(Seq::empty()) == Some(0int)
            &&& zone_offset(seq![90u8]) == Some(0int)
            &&& zone_offset(seq![43u8] + offset) == Some(ahead)
            &&& zone_offset(seq![45u8] + offset) == Some(-ahead)
            &&& zone_offset(seq![43u8] + two_digits(zone.0) + two_digits(zone.1)) is None
        }),
{
    let offset = two_digits(zone.0) + seq![colon] + two_digits(zone.1);
    lemma_two_digits(zone.0);
    lemma_two_digits(zone.1);
    let east = seq![43u8] + offset;
    assert(east.subrange(1, 3) =~= two_digits(zone.0));
    assert(east.subrange(4, 6) =~= two_digits(zone.1));
    let west = seq![45u8] + offset;
    assert(west.subrange(1, 3) =~= two_digits(zone.0));
    assert(west.subrange(4, 6) =~= two_digits(zone.1));
}

#[verifier::rlimit(60)]
proof fn lemma_read_by_place(
    date: (int, int, int),
    time: (int, int, int),
    between: Seq<u8>,
    tz: Seq<u8>,
)
    requires
        0 <= date.0 <= 9999,
        0 <= date.1 <= 99,
        0 <= date.2 <= 99,
        0 <= time.0 <= 99,
        0 <= time.1 <= 99,
        0 <= time.2 <= 99,
        between.len() == 5,
        tz.len() == 0 || (tz[0] != 46 && !digit_byte(tz[0])),
    ensures
        epoch_of_bytes(date_and_time(date, time, between) + tz) == match zone_offset(tz) {
            Some(offset) => if 1 <= date.1 <= 12 {
                Some(
                    day_number(date.0, date.1, date.2) * 86400 + time.0 * 3600 + time.1 * 60
                        + time.2 - offset,
                )
            } else {
                None
            },
            None => None,
        },
{
    lemma_four_digits(date.0);
    lemma_two_digits(date.1);
    lemma_two_digits(date.2);
    lemma_two_digits(time.0);
    lemma_two_digits(time.1);
    lemma_two_digits(time.2);
    lemma_numbers_read(
        seq![
            four_digits(date.0),
            two_digits(date.1),
            two_digits(date.2),
            two_digits(time.0),
            two_digits(time.1),
            two_digits(time.2),
        ],
        date,
        time,
        between,
        tz,
    );
}

proof fn lemma_numbers_read(
    n: Seq<Seq<u8>>,
    date: (int, int, int),
    time: (int, int, int),
    between: Seq<u8>,
    tz: Seq<u8>,
)
    requires
        n.len() == 6,
        n[0].len() == 4,
        forall|i: int| 1 <= i < 6 ==> (#[trigger] n[i]).len() == 2,
        number_value(n[0]) == Some(date.0),
        number_value(n[1]) == Some(date.1),
        number_value(n[2]) == Some(date.2),
        number_value(n[3]) == Some(time.0),
        number_value(n[4]) == Some(time.1),
        number_value(n[5]) == Some(time.2),
        tz.len() == 0 || (tz[0] != 46 && !digit_byte(tz[0])),
    ensures
        epoch_of_bytes(separated(n, between) + tz) == match zone_offset(tz) {
            Some(offset) => if 1 <= date.1 <= 12 {
                Some(
                    day_number(date.0, date.1, date.2) * 86400 + time.0 * 3600 + time.1 * 60
                        + time.2 - offset,
                )
            } else {
                None
            },
            None => None,
        },
{
    lemma_separated(n, between, tz);
    assert(after_fraction(tz) == tz);
}

/// What is shorter than date and time is no timestamp, and white space around
/// one does not matter.
pub proof fn blanks_around_a_timestamp_do_not_matter(
    lead: Seq<char>,
    t: Seq<char>,
    trail: Seq<char>,
)
    requires
        forall|i: int| 0 <= i < lead.len() ==> white_space(#[trigger] lead[i]),
        forall|i: int| 0 <= i < trail.len() ==> white_space(#[trigger] trail[i]),
        t.len() > 0 ==> !white_space(t[0]) && !white_space(t[t.len() - 1]),
    ensures
        epoch_of(lead + t + trail) == epoch_of_bytes(encode_utf8(t)),
        encode_utf8(t).len() < 19 ==> epoch_of(lead + t + trail) is None,
{
    what_stands_between_is_kept(lead, t, trail);
}

/// A number is read digit by digit behind its sign, and nothing but digits is
/// read.
pub proof fn signed_numbers_are_read_by_place(b: Seq<u8>, d: u8)
    requires
        digit_byte(d),
    ensures
        number_value(seq![d]) == Some(d - 48),
        b.len() > 0 && all_digit_bytes(b) ==> number_value(b.push(d)) == Some(
            10 * number_value(b)->0 + (d - 48),
        ),
        b.len() > 0 && all_digit_bytes(b) ==> number_value(seq![43u8] + b) == number_value(b),
        b.len() > 0 && all_digit_bytes(b) ==> number_value(seq![45u8] + b) == Some(
            -number_value(b)->0,
        ),
        number_value(b) is Some ==> b.len() > 0 && (all_digit_bytes(b) || ((b[0] == 43 || b[0]
            == 45) && b.len() > 1 && all_digit_bytes(b.skip(1)))),
{
    reveal_with_fuel(digit_bytes_value, 2);
    assert(seq![d].drop_last() =~= Seq::empty());
    assert(all_digit_bytes(seq![d]));
    if b.len() > 0 && all_digit_bytes(b) {
        assert(digit_byte(b[0]));
        assert(b.push(d).drop_last() =~= b);
        assert forall|i: int| 0 <= i < b.push(d).len() implies digit_byte(
            #[trigger] b.push(d)[i],
        ) by {
            if i < b.len() {
                assert(digit_byte(b[i]));
            }
        }
        assert((seq![43u8] + b).skip(1) =~= b);
        assert((seq![45u8] + b).skip(1) =~= b);
    }
}

/// Within a year the days are counted as in the calendar, whichever year it is.
pub proof fn days_of_a_year_are_counted(year: int, month: int, day: int)
    requires
        1 <= month <= 12,
    ensures
        day_number(year, month, day + 1) == day_number(year, month, day) + 1,
        month < 12 ==> day_number(year, month + 1, 1) == day_number(year, month, 1) + month_length(
            year,
            month,
        ),
{
}

/// Up to the year zero the leap day of a year is the one of the year before.
pub proof fn early_years_are_counted(year: int)
    requires
        year <= 0,
    ensures
        day_number(year + 1, 1, 1) == day_number(year, 1, 1) + 365 + (if leap_year(year - 1) {
            1int
        } else {
            0int
        }),
{
    lemma_quotient_steps(year);
}

#[verifier::rlimit(60)]
proof fn lemma_quotient_steps(a: int)
    requires
        a <= 0,
    ensures
        quotient(a, 4) - quotient(a - 1, 4) == (if (a - 1) % 4 == 0 {
            1int
        } else {
            0int
        }),
        quotient(a, 100) - quotient(a - 1, 100) == (if (a - 1) % 100 == 0 {
            1int
        } else {
            0int
        }),
        quotient(a, 400) - quotient(a - 1, 400) == (if (a - 1) % 400 == 0 {
            1int
        } else {
            0int
        }),
{
}

} // verus!

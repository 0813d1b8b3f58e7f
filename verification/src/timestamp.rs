//! Timestamps as the view snapshots and the cycle list write them: RFC 3339
//! in UTC, to the second (`2026-09-25T06:01:02Z`), or with milliseconds
//! (`2026-09-25T06:01:02.000Z`), as Linear writes its own.
//!
//! Days are turned into dates with Howard Hinnant's civil-from-days
//! algorithm, and back with its inverse.

use vstd::prelude::*;
use crate::text::{
    decimal, digit_char_spec, lemma_decimal, lemma_decimal_len, lemma_digit_char, lemma_padded,
    lemma_padded_two,
    all_digits, chars_of, digit_value, digit_value_spec, digits_value, is_digit, is_digit_spec,
    padded, pow10, push_char, push_padded,
};

verus! {

/// The year of a 400-year era that day `doe` of the era falls in, counting
/// years from March.
pub open spec fn year_of_era(doe: int) -> int {
    (doe - doe / 1460 + doe / 36524 - doe / 146096) / 365
}

/// The day of the era that year `yoe` of the era starts on.
pub open spec fn start_of_year(yoe: int) -> int {
    365 * yoe + yoe / 4 - yoe / 100
}

/// The date `(year, month, day)` of the day `days` after 1970-01-01.
pub open spec fn civil_from_days(days: int) -> (int, int, int) {
    let z = days + 719468;
    let era = z / 146097;
    let doe = z % 146097;
    let yoe = year_of_era(doe);
    let doy = doe - start_of_year(yoe);
    let mp = (5 * doy + 2) / 153;
    let d = doy - (153 * mp + 2) / 5 + 1;
    let m = if mp < 10 { mp + 3 } else { mp - 9 };
    let y = yoe + era * 400 + if m <= 2 { 1int } else { 0int };
    (y, m, d)
}

/// The number of days from 1970-01-01 to the date `(y, m, d)`.
pub open spec fn days_from_civil(y: int, m: int, d: int) -> int {
    let y1 = if m <= 2 { y - 1 } else { y };
    let era = y1 / 400;
    let yoe = y1 - era * 400;
    let mp = if m > 2 { m - 3 } else { m + 9 };
    let doy = (153 * mp + 2) / 5 + d - 1;
    era * 146097 + start_of_year(yoe) + doy - 719468
}

#[verifier::rlimit(50)]
#[verifier::spinoff_prover]
proof fn lemma_year_of_era(doe: int)
    requires
        0 <= doe < 146097,
    ensures
        0 <= year_of_era(doe) < 400,
        0 <= doe - start_of_year(year_of_era(doe)) <= 365,
{
}

/// Turning a day into a date and back gives the day again; the date is a
/// plausible one, and the year is not before 1970.
pub proof fn lemma_civil_round_trip(days: int)
    requires
        days >= 0,
    ensures
        ({
            let (y, m, d) = civil_from_days(days);
            &&& 1970 <= y
            &&& 1 <= m <= 12
            &&& 1 <= d <= 31
            &&& (if m <= 2 { y - 1 } else { y }) >= 0
            &&& days_from_civil(y, m, d) == days
            &&& (days <= 213503982334601 ==> y <= 1000000000000)
        }),
{
    let z = days + 719468;
    let era = z / 146097;
    let doe = z % 146097;
    lemma_year_of_era(doe);
    let yoe = year_of_era(doe);
    let doy = doe - start_of_year(yoe);
    let mp = (5 * doy + 2) / 153;
    assert(0 <= mp <= 11);
    let d = doy - (153 * mp + 2) / 5 + 1;
    assert(1 <= d <= 31);
    let m = if mp < 10 { mp + 3 } else { mp - 9 };
    let y = yoe + era * 400 + if m <= 2 { 1int } else { 0int };
    let y1 = if m <= 2 { y - 1 } else { y };
    assert(y1 == yoe + era * 400);
    assert(y1 / 400 == era);
    assert(y1 - (y1 / 400) * 400 == yoe);
    let mp2 = if m > 2 { m - 3 } else { m + 9 };
    assert(mp2 == mp);
    assert(era >= 4);
    assert(era * 146097 + doe == z);
}

/// `YYYY-MM-DDThh:mm:ss` for the date `(y, m, d)` and `rem` seconds into
/// the day.
pub open spec fn date_time_text(y: nat, m: nat, d: nat, rem: nat) -> Seq<char> {
    padded(y, 4) + tail_text(m, d, rem)
}

/// `t` seconds after the epoch, to the second, without its zone.
pub open spec fn local_text(t: nat) -> Seq<char> {
    let (y, m, d) = civil_from_days((t / 86400) as int);
    date_time_text(y as nat, m as nat, d as nat, t % 86400)
}

/// A timestamp to the second, `YYYY-MM-DDThh:mm:ssZ`, for `t` seconds after
/// the Unix epoch.
pub open spec fn timestamp_text(t: nat) -> Seq<char> {
    local_text(t).push('Z')
}

/// The same, with milliseconds, `YYYY-MM-DDThh:mm:ss.000Z`, as Linear writes
/// its dates.
pub open spec fn iso_text(t: nat) -> Seq<char> {
    local_text(t) + seq!['.', '0', '0', '0', 'Z']
}

/// The date of day `days` after the epoch.
#[verifier::spinoff_prover]
fn civil(days: u64) -> (ymd: (u64, u64, u64))
    requires
        days <= 213503982334601,
    ensures
        ymd.0 == civil_from_days(days as int).0,
        ymd.1 == civil_from_days(days as int).1,
        ymd.2 == civil_from_days(days as int).2,
{
    let z: u64 = days + 719468;
    let era: u64 = z / 146097;
    let doe: u64 = z % 146097;
    proof {
        lemma_year_of_era(doe as int);
    }
    let yoe: u64 = (doe - doe / 1460 + doe / 36524 - doe / 146096) / 365;
    let doy: u64 = doe - (365 * yoe + yoe / 4 - yoe / 100);
    let mp: u64 = (5 * doy + 2) / 153;
    let d: u64 = doy - (153 * mp + 2) / 5 + 1;
    let m: u64 = if mp < 10 { mp + 3 } else { mp - 9 };
    let y: u64 = yoe + era * 400 + if m <= 2 { 1 } else { 0 };
    (y, m, d)
}

fn push_fields(out: &mut String, y: u64, m: u64, d: u64, rem: u64)
    ensures
        final(out)@ == old(out)@ + date_time_text(y as nat, m as nat, d as nat, rem as nat),
{
    let ghost start = out@;
    push_padded(out, y, 4);
    push_char(out, '-');
    push_padded(out, m, 2);
    push_char(out, '-');
    push_padded(out, d, 2);
    push_char(out, 'T');
    push_padded(out, rem / 3600, 2);
    push_char(out, ':');
    push_padded(out, (rem % 3600) / 60, 2);
    push_char(out, ':');
    push_padded(out, rem % 60, 2);
    proof {
        assert(out@ =~= start + date_time_text(y as nat, m as nat, d as nat, rem as nat));
    }
}

fn push_date_time(out: &mut String, t: u64)
    ensures
        final(out)@ == old(out)@ + local_text(t as nat),
{
    let days: u64 = t / 86400;
    let rem: u64 = t % 86400;
    proof {
        vstd::arithmetic::div_mod::lemma_fundamental_div_mod(t as int, 86400);
        assert(days as int == (t as int) / 86400);
        assert(86400 * (days as int) <= t as int);
        assert(t as int <= 18446744073709551615);
        assert(days <= 213503982334601);
    }
    let (y, m, d) = civil(days);
    proof {
        lemma_civil_round_trip(days as int);
    }
    push_fields(out, y, m, d, rem);
}

/// `t` seconds after the Unix epoch as `YYYY-MM-DDThh:mm:ssZ`, the form
/// the view snapshots record.
pub fn format_timestamp(t: u64) -> (s: String)
    ensures
        s@ == timestamp_text(t as nat),
{
    let mut out = String::new();
    push_date_time(&mut out, t);
    push_char(&mut out, 'Z');
    proof {
        assert(out@ =~= timestamp_text(t as nat));
    }
    out
}

/// `t` seconds after the Unix epoch as `YYYY-MM-DDThh:mm:ss.000Z`.
pub fn format_iso(t: u64) -> (s: String)
    ensures
        s@ == iso_text(t as nat),
{
    let mut out = String::new();
    push_date_time(&mut out, t);
    push_char(&mut out, '.');
    push_char(&mut out, '0');
    push_char(&mut out, '0');
    push_char(&mut out, '0');
    push_char(&mut out, 'Z');
    proof {
        assert(out@ =~= iso_text(t as nat));
    }
    out
}

/// The value of the two digits at `i` and `i + 1`.
pub open spec fn two_digits(s: Seq<char>, i: int) -> int {
    digit_value_spec(s[i]) * 10 + digit_value_spec(s[i + 1])
}

/// Whether `s[i]` and `s[i + 1]` are digits.
pub open spec fn has_two_digits(s: Seq<char>, i: int) -> bool {
    is_digit_spec(s[i]) && is_digit_spec(s[i + 1])
}

/// `-MM-DDThh:mm:ss`, the part after the year: whether `tail` has its shape.
pub open spec fn tail_shaped(tail: Seq<char>) -> bool {
    &&& tail.len() >= 15
    &&& tail[0] == '-'
    &&& has_two_digits(tail, 1)
    &&& tail[3] == '-'
    &&& has_two_digits(tail, 4)
    &&& tail[6] == 'T'
    &&& has_two_digits(tail, 7)
    &&& tail[9] == ':'
    &&& has_two_digits(tail, 10)
    &&& tail[12] == ':'
    &&& has_two_digits(tail, 13)
}

/// The seconds since the epoch that a year and `-MM-DDThh:mm:ss` name, if
/// the fields are in range and the moment is not before the epoch nor past
/// what a `u64` holds.
pub open spec fn moment(year: int, tail: Seq<char>) -> Option<nat> {
    let m = two_digits(tail, 1);
    let d = two_digits(tail, 4);
    let h = two_digits(tail, 7);
    let mi = two_digits(tail, 10);
    let s = two_digits(tail, 13);
    let y1 = if m <= 2 { year - 1 } else { year };
    if 1 <= m <= 12 && 1 <= d <= 31 && h < 24 && mi < 60 && s < 60 && y1 >= 0 {
        let t = days_from_civil(year, m, d) * 86400 + h * 3600 + mi * 60 + s;
        if 0 <= t <= u64::MAX {
            Some(t as nat)
        } else {
            None
        }
    } else {
        None
    }
}

/// What `parse_timestamp` reads from `s`: `YYYY-MM-DDThh:mm:ssZ` with a year
/// of four to twenty digits.
pub open spec fn timestamp_value(s: Seq<char>) -> Option<nat> {
    if 20 <= s.len() <= 36 && s.last() == 'Z' {
        let year = s.take(s.len() - 16);
        let tail = s.skip(s.len() - 16);
        if all_digits(year) && tail_shaped(tail) {
            moment(digits_value(year), tail)
        } else {
            None
        }
    } else {
        None
    }
}

/// What `parse_iso` reads from `s`: a timestamp to the second, or one with
/// a fraction of three digits, `YYYY-MM-DDThh:mm:ss.fffZ`; the fraction is
/// dropped.
pub open spec fn iso_value(s: Seq<char>) -> Option<nat> {
    if 24 <= s.len() <= 40 && s.last() == 'Z' && s[s.len() - 5] == '.' && is_digit_spec(
        s[s.len() - 4],
    ) && is_digit_spec(s[s.len() - 3]) && is_digit_spec(s[s.len() - 2]) {
        let year = s.take(s.len() - 20);
        let tail = s.subrange(s.len() - 20, s.len() - 4);
        if all_digits(year) && tail_shaped(tail) {
            moment(digits_value(year), tail)
        } else {
            None
        }
    } else {
        timestamp_value(s)
    }
}

/// The number `v[from..to]` writes, which is known to be all digits.
fn read_digits(v: &Vec<char>, from: usize, to: usize) -> (n: u128)
    requires
        from <= to <= v@.len(),
        to - from <= 20,
        all_digits(v@.subrange(from as int, to as int)),
    ensures
        n == digits_value(v@.subrange(from as int, to as int)),
{
    let mut n: u128 = 0;
    let mut i = from;
    while i < to
        invariant
            from <= i <= to <= v@.len(),
            to - from <= 20,
            all_digits(v@.subrange(from as int, to as int)),
            n == digits_value(v@.subrange(from as int, i as int)),
            n < pow10((i - from) as nat),
        decreases to - i,
    {
        assert(v@.subrange(from as int, to as int)[i - from] == v@[i as int]);
        let d = digit_value(v[i]);
        proof {
            assert(v@.subrange(from as int, i + 1).drop_last() =~= v@.subrange(
                from as int,
                i as int,
            ));
            lemma_pow10_bound((i - from) as nat);
        }
        n = n * 10 + d as u128;
        i = i + 1;
    }
    n
}

proof fn lemma_pow10_bound(k: nat)
    requires
        k < 20,
    ensures
        pow10(k + 1) == 10 * pow10(k),
        pow10(k + 1) <= 100000000000000000000nat,
{
    lemma_pow10_le(k + 1);
}

proof fn lemma_pow10_le(k: nat)
    requires
        k <= 20,
    ensures
        1 <= pow10(k) <= 100000000000000000000nat,
    decreases 20 - k,
{
    if k == 20 {
        reveal_with_fuel(pow10, 21);
    } else {
        lemma_pow10_le(k + 1);
        assert(pow10(k + 1) == 10 * pow10(k));
    }
}

fn two_at(v: &Vec<char>, i: usize) -> (n: u128)
    requires
        i + 1 < v@.len(),
        has_two_digits(v@, i as int),
    ensures
        n == two_digits(v@, i as int),
{
    let _ = v.len();
    let a = digit_value(v[i]);
    let b = digit_value(v[i + 1]);
    a as u128 * 10 + b as u128
}

fn tail_shaped_at(v: &Vec<char>, at: usize) -> (b: bool)
    requires
        at + 15 <= v@.len(),
    ensures
        b == tail_shaped(v@.skip(at as int)),
{
    let _ = v.len();
    let ghost tail = v@.skip(at as int);
    proof {
        assert forall|i: int| 0 <= i < 15 implies tail[i] == v@[at + i] by {}
    }
    v[at] == '-' && is_digit(v[at + 1]) && is_digit(v[at + 2]) && v[at + 3] == '-' && is_digit(
        v[at + 4],
    ) && is_digit(v[at + 5]) && v[at + 6] == 'T' && is_digit(v[at + 7]) && is_digit(v[at + 8])
        && v[at + 9] == ':' && is_digit(v[at + 10]) && is_digit(v[at + 11]) && v[at + 12] == ':'
        && is_digit(v[at + 13]) && is_digit(v[at + 14])
}

fn all_digits_in(v: &Vec<char>, from: usize, to: usize) -> (b: bool)
    requires
        from <= to <= v@.len(),
    ensures
        b == all_digits(v@.subrange(from as int, to as int)),
{
    let mut i = from;
    while i < to
        invariant
            from <= i <= to <= v@.len(),
            forall|j: int| from <= j < i ==> is_digit_spec(#[trigger] v@[j]),
        decreases to - i,
    {
        if !is_digit(v[i]) {
            assert(v@.subrange(from as int, to as int)[i - from] == v@[i as int]);
            return false;
        }
        i = i + 1;
    }
    proof {
        assert forall|j: int| 0 <= j < to - from implies is_digit_spec(
            #[trigger] v@.subrange(from as int, to as int)[j],
        ) by {
            assert(v@.subrange(from as int, to as int)[j] == v@[from + j]);
        }
    }
    true
}

/// The moment a year and the fields at `at` (`-MM-DDThh:mm:ss`) name.
fn moment_at(v: &Vec<char>, year: u128, at: usize) -> (t: Option<u64>)
    requires
        at + 15 <= v@.len(),
        tail_shaped(v@.skip(at as int)),
        year < 100000000000000000000,
    ensures
        t == (match moment(year as int, v@.skip(at as int)) {
            Some(n) => Some(n as u64),
            None => None::<u64>,
        }),
{
    let _ = v.len();
    let ghost tail = v@.skip(at as int);
    proof {
        assert forall|i: int| 0 <= i < 15 implies tail[i] == v@[at + i] by {}
    }
    let m = two_at(v, at + 1);
    let d = two_at(v, at + 4);
    let h = two_at(v, at + 7);
    let mi = two_at(v, at + 10);
    let s = two_at(v, at + 13);
    assert(m == two_digits(tail, 1) && d == two_digits(tail, 4) && h == two_digits(tail, 7)
        && mi == two_digits(tail, 10) && s == two_digits(tail, 13));
    if !(1 <= m && m <= 12 && 1 <= d && d <= 31 && h < 24 && mi < 60 && s < 60) {
        return None;
    }
    if m <= 2 && year == 0 {
        return None;
    }
    let y1: u128 = if m <= 2 { year - 1 } else { year };
    let era: u128 = y1 / 400;
    let yoe: u128 = y1 - era * 400;
    let mp: u128 = if m > 2 { m - 3 } else { m + 9 };
    let doy: u128 = (153 * mp + 2) / 5 + d - 1;
    let before: u128 = era * 146097 + (365 * yoe + yoe / 4 - yoe / 100) + doy;
    if before < 719468 {
        return None;
    }
    let days: u128 = before - 719468;
    let t: u128 = days * 86400 + h * 3600 + mi * 60 + s;
    if t > u64::MAX as u128 {
        return None;
    }
    Some(t as u64)
}

/// Read a timestamp written `YYYY-MM-DDThh:mm:ssZ` as seconds since the Unix
/// epoch; `None` for any other text, or a moment before the epoch.
pub fn parse_timestamp(text: &str) -> (t: Option<u64>)
    ensures
        t == (match timestamp_value(text@) {
            Some(n) => Some(n as u64),
            None => None::<u64>,
        }),
{
    let v = chars_of(text);
    parse_chars(&v)
}

fn parse_chars(v: &Vec<char>) -> (t: Option<u64>)
    ensures
        t == (match timestamp_value(v@) {
            Some(n) => Some(n as u64),
            None => None::<u64>,
        }),
{
    let n = v.len();
    if n < 20 || n > 36 || v[n - 1] != 'Z' {
        return None;
    }
    let at = n - 16;
    proof {
        assert(v@.take(at as int) =~= v@.subrange(0, at as int));
    }
    if !all_digits_in(v, 0, at) || !tail_shaped_at(v, at) {
        return None;
    }
    let year = read_digits(v, 0, at);
    proof {
        lemma_digits_bound(v@.subrange(0, at as int));
        lemma_pow10_le(at as nat);
    }
    moment_at(v, year, at)
}

/// Read a timestamp written `YYYY-MM-DDThh:mm:ss.fffZ` or
/// `YYYY-MM-DDThh:mm:ssZ` as seconds since the Unix epoch.
pub fn parse_iso(text: &str) -> (t: Option<u64>)
    ensures
        t == (match iso_value(text@) {
            Some(n) => Some(n as u64),
            None => None::<u64>,
        }),
{
    let v = chars_of(text);
    let n = v.len();
    if n >= 24 && n <= 40 && v[n - 1] == 'Z' && v[n - 5] == '.' && is_digit(v[n - 4]) && is_digit(
        v[n - 3],
    ) && is_digit(v[n - 2]) {
        let at = n - 20;
        let ghost tail = v@.subrange(at as int, n - 4);
        proof {
            assert(v@.take(at as int) =~= v@.subrange(0, at as int));
            assert(tail =~= v@.skip(at as int).take(16));
        }
        if !all_digits_in(&v, 0, at) || !tail_shaped_at(&v, at) {
            proof {
                assert(tail_shaped(tail) == tail_shaped(v@.skip(at as int)));
            }
            return None;
        }
        let year = read_digits(&v, 0, at);
        proof {
            lemma_digits_bound(v@.subrange(0, at as int));
            lemma_pow10_le(at as nat);
            assert(tail_shaped(tail));
            assert forall|i: int| 0 <= i < 15 implies tail[i] == v@.skip(at as int)[i] by {}
            assert(moment(year as int, tail) == moment(year as int, v@.skip(at as int)));
        }
        return moment_at(&v, year, at);
    }
    parse_chars(&v)
}

proof fn lemma_digits_bound(s: Seq<char>)
    requires
        s.len() <= 20,
        all_digits(s),
    ensures
        0 <= digits_value(s) < pow10(s.len()),
    decreases s.len(),
{
    if s.len() > 0 {
        assert(all_digits(s.drop_last()));
        lemma_digits_bound(s.drop_last());
        assert(is_digit_spec(s[s.len() - 1]));
        assert(pow10(s.len()) == 10 * pow10((s.len() - 1) as nat));
    }
}


/// The digits of a field of two, as `tail_shaped` and `two_digits` read them.
proof fn lemma_two_field(n: nat)
    requires
        n < 100,
    ensures
        padded(n, 2).len() == 2,
        is_digit_spec(padded(n, 2)[0]),
        is_digit_spec(padded(n, 2)[1]),
        digit_value_spec(padded(n, 2)[0]) * 10 + digit_value_spec(padded(n, 2)[1]) == n,
{
    lemma_padded_two(n);
    lemma_digit_char((n / 10) as int);
    lemma_digit_char((n % 10) as int);
}

/// `-MM-DDThh:mm:ss`: the fields after the year.
pub open spec fn tail_text(m: nat, d: nat, rem: nat) -> Seq<char> {
    seq!['-'] + padded(m, 2) + seq!['-'] + padded(d, 2) + seq!['T'] + padded(rem / 3600, 2)
        + seq![':'] + padded((rem % 3600) / 60, 2) + seq![':'] + padded(rem % 60, 2)
}

proof fn lemma_tail_text(m: nat, d: nat, rem: nat)
    requires
        m < 100,
        d < 100,
        rem < 86400,
    ensures
        tail_text(m, d, rem).len() == 15,
        tail_shaped(tail_text(m, d, rem)),
        two_digits(tail_text(m, d, rem), 1) == m,
        two_digits(tail_text(m, d, rem), 4) == d,
        two_digits(tail_text(m, d, rem), 7) * 3600 + two_digits(tail_text(m, d, rem), 10) * 60
            + two_digits(tail_text(m, d, rem), 13) == rem,
        two_digits(tail_text(m, d, rem), 7) < 24,
        two_digits(tail_text(m, d, rem), 10) < 60,
        two_digits(tail_text(m, d, rem), 13) < 60,
{
    let h = rem / 3600;
    let mi = (rem % 3600) / 60;
    let sec = rem % 60;
    lemma_two_field(m);
    lemma_two_field(d);
    lemma_two_field(h);
    lemma_two_field(mi);
    lemma_two_field(sec);
    let tail = tail_text(m, d, rem);
    assert(tail[1] == padded(m, 2)[0] && tail[2] == padded(m, 2)[1]);
    assert(tail[4] == padded(d, 2)[0] && tail[5] == padded(d, 2)[1]);
    assert(tail[7] == padded(h, 2)[0] && tail[8] == padded(h, 2)[1]);
    assert(tail[10] == padded(mi, 2)[0] && tail[11] == padded(mi, 2)[1]);
    assert(tail[13] == padded(sec, 2)[0] && tail[14] == padded(sec, 2)[1]);
}

/// Any text that starts with the fields of `tail` reads as the same moment.
proof fn lemma_moment_prefix(year: int, tail: Seq<char>, more: Seq<char>)
    requires
        tail.len() == 15,
        tail_shaped(tail),
    ensures
        tail_shaped(tail + more),
        moment(year, tail + more) == moment(year, tail),
{
    assert forall|i: int| 0 <= i < 15 implies (tail + more)[i] == tail[i] by {}
}

#[verifier::rlimit(40)]
proof fn lemma_moment_of(t: u64)
    ensures
        ({
            let (y, m, d) = civil_from_days((t / 86400) as int);
            &&& 0 <= y <= 1000000000000
            &&& 1 <= m <= 12
            &&& 1 <= d <= 31
            &&& moment(y, tail_text(m as nat, d as nat, (t % 86400) as nat)) == Some(t as nat)
        }),
{
    let days = (t / 86400) as int;
    let rem = (t % 86400) as nat;
    vstd::arithmetic::div_mod::lemma_fundamental_div_mod(t as int, 86400);
    assert(days <= 213503982334601);
    lemma_civil_round_trip(days);
    let (y, m, d) = civil_from_days(days);
    lemma_tail_text(m as nat, d as nat, rem);
}

/// Reading what `format_timestamp` writes gives back the moment written.
#[verifier::rlimit(40)]
pub proof fn lemma_timestamp_round_trip(t: u64)
    ensures
        timestamp_value(timestamp_text(t as nat)) == Some(t as nat),
        iso_value(iso_text(t as nat)) == Some(t as nat),
{
    lemma_moment_of(t);
    let (y, m, d) = civil_from_days((t / 86400) as int);
    let rem = (t % 86400) as nat;
    lemma_tail_text(m as nat, d as nat, rem);
    let year = padded(y as nat, 4);
    let tail = tail_text(m as nat, d as nat, rem);
    lemma_padded(y as nat, 4);
    reveal_with_fuel(pow10, 21);
    lemma_decimal_len(y as nat, 20);
    assert(year.len() <= 20);
    assert(local_text(t as nat) =~= year + tail);
    let ts = timestamp_text(t as nat);
    assert(ts =~= year + tail.push('Z'));
    assert(ts.take(ts.len() - 16) =~= year);
    assert(ts.skip(ts.len() - 16) =~= tail + seq!['Z']);
    lemma_moment_prefix(y, tail, seq!['Z']);
    let iso = iso_text(t as nat);
    assert(iso =~= year + tail + seq!['.', '0', '0', '0', 'Z']);
    assert(iso.take(iso.len() - 20) =~= year);
    assert(iso.subrange(iso.len() - 20, iso.len() - 4) =~= tail + seq!['.']);
    lemma_moment_prefix(y, tail, seq!['.']);
}


/// Seconds since the Unix epoch, now, from std's `SystemTime`; zero for a
/// clock set before the epoch.
#[verifier::external_body]
pub fn unix_now() -> (t: u64) {
    std::time::SystemTime::now().duration_since(std::time::UNIX_EPOCH).map_or(0, |d| d.as_secs())
}

/// The moment now, as a snapshot records it.
pub fn timestamp_now() -> (s: String)
    ensures
        exists|t: u64| s@ == timestamp_text(t as nat),
{
    let t = unix_now();
    format_timestamp(t)
}

/// The moment now, as Linear writes its dates, `YYYY-MM-DDThh:mm:ss.000Z`.
pub fn now_iso() -> (s: String)
    ensures
        exists|t: u64| s@ == iso_text(t as nat),
{
    let t = unix_now();
    format_iso(t)
}

}

//! Note identifiers and timestamps, from the `ulid` and `time` crates.

use vstd::prelude::*;

use crate::model::Note;
use crate::storage::{note_from_parts, StorageError};
use crate::text::{chars_before, lemma_chars_before_irreflexive};

verus! {

#[verifier::external_type_specification]
#[verifier::external_body]
pub struct ExOffsetDateTime(time::OffsetDateTime);

#[verifier::external_type_specification]
#[verifier::external_body]
pub struct ExFormatError(time::error::Format);

/// The alphabet of ULID text (Crockford base 32, upper case).
pub open spec fn ulid_char(c: char) -> bool {
    ||| ('0' <= c && c <= '9')
    ||| ('A' <= c && c <= 'H')
    ||| c == 'J' || c == 'K' || c == 'M' || c == 'N'
    ||| ('P' <= c && c <= 'T')
    ||| ('V' <= c && c <= 'Z')
}

/// Text of a ULID: 26 characters of its alphabet, the first of which
/// (carrying the top 3 of the 128 bits) is a digit from 0 to 7.
pub open spec fn ulid_text(s: Seq<char>) -> bool {
    &&& s.len() == 26
    &&& forall|i: int| 0 <= i < 26 ==> #[trigger] ulid_char(s[i])
    &&& '0' <= s[0] && s[0] <= '7'
}

pub open spec fn is_digit(c: char) -> bool {
    '0' <= c && c <= '9'
}

/// Start of an RFC 3339 date-time: `YYYY-MM-DDTHH:MM:SS`, followed by
/// the optional fraction and the offset.
pub open spec fn rfc3339_shaped(s: Seq<char>) -> bool {
    &&& s.len() >= 20
    &&& is_digit(s[0]) && is_digit(s[1]) && is_digit(s[2]) && is_digit(s[3])
    &&& s[4] == '-'
    &&& is_digit(s[5]) && is_digit(s[6])
    &&& s[7] == '-'
    &&& is_digit(s[8]) && is_digit(s[9])
    &&& s[10] == 'T'
    &&& is_digit(s[11]) && is_digit(s[12])
    &&& s[13] == ':'
    &&& is_digit(s[14]) && is_digit(s[15])
    &&& s[16] == ':'
    &&& is_digit(s[17]) && is_digit(s[18])
}

/// `ulid::Ulid::new()` written with `Ulid::to_string`: a fresh identifier
/// from the clock and a random source. Claimed: the text is 26 characters
/// of Crockford base 32 whose first is at most `7` (the encoding of a
/// 128-bit value); which identifier comes back is not stated.
#[verifier::external_body]
fn fresh_ulid_text() -> (r: String)
    ensures
        ulid_text(r@),
{
    ulid::Ulid::new().to_string()
}

/// `time::OffsetDateTime::now_utc()`: the current time; nothing is stated
/// of it.
#[verifier::external_body]
fn utc_now() -> (r: time::OffsetDateTime) {
    time::OffsetDateTime::now_utc()
}

/// `OffsetDateTime::format` with the `Rfc3339` description. Claimed: a
/// text that comes back starts with `YYYY-MM-DDTHH:MM:SS` (the crate
/// writes four-digit years and zero-padded two-digit fields, and refuses
/// years outside 0..=9999). Which instant it spells, and when the call
/// fails, is not stated: the value is opaque here.
#[verifier::external_body]
fn format_rfc3339(t: &time::OffsetDateTime) -> (r: Result<String, time::error::Format>)
    ensures
        r matches Ok(s) ==> rfc3339_shaped(s@),
{
    t.format(&time::format_description::well_known::Rfc3339)
}

/// `OffsetDateTime::to_calendar_date`, the month given as its number.
/// Claimed: the year lies in the range of this build of the crate
/// (`-9999..=9999`, the `large-dates` feature being off), the month in
/// `1..=12` and the day in `1..=31`. Which date comes back is not stated:
/// the instant is opaque here.
#[verifier::external_body]
fn calendar_date(t: &time::OffsetDateTime) -> (r: (i32, u8, u8))
    ensures
        -9999 <= r.0 <= 9999,
        1 <= r.1 <= 12,
        1 <= r.2 <= 31,
{
    let (year, month, day) = t.to_calendar_date();
    (year, u8::from(month), day)
}

/// `OffsetDateTime::to_hms_nano`. Claimed: hour below 24, minute and
/// second below 60, nanosecond below 10^9. Which time of day comes back is
/// not stated: the instant is opaque here.
#[verifier::external_body]
fn clock_time(t: &time::OffsetDateTime) -> (r: (u8, u8, u8, u32))
    ensures
        r.0 < 24,
        r.1 < 60,
        r.2 < 60,
        r.3 < 1_000_000_000,
{
    t.to_hms_nano()
}

/// A UTC date and time of day, field by field.
#[derive(Clone, Copy, Debug, PartialEq, Eq)]
pub struct StampParts {
    pub year: i32,
    pub month: u8,
    pub day: u8,
    pub hour: u8,
    pub minute: u8,
    pub second: u8,
    pub nanosecond: u32,
}

/// The ranges in which the `time` crate gives the fields.
pub open spec fn parts_in_range(p: StampParts) -> bool {
    &&& -9999 <= p.year <= 9999
    &&& 1 <= p.month <= 12
    &&& 1 <= p.day <= 31
    &&& p.hour < 24
    &&& p.minute < 60
    &&& p.second < 60
    &&& p.nanosecond < 1_000_000_000
}

/// `p` is strictly earlier than `q`: field by field from the year down.
pub open spec fn parts_before(p: StampParts, q: StampParts) -> bool {
    ||| p.year < q.year
    ||| p.year == q.year && p.month < q.month
    ||| p.year == q.year && p.month == q.month && p.day < q.day
    ||| p.year == q.year && p.month == q.month && p.day == q.day && p.hour < q.hour
    ||| p.year == q.year && p.month == q.month && p.day == q.day && p.hour == q.hour && p.minute
        < q.minute
    ||| p.year == q.year && p.month == q.month && p.day == q.day && p.hour == q.hour && p.minute
        == q.minute && p.second < q.second
    ||| p.year == q.year && p.month == q.month && p.day == q.day && p.hour == q.hour && p.minute
        == q.minute && p.second == q.second && p.nanosecond < q.nanosecond
}

/// The decimal digit `d` (0 to 9).
pub open spec fn digit_char(d: int) -> char {
    if d == 0 {
        '0'
    } else if d == 1 {
        '1'
    } else if d == 2 {
        '2'
    } else if d == 3 {
        '3'
    } else if d == 4 {
        '4'
    } else if d == 5 {
        '5'
    } else if d == 6 {
        '6'
    } else if d == 7 {
        '7'
    } else if d == 8 {
        '8'
    } else {
        '9'
    }
}

/// The last `width` decimal digits of `n`, zero-padded on the left.
pub open spec fn padded(n: nat, width: nat) -> Seq<char>
    decreases width,
{
    if width == 0 {
        Seq::empty()
    } else {
        padded(n / 10, (width - 1) as nat) + seq![digit_char((n % 10) as int)]
    }
}

/// A year as the `time` crate writes `[year]`: four digits, after a minus
/// sign when negative.
pub open spec fn year_text(y: int) -> Seq<char> {
    if y < 0 {
        seq!['-'] + padded((-y) as nat, 4)
    } else {
        padded(y as nat, 4)
    }
}

/// The stamp of a history snapshot,
/// `[year][month][day]T[hour][minute][second][subsecond digits:9]Z`:
/// such as `20260315T000001123456789Z`.
pub open spec fn stamp_text(p: StampParts) -> Seq<char> {
    year_text(p.year as int) + (padded(p.month as nat, 2) + (padded(p.day as nat, 2) + (seq!['T'] + (
    padded(p.hour as nat, 2) + (padded(p.minute as nat, 2) + (padded(p.second as nat, 2) + (padded(
        p.nanosecond as nat,
        9,
    ) + seq!['Z'])))))))
}

/// The digit `d` as a one-character string.
fn digit_str(d: u64) -> (r: &'static str)
    requires
        d < 10,
    ensures
        r@ == seq![digit_char(d as int)],
{
    proof {
        reveal_strlit("0");
        reveal_strlit("1");
        reveal_strlit("2");
        reveal_strlit("3");
        reveal_strlit("4");
        reveal_strlit("5");
        reveal_strlit("6");
        reveal_strlit("7");
        reveal_strlit("8");
        reveal_strlit("9");
    }
    if d == 0 {
        "0"
    } else if d == 1 {
        "1"
    } else if d == 2 {
        "2"
    } else if d == 3 {
        "3"
    } else if d == 4 {
        "4"
    } else if d == 5 {
        "5"
    } else if d == 6 {
        "6"
    } else if d == 7 {
        "7"
    } else if d == 8 {
        "8"
    } else {
        "9"
    }
}

/// The last `width` decimal digits of `n`, zero-padded.
fn padded_string(n: u64, width: u64) -> (r: String)
    ensures
        r@ == padded(n as nat, width as nat),
    decreases width,
{
    if width == 0 {
        let r = String::new();
        assert(r@ =~= padded(n as nat, 0));
        r
    } else {
        let head = padded_string(n / 10, width - 1);
        let r = crate::text::concat_strs(head.as_str(), digit_str(n % 10));
        assert(r@ =~= padded(n as nat, width as nat));
        r
    }
}

/// The stamp of a history snapshot taken at the UTC date and time `p`
/// (see `stamp_text`).
pub fn stamp_from_parts(p: StampParts) -> (r: String)
    ensures
        r@ == stamp_text(p),
{
    let year = p.year as i64;
    let year_part = if year < 0 {
        let digits = padded_string((-year) as u64, 4);
        crate::text::concat_strs("-", digits.as_str())
    } else {
        padded_string(year as u64, 4)
    };
    proof {
        reveal_strlit("-");
        assert(year_part@ =~= year_text(p.year as int));
    }
    let month = padded_string(p.month as u64, 2);
    let day = padded_string(p.day as u64, 2);
    let hour = padded_string(p.hour as u64, 2);
    let minute = padded_string(p.minute as u64, 2);
    let second = padded_string(p.second as u64, 2);
    let nano = padded_string(p.nanosecond as u64, 9);
    let r = crate::text::concat_strs(year_part.as_str(), month.as_str());
    let r = crate::text::concat_strs(r.as_str(), day.as_str());
    let r = crate::text::concat_strs(r.as_str(), "T");
    let r = crate::text::concat_strs(r.as_str(), hour.as_str());
    let r = crate::text::concat_strs(r.as_str(), minute.as_str());
    let r = crate::text::concat_strs(r.as_str(), second.as_str());
    let r = crate::text::concat_strs(r.as_str(), nano.as_str());
    let r = crate::text::concat_strs(r.as_str(), "Z");
    proof {
        reveal_strlit("T");
        reveal_strlit("Z");
        assert(r@ =~= stamp_text(p));
    }
    r
}

/// `10^w`.
pub open spec fn pow10(w: nat) -> nat
    decreases w,
{
    if w == 0 {
        1
    } else {
        10 * pow10((w - 1) as nat)
    }
}

proof fn lemma_padded_len(n: nat, w: nat)
    ensures
        padded(n, w).len() == w,
    decreases w,
{
    if w > 0 {
        lemma_padded_len(n / 10, (w - 1) as nat);
    }
}

/// Comparing `a1 + b1` with `a2 + b2`, where `a1` and `a2` have the same
/// length, compares the `a` parts first and the `b` parts on a tie.
proof fn lemma_concat_before(a1: Seq<char>, b1: Seq<char>, a2: Seq<char>, b2: Seq<char>)
    requires
        a1.len() == a2.len(),
    ensures
        chars_before(a1 + b1, a2 + b2) <==> (chars_before(a1, a2) || (a1 == a2 && chars_before(b1, b2))),
        (a1 + b1 == a2 + b2) <==> (a1 == a2 && b1 == b2),
    decreases a1.len(),
{
    let x = a1 + b1;
    let y = a2 + b2;
    if a1.len() == 0 {
        assert(x =~= b1);
        assert(y =~= b2);
        assert(a1 =~= a2);
    } else {
        assert(x[0] == a1[0]);
        assert(y[0] == a2[0]);
        if a1[0] != a2[0] {
            assert(x != y);
        } else {
            assert(x.drop_first() =~= a1.drop_first() + b1);
            assert(y.drop_first() =~= a2.drop_first() + b2);
            lemma_concat_before(a1.drop_first(), b1, a2.drop_first(), b2);
            assert(a1 =~= seq![a1[0]] + a1.drop_first());
            assert(a2 =~= seq![a2[0]] + a2.drop_first());
            assert(x =~= seq![x[0]] + x.drop_first());
            assert(y =~= seq![y[0]] + y.drop_first());
            if x == y {
                assert(x.drop_first() == y.drop_first());
            }
            if a1 == a2 {
                assert(a1.drop_first() == a2.drop_first());
            }
        }
    }
}

proof fn lemma_digit_char(d: int)
    requires
        0 <= d < 10,
    ensures
        digit_char(d) as int == 48 + d,
{
}

/// Zero-padded numbers below `10^w` compare as the numbers do.
proof fn lemma_padded_order(n: nat, m: nat, w: nat)
    requires
        n < pow10(w),
        m < pow10(w),
    ensures
        chars_before(padded(n, w), padded(m, w)) <==> n < m,
        padded(n, w) == padded(m, w) <==> n == m,
    decreases w,
{
    if w == 0 {
        assert(padded(n, w) =~= padded(m, w));
    } else {
        let w1 = (w - 1) as nat;
        let p = pow10(w1);
        assert(n == 10 * (n / 10) + n % 10 && 0 <= n % 10 < 10) by (nonlinear_arith);
        assert(m == 10 * (m / 10) + m % 10 && 0 <= m % 10 < 10) by (nonlinear_arith);
        assert(n / 10 < p);
        assert(m / 10 < p);
        lemma_padded_order(n / 10, m / 10, w1);
        lemma_padded_len(n / 10, w1);
        lemma_padded_len(m / 10, w1);
        let cn = digit_char((n % 10) as int);
        let cm = digit_char((m % 10) as int);
        lemma_concat_before(padded(n / 10, w1), seq![cn], padded(m / 10, w1), seq![cm]);
        lemma_digit_char((n % 10) as int);
        lemma_digit_char((m % 10) as int);
        assert(seq![cn].drop_first() =~= Seq::<char>::empty());
        assert(seq![cm].drop_first() =~= Seq::<char>::empty());
        assert(!chars_before(Seq::<char>::empty(), Seq::<char>::empty()));
        assert(seq![cn][0] == cn && seq![cm][0] == cm);
        assert(chars_before(seq![cn], seq![cm]) <==> (cn as int) < (cm as int));
        if seq![cn] == seq![cm] {
            assert(seq![cn][0] == seq![cm][0]);
        }
    }
}

/// The stamps of two UTC dates and times from year 0 on compare as the
/// instants they spell, and so do the snapshot file names made of them;
/// equal stamps spell the same instant. (Negative years are written with a
/// minus sign, and among them the order is reversed.)
pub proof fn law_stamps_sort_as_instants(p: StampParts, q: StampParts)
    requires
        parts_in_range(p),
        parts_in_range(q),
        p.year >= 0,
        q.year >= 0,
    ensures
        stamp_text(p).len() == 25,
        chars_before(stamp_text(p), stamp_text(q)) <==> parts_before(p, q),
        stamp_text(p) == stamp_text(q) <==> p == q,
        chars_before(stamp_text(p) + ".yml"@, stamp_text(q) + ".yml"@) <==> parts_before(p, q),
{
    reveal_with_fuel(pow10, 10);
    assert(pow10(2) == 100);
    assert(pow10(4) == 10000);
    assert(pow10(9) == 1_000_000_000);
    let ys = padded(p.year as nat, 4);
    let yq = padded(q.year as nat, 4);
    let ms = padded(p.month as nat, 2);
    let mq = padded(q.month as nat, 2);
    let ds = padded(p.day as nat, 2);
    let dq = padded(q.day as nat, 2);
    let hs = padded(p.hour as nat, 2);
    let hq = padded(q.hour as nat, 2);
    let is = padded(p.minute as nat, 2);
    let iq = padded(q.minute as nat, 2);
    let ss = padded(p.second as nat, 2);
    let sq = padded(q.second as nat, 2);
    let ns = padded(p.nanosecond as nat, 9);
    let nq = padded(q.nanosecond as nat, 9);
    lemma_padded_order(p.year as nat, q.year as nat, 4);
    lemma_padded_order(p.month as nat, q.month as nat, 2);
    lemma_padded_order(p.day as nat, q.day as nat, 2);
    lemma_padded_order(p.hour as nat, q.hour as nat, 2);
    lemma_padded_order(p.minute as nat, q.minute as nat, 2);
    lemma_padded_order(p.second as nat, q.second as nat, 2);
    lemma_padded_order(p.nanosecond as nat, q.nanosecond as nat, 9);
    lemma_padded_len(p.year as nat, 4);
    lemma_padded_len(q.year as nat, 4);
    lemma_padded_len(p.month as nat, 2);
    lemma_padded_len(q.month as nat, 2);
    lemma_padded_len(p.day as nat, 2);
    lemma_padded_len(q.day as nat, 2);
    lemma_padded_len(p.hour as nat, 2);
    lemma_padded_len(q.hour as nat, 2);
    lemma_padded_len(p.minute as nat, 2);
    lemma_padded_len(q.minute as nat, 2);
    lemma_padded_len(p.second as nat, 2);
    lemma_padded_len(q.second as nat, 2);
    lemma_padded_len(p.nanosecond as nat, 9);
    lemma_padded_len(q.nanosecond as nat, 9);
    let t = seq!['T'];
    let z = seq!['Z'];
    lemma_chars_before_irreflexive(t);
    lemma_chars_before_irreflexive(z);
    let r7p = ns + z;
    let r7q = nq + z;
    lemma_concat_before(ns, z, nq, z);
    let r6p = ss + r7p;
    let r6q = sq + r7q;
    lemma_concat_before(ss, r7p, sq, r7q);
    let r5p = is + r6p;
    let r5q = iq + r6q;
    lemma_concat_before(is, r6p, iq, r6q);
    let r4p = hs + r5p;
    let r4q = hq + r5q;
    lemma_concat_before(hs, r5p, hq, r5q);
    let r3p = t + r4p;
    let r3q = t + r4q;
    lemma_concat_before(t, r4p, t, r4q);
    let r2p = ds + r3p;
    let r2q = dq + r3q;
    lemma_concat_before(ds, r3p, dq, r3q);
    let r1p = ms + r2p;
    let r1q = mq + r2q;
    lemma_concat_before(ms, r2p, mq, r2q);
    lemma_concat_before(ys, r1p, yq, r1q);
    assert(stamp_text(p) == ys + r1p);
    assert(stamp_text(q) == yq + r1q);
    let yml = ".yml"@;
    lemma_chars_before_irreflexive(yml);
    lemma_concat_before(stamp_text(p), yml, stamp_text(q), yml);
}

/// The date and time of a clock reading: the calendar date as
/// `(year, month, day)` and the time of day as
/// `(hour, minute, second, nanosecond)`, field for field.
pub open spec fn clock_parts(date: (i32, u8, u8), time_of_day: (u8, u8, u8, u32)) -> StampParts {
    StampParts {
        year: date.0,
        month: date.1,
        day: date.2,
        hour: time_of_day.0,
        minute: time_of_day.1,
        second: time_of_day.2,
        nanosecond: time_of_day.3,
    }
}

/// The stamp of a clock reading given as `to_calendar_date` and
/// `to_hms_nano` give it (see `clock_parts` and `stamp_text`).
pub fn stamp_from_clock(date: (i32, u8, u8), time_of_day: (u8, u8, u8, u32)) -> (r: String)
    ensures
        r@ == stamp_text(clock_parts(date, time_of_day)),
{
    let (year, month, day) = date;
    let (hour, minute, second, nanosecond) = time_of_day;
    stamp_from_parts(StampParts { year, month, day, hour, minute, second, nanosecond })
}

/// The stamp naming a history snapshot taken now: the current UTC date and
/// time, read from the `time` crate, written by `stamp_from_clock`.
pub fn history_stamp() -> (r: String)
    ensures
        exists|p: StampParts| parts_in_range(p) && r@ == stamp_text(p),
{
    let now = utc_now();
    let date = calendar_date(&now);
    let time_of_day = clock_time(&now);
    let r = stamp_from_clock(date, time_of_day);
    assert(parts_in_range(clock_parts(date, time_of_day)));
    r
}

/// The message of a `time::error::Format` (its `Display` text); nothing
/// is stated of it.
#[verifier::external_body]
fn format_error_text(e: &time::error::Format) -> (r: String) {
    e.to_string()
}

/// The timestamp to store: the formatted time, or the epoch
/// `1970-01-01T00:00:00Z` when formatting failed.
pub fn timestamp_or_epoch(formatted: Result<String, time::error::Format>) -> (r: String)
    ensures
        r@ == match formatted {
            Ok(s) => s@,
            Err(_) => "1970-01-01T00:00:00Z"@,
        },
{
    match formatted {
        Ok(s) => s,
        Err(_) => "1970-01-01T00:00:00Z".to_owned(),
    }
}

/// The current UTC time in RFC 3339, or the epoch when it cannot be
/// formatted.
pub fn current_timestamp() -> (r: String)
    ensures
        rfc3339_shaped(r@) || r@ == "1970-01-01T00:00:00Z"@,
{
    let now = utc_now();
    timestamp_or_epoch(format_rfc3339(&now))
}

/// A new note with a fresh ULID, created and updated now; refused when the
/// current time cannot be formatted.
pub fn draft_note(title: &str, content: &str) -> (r: Result<Note, StorageError>)
    ensures
        r matches Ok(n) ==> {
            &&& n@.schema_version == crate::model::schema_version_text()
            &&& ulid_text(n@.id)
            &&& n@.title == title@
            &&& n@.content == content@
            &&& n@.created_at == n@.updated_at
            &&& rfc3339_shaped(n@.created_at)
        },
        r matches Err(e) ==> e is Timestamp,
{
    let now = utc_now();
    let timestamp = match format_rfc3339(&now) {
        Ok(s) => s,
        Err(e) => {
            return Err(StorageError::Timestamp { detail: format_error_text(&e) });
        },
    };
    let id = fresh_ulid_text();
    Ok(note_from_parts(id, timestamp, title, content))
}

} // verus!

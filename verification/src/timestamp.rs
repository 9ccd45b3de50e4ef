//! Recording start times encoded in session names such as `alice_20240131_235959`.

use vstd::prelude::*;
use crate::text::{
    all_digits, all_digits_in, chars_of, digit_char, digit_value, digits_value, extend_chars,
    is_digit,
    lemma_rfind_char,
    lemma_rfind_char_unique, rfind_char, rfind_char_in, slice_chars, string_of, utf8_len, utf8_len_is,
};
use crate::paths::{file_name_of, path_file_name};
use crate::sorting::key_le;

verus! {

/// Whether chrono's `NaiveDateTime::parse_from_str` accepts `s` under `fmt`.
pub uninterp spec fn naive_datetime_parses(s: Seq<char>, fmt: Seq<char>) -> bool;

/// The chrono format of the packed date and time (`YYYYMMDDHHmmss`).
pub open spec fn compact_format() -> Seq<char> {
    seq!['%', 'Y', '%', 'm', '%', 'd', '%', 'H', '%', 'M', '%', 'S']
}

/// The value of the two decimal digits of `s` at `i` and `i + 1`.
pub open spec fn two_digit_value(s: Seq<char>, i: int) -> int {
    (digit_value(s[i]) * 10 + digit_value(s[i + 1])) as int
}

pub open spec fn is_leap_year(y: int) -> bool {
    y % 4 == 0 && (y % 100 != 0 || y % 400 == 0)
}

/// Days of month `m` (1 to 12) of year `y` in the Gregorian calendar.
pub open spec fn days_in_month(y: int, m: int) -> int {
    if m == 2 {
        if is_leap_year(y) {
            29
        } else {
            28
        }
    } else if m == 4 || m == 6 || m == 9 || m == 11 {
        30
    } else {
        31
    }
}

/// The year, month, day, hour, minute and second of a packed `YYYYMMDDHHmmss`.
pub open spec fn packed_year(p: Seq<char>) -> int {
    two_digit_value(p, 0) * 100 + two_digit_value(p, 2)
}

/// A packed `YYYYMMDDHHmmss` of 14 ASCII digits.
pub open spec fn is_packed_digits(p: Seq<char>) -> bool {
    p.len() == 14 && all_digits(p)
}

/// The packed digits name an existing date and a time of day (the second may be 60,
/// a leap second).
pub open spec fn packed_valid(p: Seq<char>) -> bool {
    let m = two_digit_value(p, 4);
    let d = two_digit_value(p, 6);
    &&& 1 <= m <= 12
    &&& 1 <= d <= days_in_month(packed_year(p), m)
    &&& two_digit_value(p, 8) <= 23
    &&& two_digit_value(p, 10) <= 59
    &&& two_digit_value(p, 12) <= 60
}

/// The fields chrono holds for valid packed digits: year, month, day, hour, minute,
/// second and nanosecond, a leap second `60` being second 59 with a nanosecond of
/// at least one billion.
pub open spec fn packed_fields(p: Seq<char>) -> (i32, u32, u32, u32, u32, u32, u32) {
    let sec = two_digit_value(p, 12);
    (
        packed_year(p) as i32,
        two_digit_value(p, 4) as u32,
        two_digit_value(p, 6) as u32,
        two_digit_value(p, 8) as u32,
        two_digit_value(p, 10) as u32,
        (if sec == 60 {
            59int
        } else {
            sec
        }) as u32,
        (if sec == 60 {
            1_000_000_000int
        } else {
            0int
        }) as u32,
    )
}

/// `n` (below 100) written with two digits.
pub open spec fn two_digits(n: int) -> Seq<char> {
    seq![digit_char((n / 10) as nat), digit_char((n % 10) as nat)]
}

/// The first 19 characters of chrono's RFC 3339 rendering of a date and time with a
/// year from 0 to 9999: `YYYY-MM-DDTHH:mm:ss`, a leap second shown as second 60.
pub open spec fn rfc3339_prefix(
    year: i32,
    month: u32,
    day: u32,
    hour: u32,
    minute: u32,
    second: u32,
    nano: u32,
) -> Seq<char> {
    two_digits(year as int / 100) + two_digits(year as int % 100) + seq!['-'] + two_digits(month as int) + seq![
        '-',
    ] + two_digits(day as int) + seq!['T'] + two_digits(hour as int) + seq![':'] + two_digits(
        minute as int,
    ) + seq![':'] + two_digits(
        if nano >= 1_000_000_000 {
            second + 1
        } else {
            second as int
        },
    )
}

/// The packed digits laid out as `YYYY-MM-DDTHH:mm:ss`.
pub open spec fn packed_as_rfc3339(p: Seq<char>) -> Seq<char> {
    p.subrange(0, 4) + seq!['-'] + p.subrange(4, 6) + seq!['-'] + p.subrange(6, 8) + seq!['T']
        + p.subrange(8, 10) + seq![':'] + p.subrange(10, 12) + seq![':'] + p.subrange(12, 14)
}

/// An ASCII letter or digit.
pub open spec fn is_ascii_alnum(c: char) -> bool {
    ('0' <= c && c <= '9') || ('a' <= c && c <= 'z') || ('A' <= c && c <= 'Z')
}

pub open spec fn all_ascii_alnum(s: Seq<char>) -> bool {
    forall|i: int| 0 <= i < s.len() ==> is_ascii_alnum(#[trigger] s[i])
}

/// Text of ASCII characters takes one byte per character.
proof fn lemma_ascii_utf8_len(s: Seq<char>)
    requires
        all_ascii_alnum(s),
    ensures
        utf8_len(s) == s.len(),
    decreases s.len(),
{
    if s.len() > 0 {
        assert(all_ascii_alnum(s.drop_last())) by {
            assert forall|i: int| 0 <= i < s.drop_last().len() implies is_ascii_alnum(
                #[trigger] s.drop_last()[i],
            ) by {
                assert(s.drop_last()[i] == s[i]);
            }
        }
        lemma_ascii_utf8_len(s.drop_last());
        assert(is_ascii_alnum(s[s.len() - 1]));
    }
}

/// `chrono::NaiveDateTime::parse_from_str(s, fmt)`, its result read back as plain
/// fields (year, month, day, hour, minute, second, nanosecond), the error dropped.
/// Whether it succeeds is named `naive_datetime_parses`. On 14 ASCII digits under
/// `%Y%m%d%H%M%S`, chrono reads 4, 2, 2, 2, 2 and 2 digits, checks the ranges of
/// month, day, hour, minute and second (up to 60), that the day exists in its month,
/// and represents a second 60 as a leap second. On text of ASCII letters and digits it
/// succeeds only when every character is a digit: its numeric fields take digits only,
/// the format has nothing between them, and nothing may be left over.
#[verifier::external_body]
fn parse_datetime_fields(s: &str, fmt: &str) -> (r: Option<(i32, u32, u32, u32, u32, u32, u32)>)
    ensures
        r is Some == naive_datetime_parses(s@, fmt@),
        fmt@ == compact_format() && all_ascii_alnum(s@) && r is Some ==> all_digits(s@),
        fmt@ == compact_format() && is_packed_digits(s@) ==> (r is Some == packed_valid(s@)),
        fmt@ == compact_format() && is_packed_digits(s@) && r is Some ==> r->0 == packed_fields(
            s@,
        ),
{
    chrono::NaiveDateTime::parse_from_str(s, fmt).ok().map(
        |dt| {
            (
                chrono::Datelike::year(&dt),
                chrono::Datelike::month(&dt),
                chrono::Datelike::day(&dt),
                chrono::Timelike::hour(&dt),
                chrono::Timelike::minute(&dt),
                chrono::Timelike::second(&dt),
                chrono::Timelike::nanosecond(&dt),
            )
        },
    )
}

/// `chrono::Local.from_local_datetime(dt).single()` rendered with `to_rfc3339`, for the
/// date and time `dt` of the given fields (`None` when they name none). Whether the
/// local time exists once depends on the machine's time zone, and so does the offset
/// at the end, so neither is stated; what is stated is that chrono renders the
/// wall-clock time it was given: for a year from 0 to 9999 the text starts with
/// `YYYY-MM-DDTHH:mm:ss`.
#[verifier::external_body]
fn local_rfc3339(
    year: i32,
    month: u32,
    day: u32,
    hour: u32,
    minute: u32,
    second: u32,
    nano: u32,
) -> (r: Option<String>)
    ensures
        r is Some && 0 <= year <= 9999 ==> r->0@.len() >= 19 && r->0@.take(19) == rfc3339_prefix(
            year,
            month,
            day,
            hour,
            minute,
            second,
            nano,
        ),
{
    chrono::NaiveDate::from_ymd_opt(year, month, day)
        .and_then(|d| d.and_hms_nano_opt(hour, minute, second, nano))
        .and_then(|dt| chrono::TimeZone::from_local_datetime(&chrono::Local, &dt).single())
        .map(|t| t.to_rfc3339())
}

proof fn lemma_two_digits(p: Seq<char>, i: int)
    requires
        0 <= i,
        i + 2 <= p.len(),
        is_digit(p[i]),
        is_digit(p[i + 1]),
    ensures
        0 <= two_digit_value(p, i) <= 99,
        two_digits(two_digit_value(p, i)) == p.subrange(i, i + 2),
{
    let a = digit_value(p[i]) as int;
    let b = digit_value(p[i + 1]) as int;
    assert(0 <= a <= 9 && 0 <= b <= 9);
    assert((a * 10 + b) / 10 == a && (a * 10 + b) % 10 == b) by (nonlinear_arith)
        requires
            0 <= a <= 9,
            0 <= b <= 9,
    ;
    assert(digit_char(a as nat) == p[i]);
    assert(digit_char(b as nat) == p[i + 1]);
    assert(two_digits(two_digit_value(p, i)) =~= p.subrange(i, i + 2));
}

/// chrono's rendering of the fields read from packed digits lays the digits out as
/// `YYYY-MM-DDTHH:mm:ss`.
proof fn lemma_packed_rendering(p: Seq<char>)
    requires
        is_packed_digits(p),
    ensures
        0 <= packed_year(p) <= 9999,
        ({
            let f = packed_fields(p);
            rfc3339_prefix(f.0, f.1, f.2, f.3, f.4, f.5, f.6) == packed_as_rfc3339(p)
        }),
{
    lemma_two_digits(p, 0);
    lemma_two_digits(p, 2);
    lemma_two_digits(p, 4);
    lemma_two_digits(p, 6);
    lemma_two_digits(p, 8);
    lemma_two_digits(p, 10);
    lemma_two_digits(p, 12);
    let hi = two_digit_value(p, 0);
    let lo = two_digit_value(p, 2);
    assert((hi * 100 + lo) / 100 == hi && (hi * 100 + lo) % 100 == lo) by (nonlinear_arith)
        requires
            0 <= hi <= 99,
            0 <= lo <= 99,
    ;
    let f = packed_fields(p);
    assert(f.0 / 100 == hi && f.0 % 100 == lo);
    let sec = two_digit_value(p, 12);
    assert((if f.6 >= 1_000_000_000 {
        f.5 + 1
    } else {
        f.5 as int
    }) == sec);
    assert(rfc3339_prefix(f.0, f.1, f.2, f.3, f.4, f.5, f.6) =~= packed_as_rfc3339(p));
}

/// Index of the last `_` of `stem` (the start of the time part), or -1.
pub open spec fn last_sep(stem: Seq<char>) -> int {
    rfind_char(stem, '_')
}

/// The part after the last `_`.
pub open spec fn time_part(stem: Seq<char>) -> Seq<char> {
    stem.skip(last_sep(stem) + 1)
}

/// The part between the last two `_` (or from the start, if there is only one `_`).
pub open spec fn date_part(stem: Seq<char>) -> Seq<char> {
    let j = last_sep(stem);
    stem.subrange(rfind_char(stem.take(j), '_') + 1, j)
}

/// Sort key of a session directory name: `YYYYMMDD_HHmmss` when the last two
/// `_`-separated parts are 8 and 6 ASCII digits, the whole name otherwise.
pub open spec fn session_timestamp_key(stem: Seq<char>) -> Seq<char> {
    if last_sep(stem) >= 0 && date_part(stem).len() == 8 && time_part(stem).len() == 6 && all_digits(
        date_part(stem),
    ) && all_digits(time_part(stem)) {
        date_part(stem) + seq!['_'] + time_part(stem)
    } else {
        stem
    }
}

/// A stem whose last two `_`-separated parts are 8 and 6 bytes long.
pub open spec fn has_timestamp_shape(stem: Seq<char>) -> bool {
    last_sep(stem) >= 0 && utf8_len(date_part(stem)) == 8 && utf8_len(time_part(stem)) == 6
}

/// Bounds of the date and time parts in `v`, when `v` holds a `_`.
fn split_stem(v: &Vec<char>) -> (r: Option<(usize, usize)>)
    ensures
        match r {
            Some((i, j)) => {
                &&& last_sep(v@) >= 0
                &&& i <= j < v@.len()
                &&& v@.subrange(i as int, j as int) == date_part(v@)
                &&& v@.subrange(j + 1, v@.len() as int) == time_part(v@)
            },
            None => last_sep(v@) < 0,
        },
{
    proof {
        lemma_rfind_char(v@, '_');
        assert(v@.subrange(0, v@.len() as int) =~= v@);
    }
    match rfind_char_in(v, 0, v.len(), '_') {
        None => None,
        Some(j) => {
            proof {
                assert(v@.subrange(0, j as int) =~= v@.take(j as int));
                lemma_rfind_char(v@.take(j as int), '_');
            }
            let i = match rfind_char_in(v, 0, j, '_') {
                None => 0,
                Some(k) => k + 1,
            };
            assert(v@.skip(j + 1) =~= v@.subrange(j + 1, v@.len() as int));
            Some((i, j))
        },
    }
}

/// Sort key of a session directory name (see `session_timestamp_key`).
pub fn session_dir_timestamp_from_stem(stem: &str) -> (r: String)
    ensures
        r@ == session_timestamp_key(stem@),
{
    let v = chars_of(stem);
    if let Some((i, j)) = split_stem(&v) {
        let n = v.len();
        if j - i == 8 && n - (j + 1) == 6 && all_digits_in(&v, i, j) && all_digits_in(&v, j + 1, n) {
            let mut out = slice_chars(&v, i, j);
            out.push('_');
            let time = slice_chars(&v, j + 1, n);
            extend_chars(&mut out, &time);
            assert(out@ =~= session_timestamp_key(stem@));
            return string_of(&out);
        }
    }
    string_of(&v)
}

/// A session directory named `{username}_{date}_{time}` (see `session_dir_name`), with
/// an eight-digit date and a six-digit time, sorts by `{date}_{time}`, whatever the
/// username holds (underscores included).
pub proof fn law_session_name_sorts_by_timestamp(
    username: Seq<char>,
    date: Seq<char>,
    time: Seq<char>,
)
    requires
        date.len() == 8,
        time.len() == 6,
        all_digits(date),
        all_digits(time),
    ensures
        session_timestamp_key(username + "_"@ + (date + "_"@ + time)) == date + "_"@ + time,
{
    reveal_strlit("_");
    let s = username + "_"@ + (date + "_"@ + time);
    let u = username.len() as int;
    let j = u + 9;
    assert(s[j] == '_');
    assert forall|k: int| j < k < s.len() implies s[k] != '_' by {
        assert(s[k] == time[k - j - 1]);
        assert(is_digit(time[k - j - 1]));
    }
    lemma_rfind_char_unique(s, '_', j);
    let t = s.take(j);
    assert(t[u] == '_');
    assert forall|k: int| u < k < t.len() implies t[k] != '_' by {
        assert(t[k] == date[k - u - 1]);
        assert(is_digit(date[k - u - 1]));
    }
    lemma_rfind_char_unique(t, '_', u);
    assert(time_part(s) =~= time);
    assert(date_part(s) =~= date);
    assert(date_part(s) + seq!['_'] + time_part(s) =~= date + "_"@ + time);
}

/// Comparing texts that start with parts of equal length: the parts decide unless
/// they are equal, then the rests do.
pub proof fn lemma_key_le_concat(x1: Seq<char>, y1: Seq<char>, x2: Seq<char>, y2: Seq<char>)
    requires
        x1.len() == x2.len(),
    ensures
        key_le(x1 + y1, x2 + y2) == (if x1 == x2 {
            key_le(y1, y2)
        } else {
            key_le(x1, x2)
        }),
    decreases x1.len(),
{
    if x1.len() == 0 {
        assert(x1 + y1 =~= y1);
        assert(x2 + y2 =~= y2);
        assert(x1 =~= x2);
    } else {
        let a = x1 + y1;
        let b = x2 + y2;
        assert(a[0] == x1[0] && b[0] == x2[0]);
        assert(a.drop_first() =~= x1.drop_first() + y1);
        assert(b.drop_first() =~= x2.drop_first() + y2);
        lemma_key_le_concat(x1.drop_first(), y1, x2.drop_first(), y2);
        if x1[0] == x2[0] {
            if x1.drop_first() == x2.drop_first() {
                assert(x1 =~= seq![x1[0]] + x1.drop_first());
                assert(x2 =~= seq![x2[0]] + x2.drop_first());
            } else {
                assert(x1 != x2) by {
                    if x1 == x2 {
                        assert(x1.drop_first() =~= x2.drop_first());
                    }
                }
            }
        } else {
            assert(x1 != x2);
        }
    }
}

/// For digit texts of equal length, the text order is the order of their values, and
/// equal values mean equal texts.
pub proof fn lemma_digits_key_le(x: Seq<char>, y: Seq<char>)
    requires
        x.len() == y.len(),
        all_digits(x),
        all_digits(y),
    ensures
        key_le(x, y) == (digits_value(x) <= digits_value(y)),
        (digits_value(x) == digits_value(y)) == (x == y),
    decreases x.len(),
{
    if x.len() == 0 {
        assert(x =~= y);
    } else {
        let x1 = x.drop_last();
        let y1 = y.drop_last();
        let cx = x.last();
        let cy = y.last();
        assert(all_digits(x1) && all_digits(y1)) by {
            assert forall|i: int| 0 <= i < x1.len() implies is_digit(#[trigger] x1[i]) by {
                assert(x1[i] == x[i]);
            }
            assert forall|i: int| 0 <= i < y1.len() implies is_digit(#[trigger] y1[i]) by {
                assert(y1[i] == y[i]);
            }
        }
        lemma_digits_key_le(x1, y1);
        assert(x =~= x1 + seq![cx]);
        assert(y =~= y1 + seq![cy]);
        lemma_key_le_concat(x1, seq![cx], y1, seq![cy]);
        assert(seq![cx].drop_first() =~= Seq::<char>::empty());
        assert(seq![cy].drop_first() =~= Seq::<char>::empty());
        assert(key_le(seq![cx], seq![cy]) == (cx <= cy)) by {
            reveal_with_fuel(key_le, 2);
        }
        assert(is_digit(x[x.len() - 1]) && is_digit(y[y.len() - 1]));
        let vx = digits_value(x1) as int;
        let vy = digits_value(y1) as int;
        let ex = digit_value(cx) as int;
        let ey = digit_value(cy) as int;
        assert(0 <= ex <= 9 && 0 <= ey <= 9);
        assert(digits_value(x) == vx * 10 + ex);
        assert(digits_value(y) == vy * 10 + ey);
        assert((ex <= ey) == (cx <= cy));
        assert((ex == ey) == (cx == cy));
        assert(vx < vy ==> vx * 10 + ex < vy * 10 + ey) by (nonlinear_arith)
            requires
                0 <= ex <= 9,
                0 <= ey <= 9,
        ;
        assert(vy < vx ==> vy * 10 + ey < vx * 10 + ex) by (nonlinear_arith)
            requires
                0 <= ex <= 9,
                0 <= ey <= 9,
        ;
        if x == y {
        } else if x1 == y1 {
            assert(cx != cy);
        }
    }
}

/// Session directories named `{a}_{d1}_{t1}` and `{b}_{d2}_{t2}` (eight-digit dates,
/// six-digit times, any streamer names) sort by their keys as the pairs (date, time)
/// sort: by the date first, then, for equal dates, by the time, as texts and as
/// numbers alike; the names play no part.
pub proof fn law_session_keys_order_by_date_then_time(
    a: Seq<char>,
    d1: Seq<char>,
    t1: Seq<char>,
    b: Seq<char>,
    d2: Seq<char>,
    t2: Seq<char>,
)
    requires
        d1.len() == 8 && d2.len() == 8,
        t1.len() == 6 && t2.len() == 6,
        all_digits(d1) && all_digits(d2) && all_digits(t1) && all_digits(t2),
    ensures
        key_le(
            session_timestamp_key(a + "_"@ + (d1 + "_"@ + t1)),
            session_timestamp_key(b + "_"@ + (d2 + "_"@ + t2)),
        ) == (if d1 == d2 {
            key_le(t1, t2)
        } else {
            key_le(d1, d2)
        }),
        key_le(
            session_timestamp_key(a + "_"@ + (d1 + "_"@ + t1)),
            session_timestamp_key(b + "_"@ + (d2 + "_"@ + t2)),
        ) == (digits_value(d1) < digits_value(d2) || (digits_value(d1) == digits_value(d2)
            && digits_value(t1) <= digits_value(t2))),
{
    lemma_digits_key_le(d1, d2);
    lemma_digits_key_le(t1, t2);
    law_session_name_sorts_by_timestamp(a, d1, t1);
    law_session_name_sorts_by_timestamp(b, d2, t2);
    reveal_strlit("_");
    assert(d1 + "_"@ + t1 =~= d1 + ("_"@ + t1));
    assert(d2 + "_"@ + t2 =~= d2 + ("_"@ + t2));
    lemma_key_le_concat(d1, "_"@ + t1, d2, "_"@ + t2);
    lemma_key_le_concat("_"@, t1, "_"@, t2);
}

/// Sort key of a session directory path: `session_dir_timestamp_from_stem` of its file
/// name (of the empty name where the path has none).
pub fn session_dir_timestamp(path: &str) -> (r: String)
    ensures
        r@ == session_timestamp_key(
            match path_file_name(path@) {
                Some(n) => n,
                None => Seq::empty(),
            },
        ),
{
    match file_name_of(path) {
        Some(name) => session_dir_timestamp_from_stem(name.as_str()),
        None => {
            proof {
                reveal_strlit("");
            }
            session_dir_timestamp_from_stem("")
        },
    }
}

/// The date and time encoded in a stem `{name}_{YYYYMMDD}_{HHmmss}`, as chrono reads
/// them (year, month, day, hour, minute, second, nanosecond): `Some` exactly when the
/// last two `_`-separated parts are 8 and 6 bytes long and chrono parses them as
/// `%Y%m%d%H%M%S`. For digit parts that is exactly when they name an existing date and
/// a time of day, and the fields are their values.
pub fn stem_datetime_fields(stem: &str) -> (r: Option<(i32, u32, u32, u32, u32, u32, u32)>)
    ensures
        r is Some == (has_timestamp_shape(stem@) && naive_datetime_parses(
            date_part(stem@) + time_part(stem@),
            compact_format(),
        )),
        has_timestamp_shape(stem@) && is_packed_digits(date_part(stem@) + time_part(stem@)) ==> (
        r is Some == packed_valid(date_part(stem@) + time_part(stem@))),
        r is Some && is_packed_digits(date_part(stem@) + time_part(stem@)) ==> r->0
            == packed_fields(date_part(stem@) + time_part(stem@)),
        r is Some && all_ascii_alnum(date_part(stem@) + time_part(stem@)) ==> is_packed_digits(
            date_part(stem@) + time_part(stem@),
        ) && session_timestamp_key(stem@) == date_part(stem@) + seq!['_'] + time_part(stem@),
{
    let v = chars_of(stem);
    let (i, j) = match split_stem(&v) {
        Some(p) => p,
        None => return None,
    };
    let n = v.len();
    if utf8_len_is(&v, i, j, 8) && utf8_len_is(&v, j + 1, n, 6) {
        let date = string_of(&slice_chars(&v, i, j));
        let time = string_of(&slice_chars(&v, j + 1, n));
        let mut combined = date;
        combined.append(time.as_str());
        assert(combined@ =~= date_part(stem@) + time_part(stem@));
        let fmt = "%Y%m%d%H%M%S";
        proof {
            reveal_strlit("%Y%m%d%H%M%S");
        }
        assert(fmt@ =~= compact_format());
        let r = parse_datetime_fields(combined.as_str(), fmt);
        proof {
            let d = v@.subrange(i as int, j as int);
            let t = v@.subrange(j + 1, n as int);
            assert(combined@ =~= d + t);
            if all_ascii_alnum(combined@) {
                assert forall|k: int| 0 <= k < d.len() implies is_ascii_alnum(#[trigger] d[k]) by {
                    assert(d[k] == combined@[k]);
                }
                assert forall|k: int| 0 <= k < t.len() implies is_ascii_alnum(#[trigger] t[k]) by {
                    assert(t[k] == combined@[d.len() + k]);
                }
                lemma_ascii_utf8_len(d);
                lemma_ascii_utf8_len(t);
                if all_digits(combined@) {
                    assert forall|k: int| 0 <= k < d.len() implies is_digit(#[trigger] d[k]) by {
                        assert(d[k] == combined@[k]);
                    }
                    assert forall|k: int| 0 <= k < t.len() implies is_digit(#[trigger] t[k]) by {
                        assert(t[k] == combined@[d.len() + k]);
                    }
                }
            }
        }
        return r;
    }
    None
}

/// The recording start time encoded in a stem `{name}_{YYYYMMDD}_{HHmmss}`, as an
/// RFC 3339 local time: `stem_datetime_fields` rendered in the local time zone. `None`
/// when there are no fields; the local rendering can still fail where the wall-clock
/// time does not exist once in the local time zone. When the parts are digits, the
/// date must exist, and the text starts with `YYYY-MM-DDTHH:mm:ss` from them; only
/// the offset after it depends on the time zone.
pub fn parse_timestamp_from_stem_pub(stem: &str) -> (r: Option<String>)
    ensures
        r is Some ==> has_timestamp_shape(stem@) && naive_datetime_parses(
            date_part(stem@) + time_part(stem@),
            compact_format(),
        ),
        r is Some && is_packed_digits(date_part(stem@) + time_part(stem@)) ==> {
            let p = date_part(stem@) + time_part(stem@);
            &&& packed_valid(p)
            &&& r->0@.len() >= 19
            &&& r->0@.take(19) == packed_as_rfc3339(p)
        },
        r is Some && all_ascii_alnum(date_part(stem@) + time_part(stem@)) ==> is_packed_digits(
            date_part(stem@) + time_part(stem@),
        ) && session_timestamp_key(stem@) == date_part(stem@) + seq!['_'] + time_part(stem@),
{
    match stem_datetime_fields(stem) {
        None => None,
        Some(f) => {
            let r = local_rfc3339(f.0, f.1, f.2, f.3, f.4, f.5, f.6);
            proof {
                let p = date_part(stem@) + time_part(stem@);
                if is_packed_digits(p) {
                    lemma_packed_rendering(p);
                }
            }
            r
        },
    }
}

} // verus!

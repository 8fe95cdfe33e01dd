use chrono::{Datelike, TimeZone, Timelike};
use vstd::prelude::*;
use vstd::string::{StrSliceExecFns, StringExecFns};

use crate::store::SnapshotStore;
use crate::text::{all_digits, decimal_value, is_digit, is_u64_decimal, matches_at, occurs_at, read_decimal};

verus! {

/// What chrono reads from a day directory name in the form `%Y-%m-%d`: the
/// year, month and day of a valid date.
pub uninterp spec fn parsed_day(s: Seq<char>) -> Option<(i32, u32, u32)>;

/// What chrono reads from a time of day in the form `%H:%M:%S`: the seconds
/// since midnight.
pub uninterp spec fn parsed_time_of_day(s: Seq<char>) -> Option<u32>;

/// Relies on `chrono::NaiveDate::parse_from_str` with `%Y-%m-%d`: a parsed
/// date has a month in 1..=12 and a day in 1..=31.
#[verifier::external_body]
fn parse_day(s: &str) -> (r: Option<(i32, u32, u32)>)
    ensures
        r == parsed_day(s@),
        r matches Some((y, m, d)) ==> 1 <= m <= 12 && 1 <= d <= 31,
{
    match chrono::NaiveDate::parse_from_str(s, "%Y-%m-%d") {
        Ok(d) => Some((d.year(), d.month(), d.day())),
        Err(_) => None,
    }
}

/// Relies on `chrono::NaiveTime::parse_from_str` with `%H:%M:%S`: the
/// seconds past midnight of a parsed time are below 86400.
#[verifier::external_body]
fn parse_time_of_day(s: &str) -> (r: Option<u32>)
    ensures
        r == parsed_time_of_day(s@),
        r matches Some(secs) ==> secs < 86400,
{
    match chrono::NaiveTime::parse_from_str(s, "%H:%M:%S") {
        Ok(t) => Some(t.num_seconds_from_midnight()),
        Err(_) => None,
    }
}

/// Relies on `chrono::Local::from_local_datetime`: the instant, in
/// milliseconds since the epoch, that the machine's time zone gives to a
/// wall-clock time; the earlier one where the clock was turned back, none
/// where it was turned forward past it.
#[verifier::external_body]
fn local_instant(year: i32, month: u32, day: u32, seconds_of_day: u32) -> (r: Option<i64>) {
    let date = chrono::NaiveDate::from_ymd_opt(year, month, day)?;
    let time = chrono::NaiveTime::from_num_seconds_from_midnight_opt(seconds_of_day, 0)?;
    match chrono::Local.from_local_datetime(&date.and_time(time)) {
        chrono::LocalResult::Single(t) => Some(t.timestamp_millis()),
        chrono::LocalResult::Ambiguous(t, _) => Some(t.timestamp_millis()),
        chrono::LocalResult::None => None,
    }
}

pub open spec fn screen_marker() -> Seq<char> {
    seq!['_', 's', 'c', 'r', 'e', 'e', 'n', '-']
}

pub open spec fn png_suffix() -> Seq<char> {
    seq!['.', 'p', 'n', 'g']
}

pub open spec fn afk_png_suffix() -> Seq<char> {
    seq!['_', 'A', 'F', 'K', '.', 'p', 'n', 'g']
}

/// The monitor id and away flag that end a capture file name: the id in
/// decimal, then `_AFK.png` when the user was away, `.png` otherwise.
pub open spec fn capture_tail(rest: Seq<char>) -> Option<(u64, bool)> {
    let n = rest.len() as int;
    if n >= 8 && rest.subrange(n - 8, n) == afk_png_suffix() && is_u64_decimal(rest.take(n - 8)) {
        Some((decimal_value(rest.take(n - 8)) as u64, true))
    } else if n >= 4 && rest.subrange(n - 4, n) == png_suffix() && is_u64_decimal(rest.take(n - 4)) {
        Some((decimal_value(rest.take(n - 4)) as u64, false))
    } else {
        None
    }
}

/// `p` is where `_screen-` first occurs in `s`.
pub open spec fn first_marker_at(s: Seq<char>, p: int) -> bool {
    &&& occurs_at(s, screen_marker(), p)
    &&& forall|q: int| 0 <= q < p ==> !occurs_at(s, screen_marker(), q)
}

/// The parts of a capture file name `HH:MM:SS_screen-<id>[_AFK].png`: the
/// time of day (the non-empty text before the first `_screen-`), the monitor
/// id and the away flag.
pub open spec fn capture_name(s: Seq<char>) -> Option<(Seq<char>, u64, bool)> {
    if exists|p: int| first_marker_at(s, p) {
        let p = choose|p: int| first_marker_at(s, p);
        if p >= 1 {
            match capture_tail(s.subrange(p + 8, s.len() as int)) {
                Some((id, afk)) => Some((s.take(p), id, afk)),
                None => None,
            }
        } else {
            None
        }
    } else {
        None
    }
}

/// Splits a capture file name into its time of day, monitor id and away
/// flag.
pub fn split_capture_name(name: &str) -> (r: Option<(&str, u64, bool)>)
    ensures
        match r {
            Some((hms, id, afk)) => capture_name(name@) == Some((hms@, id, afk)),
            None => capture_name(name@) is None,
        },
{
    proof {
        reveal_strlit("_screen-");
        reveal_strlit("_AFK.png");
        reveal_strlit(".png");
    }
    let marker = "_screen-";
    let afk_suffix = "_AFK.png";
    let suffix = ".png";
    assert(marker@ =~= screen_marker());
    assert(afk_suffix@ =~= afk_png_suffix());
    assert(suffix@ =~= png_suffix());
    let n = name.unicode_len();
    let mut p: usize = 0;
    let mut found = false;
    while !found && 8 <= n - p
        invariant
            n == name@.len(),
            marker@ == screen_marker(),
            forall|q: int| 0 <= q < p ==> !occurs_at(name@, screen_marker(), q),
            found ==> occurs_at(name@, screen_marker(), p as int),
            p <= n,
        decreases n - p, if found { 0int } else { 1int },
    {
        if matches_at(name, p, marker) {
            found = true;
        } else {
            p = p + 1;
        }
    }
    proof {
        if exists|q: int| first_marker_at(name@, q) {
            let q = choose|q: int| first_marker_at(name@, q);
            if found {
                assert(first_marker_at(name@, p as int));
                if q < p {
                    assert(!occurs_at(name@, screen_marker(), q));
                }
                if p < q {
                    assert(!occurs_at(name@, screen_marker(), p as int));
                }
            } else {
                assert(q + 8 <= n);
                assert(!occurs_at(name@, screen_marker(), q));
            }
        }
    }
    if !found || p == 0 {
        return None;
    }
    let start = p + 8;
    let ghost rest = name@.subrange(start as int, n as int);
    proof {
        assert(first_marker_at(name@, p as int));
    }
    if n - start >= 8 && matches_at(name, n - 8, afk_suffix) {
        assert(rest.subrange(rest.len() - 8, rest.len() as int) =~= name@.subrange(n - 8, n as int));
        assert(rest.take(rest.len() - 8) =~= name@.subrange(start as int, n - 8));
        if let Some(id) = read_decimal(name, start, n - 8) {
            return Some((name.substring_char(0, p), id, true));
        }
    } else if n - start >= 8 {
        assert(rest.subrange(rest.len() - 8, rest.len() as int) =~= name@.subrange(n - 8, n as int));
    }
    if n - start >= 4 && matches_at(name, n - 4, suffix) {
        assert(rest.subrange(rest.len() - 4, rest.len() as int) =~= name@.subrange(n - 4, n as int));
        assert(rest.take(rest.len() - 4) =~= name@.subrange(start as int, n - 4));
        if let Some(id) = read_decimal(name, start, n - 4) {
            return Some((name.substring_char(0, p), id, false));
        }
    } else if n - start >= 4 {
        assert(rest.subrange(rest.len() - 4, rest.len() as int) =~= name@.subrange(n - 4, n as int));
    }
    None
}

/// What a capture file's day directory and file name say about it.
#[derive(PartialEq, Eq, Structural, Debug, Clone, Copy)]
pub struct CaptureInfo {
    pub year: i32,
    pub month: u32,
    pub day: u32,
    /// Seconds since local midnight.
    pub seconds_of_day: u32,
    /// The monitor id.
    pub screen: u64,
    /// Whether the user was away at capture time.
    pub afk: bool,
}

/// Why a capture file could not be taken into the store.
#[derive(PartialEq, Eq, Structural, Debug, Clone, Copy)]
pub enum IngestError {
    /// The day directory's name is not a `YYYY-MM-DD` date.
    BadDayName,
    /// The file name is not `HH:MM:SS_screen-<id>[_AFK].png`.
    BadFileName,
    /// The file name's time of day is not `HH:MM:SS`.
    BadTimeOfDay,
    /// The wall-clock time does not exist in the local time zone.
    NoSuchLocalTime,
}

/// What the day directory name `day` and the file name `file` say about a
/// capture.
pub open spec fn capture_info(day: Seq<char>, file: Seq<char>) -> Result<CaptureInfo, IngestError> {
    match parsed_day(day) {
        None => Err(IngestError::BadDayName),
        Some((year, month, d)) => match capture_name(file) {
            None => Err(IngestError::BadFileName),
            Some((hms, screen, afk)) => match parsed_time_of_day(hms) {
                None => Err(IngestError::BadTimeOfDay),
                Some(seconds_of_day) => Ok(
                    CaptureInfo { year, month, day: d, seconds_of_day, screen, afk },
                ),
            },
        },
    }
}

/// Reads a capture file's date, time of day, monitor and away flag from the
/// name of its day directory and its own name.
pub fn read_capture(day_name: &str, file_name: &str) -> (r: Result<CaptureInfo, IngestError>)
    ensures
        r == capture_info(day_name@, file_name@),
{
    let (year, month, day) = match parse_day(day_name) {
        Some(date) => date,
        None => {
            return Err(IngestError::BadDayName);
        },
    };
    let (hms, screen, afk) = match split_capture_name(file_name) {
        Some(parts) => parts,
        None => {
            return Err(IngestError::BadFileName);
        },
    };
    match parse_time_of_day(hms) {
        Some(seconds_of_day) => Ok(CaptureInfo { year, month, day, seconds_of_day, screen, afk }),
        None => Err(IngestError::BadTimeOfDay),
    }
}

/// Takes the capture file `path`, named `file_name` in the day directory
/// `day_name`, into the store; returns the index of its snapshot. Its time is
/// the instant the local time zone gives to the wall-clock time of its name.
pub fn add_capture_file<I>(store: &mut SnapshotStore<I>, day_name: &str, file_name: &str, path: String) -> (r: Result<usize, IngestError>)
    requires
        old(store).wf(),
    ensures
        final(store).wf(),
        capture_info(day_name@, file_name@) matches Err(e) ==> r == Err::<usize, IngestError>(e),
        r is Err ==> *final(store) == *old(store),
        capture_info(day_name@, file_name@) is Ok ==> (r matches Err(e) ==> e == IngestError::NoSuchLocalTime),
        r matches Ok(k) ==> {
            let info = capture_info(day_name@, file_name@)->Ok_0;
            &&& capture_info(day_name@, file_name@) is Ok
            &&& exists|t: i64|
                #[trigger] final(store).capture_added(*old(store), k as int, t, info.screen, info.afk, path)
        },
{
    let info = match read_capture(day_name, file_name) {
        Ok(info) => info,
        Err(e) => {
            return Err(e);
        },
    };
    match local_instant(info.year, info.month, info.day, info.seconds_of_day) {
        Some(t) => {
            let ghost before = *store;
            let ghost p = path;
            let k = store.add_capture(t, info.screen, info.afk, path);
            assert(info == capture_info(day_name@, file_name@)->Ok_0);
            assert(store.capture_added(before, k as int, t, info.screen, info.afk, p));
            let r: Result<usize, IngestError> = Ok(k);
            assert(r matches Ok(k0) && k0 == k);
            r
        },
        None => Err(IngestError::NoSuchLocalTime),
    }
}

/// The character of decimal digit `d`.
pub open spec fn digit_char(d: int) -> char {
    ('0' as int + d) as char
}

/// `v` in decimal, without leading zeros.
pub open spec fn decimal_digits(v: nat) -> Seq<char>
    decreases v,
{
    if v < 10 {
        seq![digit_char(v as int)]
    } else {
        decimal_digits(v / 10).push(digit_char((v % 10) as int))
    }
}

/// `v` in two decimal digits.
pub open spec fn two_digits(v: nat) -> Seq<char> {
    seq![digit_char((v / 10) as int), digit_char((v % 10) as int)]
}

/// The name under which a capture of monitor `screen` at the given time of
/// day is stored: `HH:MM:SS_screen-<id>.png`, with `_AFK` before the `.png`
/// when the user was away.
pub open spec fn capture_file_name_spec(hour: nat, minute: nat, second: nat, screen: nat, afk: bool) -> Seq<char> {
    time_of_day_text(hour, minute, second) + screen_marker() + decimal_digits(screen) + if afk {
        afk_png_suffix()
    } else {
        png_suffix()
    }
}

/// `HH:MM:SS`.
pub open spec fn time_of_day_text(hour: nat, minute: nat, second: nat) -> Seq<char> {
    two_digits(hour) + seq![':'] + two_digits(minute) + seq![':'] + two_digits(second)
}

/// The name of the directory of a day's captures: `YYYY-MM-DD`.
pub open spec fn day_dir_name_spec(year: nat, month: nat, day: nat) -> Seq<char> {
    two_digits(year / 100) + two_digits(year % 100) + seq!['-'] + two_digits(month) + seq!['-']
        + two_digits(day)
}

/// The one-character string of decimal digit `d`.
fn digit_str(d: u64) -> (r: &'static str)
    requires
        d < 10,
    ensures
        r@ == seq![digit_char(d as int)],
{
    proof {
        reveal_strlit("0");
        reveal_strlit("1");
        reveal_strlit("2");
        reveal_strlit("3");
        reveal_strlit("4");
        reveal_strlit("5");
        reveal_strlit("6");
        reveal_strlit("7");
        reveal_strlit("8");
        reveal_strlit("9");
    }
    let r = if d == 0 {
        "0"
    } else if d == 1 {
        "1"
    } else if d == 2 {
        "2"
    } else if d == 3 {
        "3"
    } else if d == 4 {
        "4"
    } else if d == 5 {
        "5"
    } else if d == 6 {
        "6"
    } else if d == 7 {
        "7"
    } else if d == 8 {
        "8"
    } else {
        "9"
    };
    assert(r@ =~= seq![digit_char(d as int)]);
    r
}

/// Appends `v` in decimal to `text`.
fn push_decimal(text: &mut String, v: u64)
    ensures
        final(text)@ == old(text)@ + decimal_digits(v as nat),
    decreases v,
{
    if v >= 10 {
        push_decimal(text, v / 10);
    }
    text.append(digit_str(v % 10));
    proof {
        if v >= 10 {
            assert(decimal_digits(v as nat) == decimal_digits((v / 10) as nat).push(digit_char((v % 10) as int)));
        }
    }
    assert(final(text)@ =~= old(text)@ + decimal_digits(v as nat));
}

/// Appends `v` in two decimal digits to `text`.
fn push_two_digits(text: &mut String, v: u64)
    requires
        v < 100,
    ensures
        final(text)@ == old(text)@ + two_digits(v as nat),
{
    text.append(digit_str(v / 10));
    text.append(digit_str(v % 10));
    assert(final(text)@ =~= old(text)@ + two_digits(v as nat));
}

/// The name of the file of a capture of monitor `screen` taken at
/// `hour:minute:second`, while the user was away when `afk`.
pub fn capture_file_name(hour: u32, minute: u32, second: u32, screen: u64, afk: bool) -> (r: String)
    requires
        hour < 24,
        minute < 60,
        second <= 60,
    ensures
        r@ == capture_file_name_spec(hour as nat, minute as nat, second as nat, screen as nat, afk),
{
    proof {
        reveal_strlit(":");
        reveal_strlit("_screen-");
        reveal_strlit("_AFK.png");
        reveal_strlit(".png");
    }
    let mut text = String::new();
    push_two_digits(&mut text, hour as u64);
    text.append(":");
    push_two_digits(&mut text, minute as u64);
    text.append(":");
    push_two_digits(&mut text, second as u64);
    text.append("_screen-");
    push_decimal(&mut text, screen);
    if afk {
        text.append("_AFK.png");
    } else {
        text.append(".png");
    }
    assert(text@ =~= capture_file_name_spec(hour as nat, minute as nat, second as nat, screen as nat, afk));
    text
}

/// The name of the directory of the captures of a day.
pub fn day_dir_name(year: u32, month: u32, day: u32) -> (r: String)
    requires
        year <= 9999,
        1 <= month <= 12,
        1 <= day <= 31,
    ensures
        r@ == day_dir_name_spec(year as nat, month as nat, day as nat),
{
    proof {
        reveal_strlit("-");
    }
    let mut text = String::new();
    push_two_digits(&mut text, (year / 100) as u64);
    push_two_digits(&mut text, (year % 100) as u64);
    text.append("-");
    push_two_digits(&mut text, month as u64);
    text.append("-");
    push_two_digits(&mut text, day as u64);
    assert(text@ =~= day_dir_name_spec(year as nat, month as nat, day as nat));
    text
}

proof fn lemma_decimal_digits(v: nat)
    ensures
        decimal_digits(v).len() > 0,
        all_digits(decimal_digits(v)),
        decimal_value(decimal_digits(v)) == v,
    decreases v,
{
    let c = digit_char((v % 10) as int);
    assert(c as int == '0' as int + v % 10);
    if v < 10 {
        assert(decimal_digits(v).drop_last() =~= Seq::<char>::empty());
        assert(decimal_digits(v).last() == c);
        assert(decimal_value(Seq::<char>::empty()) == 0);
        assert(decimal_value(decimal_digits(v)) == decimal_value(Seq::<char>::empty()) * 10 + v % 10);
    } else {
        lemma_decimal_digits(v / 10);
        let d = decimal_digits(v / 10);
        let s = d.push(digit_char((v % 10) as int));
        assert(s.drop_last() =~= d);
        assert(s.last() == c);
        assert(decimal_value(s) == decimal_value(d) * 10 + v % 10);
        assert(v == (v / 10) * 10 + v % 10) by (nonlinear_arith);
        assert forall|i: int| 0 <= i < s.len() implies is_digit(#[trigger] s[i]) by {
            if i < d.len() {
                assert(s[i] == d[i]);
            }
        }
    }
}

/// A capture file name, read back, gives the time of day, monitor and away
/// flag it was made from.
pub proof fn lemma_capture_name_round_trip(hour: nat, minute: nat, second: nat, screen: u64, afk: bool)
    requires
        hour < 24,
        minute < 60,
        second <= 60,
    ensures
        capture_name(capture_file_name_spec(hour, minute, second, screen as nat, afk)) == Some(
            (time_of_day_text(hour, minute, second), screen, afk),
        ),
{
    let hms = time_of_day_text(hour, minute, second);
    let digits = decimal_digits(screen as nat);
    let suffix = if afk { afk_png_suffix() } else { png_suffix() };
    let s = capture_file_name_spec(hour, minute, second, screen as nat, afk);
    lemma_decimal_digits(screen as nat);
    assert(hms.len() == 8);
    assert(s =~= hms + screen_marker() + digits + suffix);
    assert(forall|i: int| 0 <= i < 8 ==> s[i] == hms[i]);
    assert(forall|i: int| 0 <= i < 8 ==> hms[i] != '_');
    assert(occurs_at(s, screen_marker(), 8)) by {
        assert(s.subrange(8, 16) =~= screen_marker());
    }
    assert forall|q: int| 0 <= q < 8 implies !occurs_at(s, screen_marker(), q) by {
        if occurs_at(s, screen_marker(), q) {
            assert(s.subrange(q, q + 8)[0] == s[q]);
        }
    }
    assert(first_marker_at(s, 8));
    assert forall|p: int| first_marker_at(s, p) implies p == 8 by {
        if p < 8 {
            assert(!occurs_at(s, screen_marker(), p));
        }
        if p > 8 {
            assert(!occurs_at(s, screen_marker(), 8));
        }
    }
    let rest = s.subrange(16, s.len() as int);
    assert(rest =~= digits + suffix);
    let n = rest.len() as int;
    if afk {
        assert(rest.subrange(n - 8, n) =~= afk_png_suffix());
        assert(rest.take(n - 8) =~= digits);
    } else {
        if n >= 8 {
            assert(rest.subrange(n - 8, n)[0] == rest[n - 8]);
            assert(rest[n - 8] == digits[n - 8]);
            assert(is_digit(digits[n - 8]));
            assert(rest.subrange(n - 8, n) != afk_png_suffix());
        }
        assert(rest.subrange(n - 4, n) =~= png_suffix());
        assert(rest.take(n - 4) =~= digits);
    }
    assert(s.take(8) =~= hms);
}

} // verus!

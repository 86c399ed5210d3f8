//! Timestamps and identifiers made from the system clock.
use vstd::prelude::*;
use crate::messages::{decimal, decimal_string};

verus! {

broadcast use vstd::string::group_string_axioms;

/// Relies on `SystemTime::elapsed` on `UNIX_EPOCH`: the time since the
/// epoch by the system clock, zero when the clock reads earlier.
#[verifier::external_body]
fn since_unix_epoch() -> (r: core::time::Duration) {
    std::time::UNIX_EPOCH.elapsed().unwrap_or_default()
}

/// Relies on `Duration::as_secs`: the whole seconds.
pub assume_specification[ core::time::Duration::as_secs ](d: &core::time::Duration) -> (r: u64);

/// Relies on `Duration::subsec_millis`: the milliseconds past the whole second.
pub assume_specification[ core::time::Duration::subsec_millis ](d: &core::time::Duration) -> (r: u32)
    ensures
        r < 1000,
;

/// Relies on `Duration::subsec_nanos`: the nanoseconds past the whole second.
pub assume_specification[ core::time::Duration::subsec_nanos ](d: &core::time::Duration) -> (r: u32)
    ensures
        r < 1_000_000_000,
;

/// `n` in decimal, with leading zeros up to `width` digits.
pub open spec fn padded(n: nat, width: nat) -> Seq<char> {
    let d = decimal(n);
    if d.len() < width {
        Seq::new((width - d.len()) as nat, |_i: int| '0') + d
    } else {
        d
    }
}

/// The lower-case hexadecimal digit for `d`.
pub open spec fn hex_char(d: nat) -> char {
    if d < 10 {
        crate::messages::digit_char(d)
    } else if d == 10 { 'a' } else if d == 11 { 'b' } else if d == 12 { 'c' } else if d == 13 { 'd' }
    else if d == 14 { 'e' } else { 'f' }
}

/// `n` in lower-case hexadecimal, without leading zeros.
pub open spec fn hex(n: nat) -> Seq<char>
    decreases n,
{
    if n < 16 {
        seq![hex_char(n)]
    } else {
        hex(n / 16).push(hex_char(n % 16))
    }
}

/// `n` in hexadecimal, with leading zeros up to `width` digits.
pub open spec fn hex_padded(n: nat, width: nat) -> Seq<char> {
    let d = hex(n);
    if d.len() < width {
        Seq::new((width - d.len()) as nat, |_i: int| '0') + d
    } else {
        d
    }
}

fn zeros(k: usize) -> (r: String)
    ensures
        r@ == Seq::new(k as nat, |_i: int| '0'),
{
    proof {
        reveal_strlit("0");
    }
    let mut s = String::new();
    let mut i: usize = 0;
    while i < k
        invariant
            i <= k,
            s@ == Seq::new(i as nat, |_i: int| '0'),
        decreases k - i,
    {
        proof {
            reveal_strlit("0");
        }
        s.append("0");
        assert(s@ =~= Seq::new((i + 1) as nat, |_i: int| '0'));
        i = i + 1;
    }
    s
}

/// Writes `n` in decimal with leading zeros up to `width` digits.
pub fn padded_string(n: u64, width: usize) -> (r: String)
    ensures
        r@ == padded(n as nat, width as nat),
{
    let d = decimal_string(n);
    let len = d.as_str().unicode_len();
    if len < width {
        let mut s = zeros(width - len);
        s.append(d.as_str());
        s
    } else {
        d
    }
}

fn hex_digit(d: u64) -> (r: &'static str)
    requires
        d < 16,
    ensures
        r@ == seq![hex_char(d as nat)],
{
    proof {
        reveal_strlit("0");
        reveal_strlit("1");
        reveal_strlit("2");
        reveal_strlit("3");
        reveal_strlit("4");
        reveal_strlit("5");
        reveal_strlit("6");
        reveal_strlit("7");
        reveal_strlit("8");
        reveal_strlit("9");
        reveal_strlit("a");
        reveal_strlit("b");
        reveal_strlit("c");
        reveal_strlit("d");
        reveal_strlit("e");
        reveal_strlit("f");
    }
    if d == 0 { "0" } else if d == 1 { "1" } else if d == 2 { "2" } else if d == 3 { "3" }
    else if d == 4 { "4" } else if d == 5 { "5" } else if d == 6 { "6" } else if d == 7 { "7" }
    else if d == 8 { "8" } else if d == 9 { "9" } else if d == 10 { "a" } else if d == 11 { "b" }
    else if d == 12 { "c" } else if d == 13 { "d" } else if d == 14 { "e" } else { "f" }
}

/// Writes `n` in lower-case hexadecimal.
pub fn hex_string(n: u64) -> (r: String)
    ensures
        r@ == hex(n as nat),
    decreases n,
{
    if n < 16 {
        String::from_str(hex_digit(n))
    } else {
        let mut s = hex_string(n / 16);
        s.append(hex_digit(n % 16));
        s
    }
}

/// Writes `n` in hexadecimal with leading zeros up to `width` digits.
pub fn hex_padded_string(n: u64, width: usize) -> (r: String)
    ensures
        r@ == hex_padded(n as nat, width as nat),
{
    let d = hex_string(n);
    let len = d.as_str().unicode_len();
    if len < width {
        let mut s = zeros(width - len);
        s.append(d.as_str());
        s
    } else {
        d
    }
}

/// Whether `y` is a leap year of the Gregorian calendar.
pub open spec fn is_leap(y: int) -> bool {
    (y % 4 == 0 && y % 100 != 0) || y % 400 == 0
}

/// The days of year `y`.
pub open spec fn year_days(y: int) -> int {
    if is_leap(y) {
        366
    } else {
        365
    }
}

/// The days of month `m` (1 to 12) of year `y`.
pub open spec fn month_days(y: int, m: int) -> int {
    if m == 2 {
        if is_leap(y) {
            29
        } else {
            28
        }
    } else if m == 4 || m == 6 || m == 9 || m == 11 {
        30
    } else {
        31
    }
}

/// The year and day of year that `d` days after 1 January of `y` fall on.
pub open spec fn year_from(y: int, d: int) -> (int, int)
    decreases d,
{
    if d < year_days(y) || d < 0 {
        (y, d)
    } else {
        year_from(y + 1, d - year_days(y))
    }
}

/// The month and day of month (from 0) that day `d` of year `y` falls on,
/// counting from month `m`.
pub open spec fn month_from(y: int, m: int, d: int) -> (int, int)
    decreases 12 - m,
{
    if m >= 12 || d < month_days(y, m) {
        (m, d)
    } else {
        month_from(y, m + 1, d - month_days(y, m))
    }
}

/// The date (year, month, day) that lies `days` days after 1 January 1970.
pub open spec fn civil_date(days: int) -> (int, int, int) {
    let (y, doy) = year_from(1970, days);
    let (m, d) = month_from(y, 1, doy);
    (y, m, d + 1)
}

/// The days from 1 January of year 1 to 1 January of year `y`.
spec fn days_before(y: int) -> int {
    365 * (y - 1) + (y - 1) / 4 - (y - 1) / 100 + (y - 1) / 400
}

proof fn lemma_days_before_step(y: int)
    requires
        y >= 1,
    ensures
        days_before(y + 1) == days_before(y) + year_days(y),
{
    assert(y / 4 - (y - 1) / 4 == if y % 4 == 0 { 1int } else { 0int });
    assert(y / 100 - (y - 1) / 100 == if y % 100 == 0 { 1int } else { 0int });
    assert(y / 400 - (y - 1) / 400 == if y % 400 == 0 { 1int } else { 0int });
}

proof fn lemma_days_before_mono(a: int, b: int)
    requires
        1 <= a <= b,
    ensures
        days_before(a) <= days_before(b),
    decreases b - a,
{
    if a < b {
        lemma_days_before_mono(a, b - 1);
        lemma_days_before_step(b - 1);
    }
}

/// Counting years from `y0` finds the year `y` whose first day is at or
/// before the day and whose next year's first day is after it.
proof fn lemma_year_from(y0: int, y: int, day: int)
    requires
        1 <= y0 <= y,
        days_before(y) <= day < days_before(y + 1),
    ensures
        year_from(y0, day - days_before(y0)) == (y, day - days_before(y)),
    decreases y - y0,
{
    lemma_days_before_step(y0);
    lemma_days_before_step(y);
    if y0 < y {
        lemma_days_before_mono(y0 + 1, y);
        lemma_year_from(y0 + 1, y, day);
    }
}

/// The first day of 1970, counted from 1 January of year 1.
const EPOCH_DAY: u64 = 719162;

fn days_before_exec(y: u64) -> (r: u64)
    requires
        1 <= y <= 1_000_000_000_000,
    ensures
        r == days_before(y as int),
{
    let n = y - 1;
    assert(n / 100 <= n / 4);
    365 * n + n / 4 - n / 100 + n / 400
}

/// The year and day of year of a day counted from 1 January 1970.
fn year_of_day(days: u64) -> (r: (u64, u64))
    requires
        days <= 300_000_000_000_000,
    ensures
        (r.0 as int, r.1 as int) == year_from(1970, days as int),
        r.1 < year_days(r.0 as int),
{
    let day = days + EPOCH_DAY;
    proof {
        assert(days_before(1970) == EPOCH_DAY);
    }
    let estimate: u64 = 1970 + days / 146097 * 400 + (days % 146097) / 366;
    let mut y: u64 = if estimate > 900_000_000_000 {
        900_000_000_000
    } else {
        estimate
    };
    while days_before_exec(y) > day
        invariant
            1970 <= y <= 900_000_000_000,
            day == days + EPOCH_DAY,
        decreases y,
    {
        proof {
            lemma_days_before_mono(1970, y as int);
        }
        if y == 1970 {
            assert(false);
        }
        y = y - 1;
    }
    while days_before_exec(y + 1) <= day
        invariant
            1970 <= y <= 900_000_000_000,
            days_before(y as int) <= day,
            day == days + EPOCH_DAY,
            days <= 300_000_000_000_000,
        decreases day - days_before(y as int),
    {
        proof {
            lemma_days_before_step(y as int + 1);
            lemma_days_before_step(y as int);
            assert(days_before(y as int + 1) >= 365 * y);
        }
        y = y + 1;
    }
    proof {
        lemma_year_from(1970, y as int, day as int);
        lemma_days_before_step(y as int);
    }
    (y, day - days_before_exec(y))
}

fn is_leap_exec(y: u64) -> (r: bool)
    ensures
        r == is_leap(y as int),
{
    (y % 4 == 0 && y % 100 != 0) || y % 400 == 0
}

fn month_days_exec(y: u64, m: u64) -> (r: u64)
    ensures
        r == month_days(y as int, m as int),
{
    if m == 2 {
        if is_leap_exec(y) {
            29
        } else {
            28
        }
    } else if m == 4 || m == 6 || m == 9 || m == 11 {
        30
    } else {
        31
    }
}

/// The date (year, month, day) that lies `days` days after 1 January 1970.
pub fn civil_from_days(days: u64) -> (r: (u64, u64, u64))
    requires
        days <= 300_000_000_000_000,
    ensures
        (r.0 as int, r.1 as int, r.2 as int) == civil_date(days as int),
{
    let (y, doy) = year_of_day(days);
    let mut m: u64 = 1;
    let mut d: u64 = doy;
    while m < 12 && d >= month_days_exec(y, m)
        invariant
            1 <= m <= 12,
            month_from(y as int, m as int, d as int) == month_from(y as int, 1, doy as int),
            d <= doy,
            doy < 367,
        decreases 12 - m,
    {
        d = d - month_days_exec(y, m);
        m = m + 1;
    }
    (y, m, d + 1)
}

/// The ISO 8601 UTC text (`YYYY-MM-DDTHH:MM:SS.mmmZ`) of a time given as
/// seconds and milliseconds since the Unix epoch.
pub open spec fn timestamp_text(secs: u64, millis: u32) -> Seq<char> {
    let (y, m, d) = civil_date((secs / 86400) as int);
    let t = secs % 86400;
    padded(y as nat, 4) + "-"@ + padded(m as nat, 2) + "-"@ + padded(d as nat, 2) + "T"@
        + padded((t / 3600) as nat, 2) + ":"@ + padded(((t / 60) % 60) as nat, 2) + ":"@
        + padded((t % 60) as nat, 2) + "."@ + padded(millis as nat, 3) + "Z"@
}

/// Writes the timestamp text for a time since the epoch.
pub fn format_timestamp(secs: u64, millis: u32) -> (r: String)
    ensures
        r@ == timestamp_text(secs, millis),
{
    proof {
        reveal_strlit("-");
        reveal_strlit("T");
        reveal_strlit(":");
        reveal_strlit(".");
        reveal_strlit("Z");
    }
    let (y, m, d) = civil_from_days(secs / 86400);
    let t = secs % 86400;
    let mut s = padded_string(y, 4);
    s.append("-");
    let ms_ = padded_string(m, 2);
    s.append(ms_.as_str());
    s.append("-");
    let ds = padded_string(d, 2);
    s.append(ds.as_str());
    s.append("T");
    let h = padded_string(t / 3600, 2);
    s.append(h.as_str());
    s.append(":");
    let mi = padded_string((t / 60) % 60, 2);
    s.append(mi.as_str());
    s.append(":");
    let se = padded_string(t % 60, 2);
    s.append(se.as_str());
    s.append(".");
    let ms = padded_string(millis as u64, 3);
    s.append(ms.as_str());
    s.append("Z");
    s
}

/// The current time as timestamp text (see `timestamp_text`).
pub fn current_timestamp() -> (r: String)
    ensures
        exists|secs: u64, millis: u32| millis < 1000 && r@ == timestamp_text(secs, millis),
{
    let t = since_unix_epoch();
    let secs = t.as_secs();
    let millis = t.subsec_millis();
    format_timestamp(secs, millis)
}

/// The identifier text made from a time since the epoch, in the shape of a UUID.
pub open spec fn uuid_text(secs: u64, nanos: u32) -> Seq<char> {
    hex_padded((secs % 0x1_0000_0000) as nat, 8) + "-"@ + hex_padded(((secs / 0x1_0000_0000) % 0x10000) as nat, 4)
        + "-"@ + hex_padded(((nanos / 0x10000) % 0x10000) as nat, 4) + "-"@ + hex_padded((nanos % 0x10000) as nat, 4)
        + "-"@ + hex_padded(((secs ^ (nanos as u64)) & 0xFFFF_FFFF_FFFF) as nat, 12)
}

/// Writes the identifier text for a time since the epoch.
pub fn format_uuid(secs: u64, nanos: u32) -> (r: String)
    ensures
        r@ == uuid_text(secs, nanos),
{
    proof {
        reveal_strlit("-");
    }
    let mut s = hex_padded_string(secs % 0x1_0000_0000, 8);
    s.append("-");
    let b = hex_padded_string((secs / 0x1_0000_0000) % 0x10000, 4);
    s.append(b.as_str());
    s.append("-");
    let c = hex_padded_string(((nanos / 0x10000) % 0x10000) as u64, 4);
    s.append(c.as_str());
    s.append("-");
    let d = hex_padded_string((nanos % 0x10000) as u64, 4);
    s.append(d.as_str());
    s.append("-");
    let e = hex_padded_string((secs ^ (nanos as u64)) & 0xFFFF_FFFF_FFFF, 12);
    s.append(e.as_str());
    s
}

/// An identifier made from the current time (not random; see `uuid_text`).
pub fn generate_uuid() -> (r: String)
    ensures
        exists|secs: u64, nanos: u32| nanos < 1_000_000_000 && r@ == uuid_text(secs, nanos),
{
    let t = since_unix_epoch();
    let secs = t.as_secs();
    let nanos = t.subsec_nanos();
    format_uuid(secs, nanos)
}

} // verus!

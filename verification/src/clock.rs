//! Points in time: UNIX nanoseconds written as the wall clock of a time zone.

use chrono::{DateTime, Datelike, Offset, Timelike, Utc};
use chrono_tz::Tz;
use vstd::prelude::*;

use crate::text::digit;

verus! {

/// `chrono_tz::Tz`: a time zone of the IANA database.
#[verifier::external_type_specification]
#[verifier::external_body]
pub struct ExTz(Tz);

/// The IANA name of a time zone. No two zones have the same name.
pub uninterp spec fn zone_name(tz: Tz) -> Seq<char>;

/// A character of which the names of zones are made: a letter, a digit or one of four signs.
pub open spec fn is_zone_char(c: char) -> bool {
    ||| 'A' <= c <= 'Z'
    ||| 'a' <= c <= 'z'
    ||| '0' <= c <= '9'
    ||| c == '/'
    ||| c == '_'
    ||| c == '-'
    ||| c == '+'
}

/// The text could be the name of a zone, by its characters.
pub open spec fn is_zone_text(text: Seq<char>) -> bool {
    forall|i: int| 0 <= i < text.len() ==> is_zone_char(#[trigger] text[i])
}

/// `chrono_tz::Tz::name`: the IANA name of the zone. The names in its table are made of letters,
/// digits and the signs `/`, `_`, `-` and `+`.
#[verifier::external_body]
pub(crate) fn name_of(tz: Tz) -> (r: String)
    ensures
        r@ == zone_name(tz),
        is_zone_text(r@),
{
    tz.name().to_owned()
}

/// Whether `chrono_tz` has a time zone of this name.
pub uninterp spec fn known_zone(name: Seq<char>) -> bool;

/// Parsing a `chrono_tz::Tz` from its name: the zone with exactly that name, if there is one.
#[verifier::external_body]
pub(crate) fn zone_named(name: &str) -> (r: Option<Tz>)
    ensures
        r is Some <==> known_zone(name@),
        r matches Some(tz) ==> zone_name(tz) == name@,
{
    name.parse::<Tz>().ok()
}

/// `chrono_tz::Tz::UTC`, the zone named `UTC`.
#[verifier::external_body]
pub(crate) fn utc() -> (r: Tz)
    ensures
        zone_name(r) == "UTC"@,
{
    Tz::UTC
}

/// What the clocks of a zone show, and how many seconds they are ahead of UTC.
#[derive(Clone, Copy, Debug, PartialEq, Eq)]
pub struct WallClock {
    pub year: i32,
    pub month: u32,
    pub day: u32,
    pub hour: u32,
    pub minute: u32,
    pub second: u32,
    pub offset: i32,
}

/// The number of a day of the Gregorian calendar, counted from 1970-01-01. The year is taken to
/// begin in March, so that the leap day is its last one.
pub open spec fn day_number(year: int, month: int, day: int) -> int {
    let y = if month <= 2 {
        year - 1
    } else {
        year
    };
    let m = (month + 9) % 12;
    365 * y + y / 4 - y / 100 + y / 400 + (153 * m + 2) / 5 + day - 1 - 719468
}

/// The number of days of a month.
pub open spec fn days_in_month(year: int, month: int) -> int {
    if month == 2 {
        if year % 4 == 0 && (year % 100 != 0 || year % 400 == 0) {
            29
        } else {
            28
        }
    } else if month == 4 || month == 6 || month == 9 || month == 11 {
        30
    } else {
        31
    }
}

impl WallClock {
    /// The clock shows a date of the calendar and a time of day.
    pub open spec fn valid(self) -> bool {
        &&& 1 <= self.month <= 12
        &&& 1 <= self.day <= days_in_month(self.year as int, self.month as int)
        &&& self.hour < 24
        &&& self.minute < 60
        &&& self.second < 60
        &&& -86400 < self.offset < 86400
    }

    /// The UNIX time, in seconds, at which the clock shows this.
    pub open spec fn unix_seconds(self) -> int {
        86400 * day_number(self.year as int, self.month as int, self.day as int) + 3600 * self.hour
            + 60 * self.minute + self.second - self.offset
    }
}

/// What the clocks of the zone named `zone` show at a UNIX time.
pub uninterp spec fn wall_clock_at(zone: Seq<char>, seconds: int) -> WallClock;

/// `chrono`'s date and time of day in a zone of `chrono_tz`, read off a `DateTime` that was made
/// from a UNIX time. The offset comes from the time zone database; UTC has none. The date and
/// the time of day are those of the Gregorian calendar at the UNIX time plus the offset.
#[verifier::external_body]
fn wall_clock(seconds: i64, tz: Tz) -> (r: WallClock)
    requires
        0 <= seconds <= 18_446_744_073,
    ensures
        r == wall_clock_at(zone_name(tz), seconds as int),
        r.valid(),
        r.unix_seconds() == seconds,
        zone_name(tz) == "UTC"@ ==> r.offset == 0,
{
    let utc = DateTime::<Utc>::from_timestamp(seconds, 0).expect("in the range of the calendar");
    let local = utc.with_timezone(&tz);
    WallClock {
        year: local.year(),
        month: local.month(),
        day: local.day(),
        hour: local.hour(),
        minute: local.minute(),
        second: local.second(),
        offset: local.offset().fix().local_minus_utc(),
    }
}

/// The last `width` decimal digits of `n`, with zeros in front where there are fewer.
pub open spec fn padded(n: nat, width: nat) -> Seq<char>
    decreases width,
{
    if width == 0 {
        Seq::empty()
    } else {
        padded(n / 10, (width - 1) as nat).push(digit((n % 10) as int))
    }
}

/// A year as it is written: kept between 0 and 9999.
pub open spec fn written_year(year: int) -> nat {
    if year < 0 {
        0
    } else if year > 9999 {
        9999
    } else {
        year as nat
    }
}

/// An offset in whole minutes, without its sign.
pub open spec fn offset_minutes(offset: int) -> nat {
    (if offset < 0 {
        -offset / 60
    } else {
        offset / 60
    }) as nat
}

/// A point in time as it is stored: date, time of day with nanoseconds, and offset, such as
/// `2026-09-07 11:04:08.914293456+08:00`.
pub open spec fn stamp_text(clock: WallClock, nanos: nat) -> Seq<char> {
    let minutes = offset_minutes(clock.offset as int);
    padded(written_year(clock.year as int), 4) + seq!['-'] + padded(clock.month as nat, 2)
        + seq!['-'] + padded(clock.day as nat, 2) + seq![' '] + padded(clock.hour as nat, 2)
        + seq![':'] + padded(clock.minute as nat, 2) + seq![':'] + padded(clock.second as nat, 2)
        + seq!['.'] + padded(nanos, 9) + seq![
        if clock.offset < 0 {
            '-'
        } else {
            '+'
        },
    ] + padded(minutes / 60, 2) + seq![':'] + padded(minutes % 60, 2)
}

/// Appends the last `width` digits of `value`.
fn push_padded(out: &mut String, value: u32, width: u32)
    ensures
        final(out)@ == old(out)@ + padded(value as nat, width as nat),
    decreases width,
{
    if width > 0 {
        push_padded(out, value / 10, width - 1);
        let d: u8 = 48 + (value % 10) as u8;
        out.push(d as char);
    }
    assert(out@ =~= old(out)@ + padded(value as nat, width as nat));
}

/// A point in time in its written form, always 35 characters long.
pub struct Timestamp {
    text: String,
}

impl Timestamp {
    pub closed spec fn view(&self) -> Seq<char> {
        self.text@
    }

    #[verifier::type_invariant]
    spec fn has_fixed_width(self) -> bool {
        self.text@.len() == 35
    }

    /// The text.
    pub fn as_str(&self) -> (r: &str)
        ensures
            r@ == self@,
            r@.len() == 35,
    {
        proof {
            use_type_invariant(self);
        }
        self.text.as_str()
    }
}

proof fn lemma_padded_len(n: nat, width: nat)
    ensures
        padded(n, width).len() == width,
    decreases width,
{
    if width > 0 {
        lemma_padded_len(n / 10, (width - 1) as nat);
    }
}

/// Writes what a clock shows, with the given nanoseconds.
pub fn stamp(clock: &WallClock, nanos: u32) -> (r: Timestamp)
    ensures
        r@ == stamp_text(*clock, nanos as nat),
{
    let year: u32 = if clock.year < 0 {
        0
    } else if clock.year > 9999 {
        9999
    } else {
        clock.year as u32
    };
    let offset: i64 = clock.offset as i64;
    let minutes: u32 = if offset < 0 {
        ((0 - offset) / 60) as u32
    } else {
        (offset / 60) as u32
    };
    let mut text = String::new();
    push_padded(&mut text, year, 4);
    text.push('-');
    push_padded(&mut text, clock.month, 2);
    text.push('-');
    push_padded(&mut text, clock.day, 2);
    text.push(' ');
    push_padded(&mut text, clock.hour, 2);
    text.push(':');
    push_padded(&mut text, clock.minute, 2);
    text.push(':');
    push_padded(&mut text, clock.second, 2);
    text.push('.');
    push_padded(&mut text, nanos, 9);
    if offset < 0 {
        text.push('-');
    } else {
        text.push('+');
    }
    push_padded(&mut text, minutes / 60, 2);
    text.push(':');
    push_padded(&mut text, minutes % 60, 2);
    proof {
        lemma_padded_len(year as nat, 4);
        lemma_padded_len(clock.month as nat, 2);
        lemma_padded_len(clock.day as nat, 2);
        lemma_padded_len(clock.hour as nat, 2);
        lemma_padded_len(clock.minute as nat, 2);
        lemma_padded_len(clock.second as nat, 2);
        lemma_padded_len(nanos as nat, 9);
        lemma_padded_len((minutes / 60) as nat, 2);
        lemma_padded_len((minutes % 60) as nat, 2);
        assert(text@ =~= stamp_text(*clock, nanos as nat));
    }
    Timestamp { text }
}

/// The number that a run of decimal digits stands for.
pub open spec fn number_of(digits: Seq<char>) -> int
    decreases digits.len(),
{
    if digits.len() == 0 {
        0
    } else {
        10 * number_of(digits.drop_last()) + (digits.last() as int - 48)
    }
}

/// The UNIX time in nanoseconds that a written point in time stands for: its date and time of
/// day, less its offset.
pub open spec fn instant_of(text: Seq<char>) -> int {
    let days = day_number(
        number_of(text.subrange(0, 4)),
        number_of(text.subrange(5, 7)),
        number_of(text.subrange(8, 10)),
    );
    let time = 3600 * number_of(text.subrange(11, 13)) + 60 * number_of(text.subrange(14, 16))
        + number_of(text.subrange(17, 19));
    let ahead = 3600 * number_of(text.subrange(30, 32)) + 60 * number_of(text.subrange(33, 35));
    let offset = if text[29] == '-' {
        -ahead
    } else {
        ahead
    };
    (86400 * days + time - offset) * 1_000_000_000 + number_of(text.subrange(20, 29))
}

pub(crate) open spec fn power_of_ten(n: nat) -> nat
    decreases n,
{
    if n == 0 {
        1
    } else {
        10 * power_of_ten((n - 1) as nat)
    }
}

pub(crate) proof fn lemma_padded_value(n: nat, width: nat)
    requires
        n < power_of_ten(width),
    ensures
        padded(n, width).len() == width,
        number_of(padded(n, width)) == n,
    decreases width,
{
    if width > 0 {
        lemma_padded_value(n / 10, (width - 1) as nat);
        assert(padded(n, width).drop_last() =~= padded(n / 10, (width - 1) as nat));
    }
}

/// A written point in time stands for the instant at which the clock shows it: the offset that
/// it carries is all that is needed to tell, as long as the offset is a whole number of minutes.
pub proof fn lemma_stamp_keeps_the_instant(clock: WallClock, nanos: nat)
    requires
        clock.valid(),
        0 <= clock.year <= 9999,
        clock.offset as int % 60 == 0,
        nanos < 1_000_000_000,
    ensures
        stamp_text(clock, nanos).len() == 35,
        instant_of(stamp_text(clock, nanos)) == clock.unix_seconds() * 1_000_000_000 + nanos,
{
    let minutes = offset_minutes(clock.offset as int);
    assert(minutes < 1440 && minutes / 60 < 24 && minutes % 60 < 60);
    assert(power_of_ten(2) == 100 && power_of_ten(4) == 10_000 && power_of_ten(9)
        == 1_000_000_000) by {
        reveal_with_fuel(power_of_ten, 10);
    }
    lemma_padded_value(clock.year as nat, 4);
    lemma_padded_value(clock.month as nat, 2);
    lemma_padded_value(clock.day as nat, 2);
    lemma_padded_value(clock.hour as nat, 2);
    lemma_padded_value(clock.minute as nat, 2);
    lemma_padded_value(clock.second as nat, 2);
    lemma_padded_value(nanos, 9);
    lemma_padded_value(minutes / 60, 2);
    lemma_padded_value(minutes % 60, 2);
    let text = stamp_text(clock, nanos);
    assert(text.subrange(0, 4) =~= padded(clock.year as nat, 4));
    assert(text.subrange(5, 7) =~= padded(clock.month as nat, 2));
    assert(text.subrange(8, 10) =~= padded(clock.day as nat, 2));
    assert(text.subrange(11, 13) =~= padded(clock.hour as nat, 2));
    assert(text.subrange(14, 16) =~= padded(clock.minute as nat, 2));
    assert(text.subrange(17, 19) =~= padded(clock.second as nat, 2));
    assert(text.subrange(20, 29) =~= padded(nanos, 9));
    assert(text.subrange(30, 32) =~= padded(minutes / 60, 2));
    assert(text.subrange(33, 35) =~= padded(minutes % 60, 2));
    let ahead = 3600 * (minutes / 60) + 60 * (minutes % 60);
    assert(ahead == 60 * minutes);
    assert(60 * minutes == if clock.offset < 0 { -clock.offset } else { clock.offset as int });
}

/// The written form of a UNIX time in nanoseconds, by the clocks of the zone named `zone`.
pub open spec fn timestamp_text(nanos: u64, zone: Seq<char>) -> Seq<char> {
    stamp_text(
        wall_clock_at(zone, nanos as int / 1_000_000_000),
        (nanos as int % 1_000_000_000) as nat,
    )
}

/// Writes a UNIX time in nanoseconds by the clocks of `tz`, with the offset at that time. Where
/// the offset is a whole number of minutes, the text stands for exactly that instant, whatever
/// the zone.
pub fn format_timestamp(nanos: u64, tz: Tz) -> (r: Timestamp)
    ensures
        r@ == timestamp_text(nanos, zone_name(tz)),
        ({
            let clock = wall_clock_at(zone_name(tz), nanos as int / 1_000_000_000);
            &&& clock.valid()
            &&& clock.unix_seconds() == nanos as int / 1_000_000_000
            &&& clock.offset as int % 60 == 0 ==> instant_of(r@) == nanos
            &&& zone_name(tz) == "UTC"@ ==> clock.offset == 0
        }),
{
    let seconds: i64 = (nanos / 1_000_000_000) as i64;
    let sub: u32 = (nanos % 1_000_000_000) as u32;
    let clock = wall_clock(seconds, tz);
    proof {
        assert(0 <= clock.year <= 9999);
        if clock.offset as int % 60 == 0 {
            lemma_stamp_keeps_the_instant(clock, sub as nat);
        }
    }
    stamp(&clock, sub)
}

} // verus!

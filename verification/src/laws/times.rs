//! Points in time: what is read off them when they are written down.

use vstd::prelude::*;

use crate::clock::{
    days_in_month, lemma_padded_value, number_of, offset_minutes, padded, power_of_ten, stamp_text,
    timestamp_text, wall_clock_at, written_year, WallClock,
};

verus! {

/// The number that stands in a text from one place up to another.
pub open spec fn read(text: Seq<char>, from: int, to: int) -> int {
    number_of(text.subrange(from, to))
}

/// A written point in time has 35 characters. Year, between 0 and 9999, month, day, hour, minute,
/// second and the nine digits of the nanoseconds stand each in its place and are what the clock
/// shows; the sign of the offset is that of the clock, and its hours and minutes are the whole minutes of the clock's
/// offset. The signs between them are always the same.
pub proof fn lemma_a_stamp_shows_the_clock(clock: WallClock, nanos: nat)
    requires
        clock.valid(),
        nanos < 1_000_000_000,
    ensures
        ({
            let text = stamp_text(clock, nanos);
            let offset = clock.offset as int;
            let minutes = 60 * read(text, 30, 32) + read(text, 33, 35);
            &&& text.len() == 35
            &&& 0 <= clock.year <= 9999 ==> read(text, 0, 4) == clock.year
            &&& clock.year < 0 ==> read(text, 0, 4) == 0
            &&& clock.year > 9999 ==> read(text, 0, 4) == 9999
            &&& read(text, 5, 7) == clock.month
            &&& read(text, 8, 10) == clock.day
            &&& read(text, 11, 13) == clock.hour
            &&& read(text, 14, 16) == clock.minute
            &&& read(text, 17, 19) == clock.second
            &&& read(text, 20, 29) == nanos
            &&& offset < 0 ==> text[29] == '-' && 60 * minutes <= -offset < 60 * minutes + 60
            &&& offset >= 0 ==> text[29] == '+' && 60 * minutes <= offset < 60 * minutes + 60
            &&& read(text, 33, 35) < 60
            &&& text[4] == '-' && text[7] == '-' && text[10] == ' ' && text[13] == ':'
            &&& text[16] == ':' && text[19] == '.' && text[32] == ':'
        }),
{
    let minutes = offset_minutes(clock.offset as int);
    assert(minutes < 1440 && minutes / 60 < 24 && minutes % 60 < 60);
    assert(power_of_ten(2) == 100 && power_of_ten(4) == 10_000 && power_of_ten(9)
        == 1_000_000_000) by {
        reveal_with_fuel(power_of_ten, 10);
    }
    assert(days_in_month(clock.year as int, clock.month as int) <= 31);
    lemma_padded_value(written_year(clock.year as int), 4);
    lemma_padded_value(clock.month as nat, 2);
    lemma_padded_value(clock.day as nat, 2);
    lemma_padded_value(clock.hour as nat, 2);
    lemma_padded_value(clock.minute as nat, 2);
    lemma_padded_value(clock.second as nat, 2);
    lemma_padded_value(nanos, 9);
    lemma_padded_value(minutes / 60, 2);
    lemma_padded_value(minutes % 60, 2);
    let text = stamp_text(clock, nanos);
    assert(text.subrange(0, 4) =~= padded(written_year(clock.year as int), 4));
    assert(text.subrange(5, 7) =~= padded(clock.month as nat, 2));
    assert(text.subrange(8, 10) =~= padded(clock.day as nat, 2));
    assert(text.subrange(11, 13) =~= padded(clock.hour as nat, 2));
    assert(text.subrange(14, 16) =~= padded(clock.minute as nat, 2));
    assert(text.subrange(17, 19) =~= padded(clock.second as nat, 2));
    assert(text.subrange(20, 29) =~= padded(nanos, 9));
    assert(text.subrange(30, 32) =~= padded(minutes / 60, 2));
    assert(text.subrange(33, 35) =~= padded(minutes % 60, 2));
}

/// A UNIX time in nanoseconds is written as what the clocks of the zone show at its second, with
/// the nanoseconds beyond that: the two together are the time.
pub proof fn lemma_a_time_is_written_to_the_nanosecond(nanos: u64, zone: Seq<char>, seconds: int)
    requires
        seconds * 1_000_000_000 <= nanos < (seconds + 1) * 1_000_000_000,
        wall_clock_at(zone, seconds).valid(),
    ensures
        timestamp_text(nanos, zone) == stamp_text(
            wall_clock_at(zone, seconds),
            (nanos - seconds * 1_000_000_000) as nat,
        ),
        seconds * 1_000_000_000 + read(timestamp_text(nanos, zone), 20, 29) == nanos,
{
    assert(nanos as int / 1_000_000_000 == seconds);
    lemma_a_stamp_shows_the_clock(
        wall_clock_at(zone, seconds),
        (nanos - seconds * 1_000_000_000) as nat,
    );
}

} // verus!

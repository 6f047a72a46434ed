//! The real-time-clock calendar: the start time given to an unset RTC, the
//! calendar date and time of an RTC reading (computed by the `time` crate)
//! and the clock screen that shows them.

use vstd::prelude::*;

verus! {

use crate::oled::bus::{BusOp, Transfer, wire, lemma_wire_concat};
use crate::oled::display::{
    Glyph, show_num, text_transfers, in_font, number_chars_in_font,
};
use crate::numfmt::{number_chars, digit_char};
use crate::oled::controller::{Screen, apply_all, ready, shows, lemma_text_keeps, lemma_apply_all_concat};

/// Unix time of 2023-10-20 12:30:00 UTC, the time an unset RTC starts from.
pub const START_TIMESTAMP: u32 = 1_697_805_000;

/// The time to set the RTC to at start-up: the start time when the counter
/// reads 0 (never set), none otherwise.
pub fn initial_time(current_time: u32) -> (set_to: Option<u32>)
    ensures
        current_time == 0 ==> set_to == Some(START_TIMESTAMP),
        current_time != 0 ==> set_to is None,
{
    if current_time == 0 {
        Some(START_TIMESTAMP)
    } else {
        None
    }
}

/// A UTC calendar date and time of day.
pub struct DateTime {
    pub year: i32,
    pub month: u8,
    pub day: u8,
    pub hour: u8,
    pub minute: u8,
    pub second: u8,
}

/// The proleptic Gregorian calendar date `(year, month, day)` of a Unix
/// timestamp in UTC, as `time::OffsetDateTime::from_unix_timestamp`
/// computes it.
pub uninterp spec fn unix_date(timestamp: i64) -> (i32, u8, u8);

/// Earliest timestamp the `time` crate accepts: -9999-01-01 00:00:00 UTC.
pub const MIN_TIMESTAMP: i64 = -377_705_116_800;
/// Latest timestamp the `time` crate accepts: 9999-12-31 23:59:59 UTC.
pub const MAX_TIMESTAMP: i64 = 253_402_300_799;

/// Seconds since midnight of a timestamp.
pub open spec fn second_of_day(timestamp: int) -> int {
    timestamp % 86400
}

/// `time::OffsetDateTime::from_unix_timestamp`: accepts exactly the
/// timestamps from `MIN_TIMESTAMP` to `MAX_TIMESTAMP`; the date it gives is
/// named `unix_date` (month 1 to 12, day 1 to 31 as documented), and the
/// time of day is hour, minute and second of the seconds since midnight.
/// How the date is computed from the day number is not stated.
#[verifier::external_body]
fn from_unix_timestamp(timestamp: i64) -> (r: Option<DateTime>)
    ensures
        r is Some <==> MIN_TIMESTAMP <= timestamp <= MAX_TIMESTAMP,
        r matches Some(dt) ==> {
            &&& (dt.year, dt.month, dt.day) == unix_date(timestamp)
            &&& 1 <= dt.month <= 12
            &&& 1 <= dt.day <= 31
            &&& dt.hour == second_of_day(timestamp as int) / 3600
            &&& dt.minute == (second_of_day(timestamp as int) % 3600) / 60
            &&& dt.second == second_of_day(timestamp as int) % 60
        },
{
    match time::OffsetDateTime::from_unix_timestamp(timestamp) {
        Ok(d) => Some(
            DateTime {
                year: d.year(),
                month: d.month() as u8,
                day: d.day(),
                hour: d.hour(),
                minute: d.minute(),
                second: d.second(),
            },
        ),
        Err(_) => None,
    }
}

/// The calendar date and time of an RTC reading, in UTC. Every 32-bit
/// reading is a valid timestamp.
pub fn clock_reading(current_time: u32) -> (dt: DateTime)
    ensures
        (dt.year, dt.month, dt.day) == unix_date(current_time as i64),
        1 <= dt.month <= 12,
        1 <= dt.day <= 31,
        dt.hour == (current_time as int % 86400) / 3600,
        dt.minute == ((current_time as int % 86400) % 3600) / 60,
        dt.second == current_time as int % 60,
{
    let r = from_unix_timestamp(current_time as i64);
    match r {
        Some(dt) => {
            assert((current_time as int % 86400) % 60 == current_time as int % 60);
            dt
        },
        None => {
            assert(false);
            DateTime { year: 0, month: 1, day: 1, hour: 0, minute: 0, second: 0 }
        },
    }
}

/// The digits the clock screen shows: year (4), month, day, hour, minute,
/// second (2 each) and the raw counter (10), each at its place on the screen.
pub open spec fn clock_transfers(dt: DateTime, timestamp: u32, font: Seq<Glyph>) -> Seq<Transfer> {
    text_transfers(1, 6, number_chars(dt.year as u32 as nat, 10, 4), font) + text_transfers(
        1,
        11,
        number_chars(dt.month as nat, 10, 2),
        font,
    ) + text_transfers(1, 14, number_chars(dt.day as nat, 10, 2), font) + text_transfers(
        2,
        6,
        number_chars(dt.hour as nat, 10, 2),
        font,
    ) + text_transfers(2, 9, number_chars(dt.minute as nat, 10, 2), font) + text_transfers(
        2,
        12,
        number_chars(dt.second as nat, 10, 2),
        font,
    ) + text_transfers(3, 6, number_chars(timestamp as nat, 10, 10), font)
}

/// The font has glyphs for the ten decimal digits.
pub open spec fn digits_in_font(font: Seq<Glyph>) -> bool {
    forall|d: int| 0 <= d < 10 ==> #[trigger] in_font(font, digit_char(d))
}

/// Law (what the clock screen shows): on a screen where no command waits
/// for argument bytes, the clock's transfers leave each field of the
/// reading in its own place: on line 1 the four year digits at column 6,
/// the month at column 11 and the day at column 14; on line 2 the hour at
/// column 6, the minute at column 9 and the second at column 12 (two digits
/// each); on line 3 the ten digits of the raw counter at column 6. No field
/// draws over another.
pub proof fn lemma_clock_screen(s: Screen, dt: DateTime, timestamp: u32, font: Seq<Glyph>)
    requires
        ready(s),
        digits_in_font(font),
    ensures
        ready(apply_all(s, clock_transfers(dt, timestamp, font))),
        shows(
            apply_all(s, clock_transfers(dt, timestamp, font)),
            1,
            6,
            number_chars(dt.year as u32 as nat, 10, 4),
            font,
        ),
        shows(apply_all(s, clock_transfers(dt, timestamp, font)), 1, 11, number_chars(dt.month as nat, 10, 2), font),
        shows(apply_all(s, clock_transfers(dt, timestamp, font)), 1, 14, number_chars(dt.day as nat, 10, 2), font),
        shows(apply_all(s, clock_transfers(dt, timestamp, font)), 2, 6, number_chars(dt.hour as nat, 10, 2), font),
        shows(apply_all(s, clock_transfers(dt, timestamp, font)), 2, 9, number_chars(dt.minute as nat, 10, 2), font),
        shows(apply_all(s, clock_transfers(dt, timestamp, font)), 2, 12, number_chars(dt.second as nat, 10, 2), font),
        shows(apply_all(s, clock_transfers(dt, timestamp, font)), 3, 6, number_chars(timestamp as nat, 10, 10), font),
{
    let yy = number_chars(dt.year as u32 as nat, 10, 4);
    let mo = number_chars(dt.month as nat, 10, 2);
    let dd = number_chars(dt.day as nat, 10, 2);
    let hh = number_chars(dt.hour as nat, 10, 2);
    let mi = number_chars(dt.minute as nat, 10, 2);
    let ss = number_chars(dt.second as nat, 10, 2);
    let tt = number_chars(timestamp as nat, 10, 10);
    number_chars_in_font(dt.year as u32 as nat, 4, font);
    number_chars_in_font(dt.month as nat, 2, font);
    number_chars_in_font(dt.day as nat, 2, font);
    number_chars_in_font(dt.hour as nat, 2, font);
    number_chars_in_font(dt.minute as nat, 2, font);
    number_chars_in_font(dt.second as nat, 2, font);
    number_chars_in_font(timestamp as nat, 10, font);
    let t1 = text_transfers(1, 6, yy, font);
    let t2 = text_transfers(1, 11, mo, font);
    let t3 = text_transfers(1, 14, dd, font);
    let t4 = text_transfers(2, 6, hh, font);
    let t5 = text_transfers(2, 9, mi, font);
    let t6 = text_transfers(2, 12, ss, font);
    let t7 = text_transfers(3, 6, tt, font);
    assert(clock_transfers(dt, timestamp, font) == t1 + t2 + t3 + t4 + t5 + t6 + t7);
    assert(shows(s, 0, 0, Seq::<char>::empty(), font));
    lemma_text_keeps(s, 1, 6, yy, font, 0, 0, Seq::<char>::empty());
    let s1 = apply_all(s, t1);
    lemma_apply_all_concat(s, t1, t2);
    lemma_text_keeps(s1, 1, 11, mo, font, 1, 6, yy);
    let s2 = apply_all(s1, t2);
    lemma_apply_all_concat(s, t1 + t2, t3);
    lemma_text_keeps(s2, 1, 14, dd, font, 1, 6, yy);
    lemma_text_keeps(s2, 1, 14, dd, font, 1, 11, mo);
    let s3 = apply_all(s2, t3);
    lemma_apply_all_concat(s, t1 + t2 + t3, t4);
    lemma_text_keeps(s3, 2, 6, hh, font, 1, 6, yy);
    lemma_text_keeps(s3, 2, 6, hh, font, 1, 11, mo);
    lemma_text_keeps(s3, 2, 6, hh, font, 1, 14, dd);
    let s4 = apply_all(s3, t4);
    lemma_apply_all_concat(s, t1 + t2 + t3 + t4, t5);
    lemma_text_keeps(s4, 2, 9, mi, font, 1, 6, yy);
    lemma_text_keeps(s4, 2, 9, mi, font, 1, 11, mo);
    lemma_text_keeps(s4, 2, 9, mi, font, 1, 14, dd);
    lemma_text_keeps(s4, 2, 9, mi, font, 2, 6, hh);
    let s5 = apply_all(s4, t5);
    lemma_apply_all_concat(s, t1 + t2 + t3 + t4 + t5, t6);
    lemma_text_keeps(s5, 2, 12, ss, font, 1, 6, yy);
    lemma_text_keeps(s5, 2, 12, ss, font, 1, 11, mo);
    lemma_text_keeps(s5, 2, 12, ss, font, 1, 14, dd);
    lemma_text_keeps(s5, 2, 12, ss, font, 2, 6, hh);
    lemma_text_keeps(s5, 2, 12, ss, font, 2, 9, mi);
    let s6 = apply_all(s5, t6);
    lemma_apply_all_concat(s, t1 + t2 + t3 + t4 + t5 + t6, t7);
    lemma_text_keeps(s6, 3, 6, tt, font, 1, 6, yy);
    lemma_text_keeps(s6, 3, 6, tt, font, 1, 11, mo);
    lemma_text_keeps(s6, 3, 6, tt, font, 1, 14, dd);
    lemma_text_keeps(s6, 3, 6, tt, font, 2, 6, hh);
    lemma_text_keeps(s6, 3, 6, tt, font, 2, 9, mi);
    lemma_text_keeps(s6, 3, 6, tt, font, 2, 12, ss);
}

/// Draws the clock screen's changing fields: the date on line 1 after
/// "Date:", the time on line 2 after "Time:", the raw counter on line 3.
pub fn show_datetime(out: &mut Vec<BusOp>, dt: &DateTime, timestamp: u32, font: &[Glyph])
    requires
        digits_in_font(font@),
    ensures
        final(out)@ == old(out)@ + wire(clock_transfers(*dt, timestamp, font@)),
{
    let ghost o = out@;
    proof {
        number_chars_in_font(dt.year as u32 as nat, 4, font@);
        number_chars_in_font(dt.month as nat, 2, font@);
        number_chars_in_font(dt.day as nat, 2, font@);
        number_chars_in_font(dt.hour as nat, 2, font@);
        number_chars_in_font(dt.minute as nat, 2, font@);
        number_chars_in_font(dt.second as nat, 2, font@);
        number_chars_in_font(timestamp as nat, 10, font@);
    }
    show_num(out, 1, 6, dt.year as u32, 4, font);
    show_num(out, 1, 11, dt.month as u32, 2, font);
    show_num(out, 1, 14, dt.day as u32, 2, font);
    show_num(out, 2, 6, dt.hour as u32, 2, font);
    show_num(out, 2, 9, dt.minute as u32, 2, font);
    show_num(out, 2, 12, dt.second as u32, 2, font);
    show_num(out, 3, 6, timestamp, 10, font);
    proof {
        let t1 = text_transfers(1, 6, number_chars(dt.year as u32 as nat, 10, 4), font@);
        let t2 = text_transfers(1, 11, number_chars(dt.month as nat, 10, 2), font@);
        let t3 = text_transfers(1, 14, number_chars(dt.day as nat, 10, 2), font@);
        let t4 = text_transfers(2, 6, number_chars(dt.hour as nat, 10, 2), font@);
        let t5 = text_transfers(2, 9, number_chars(dt.minute as nat, 10, 2), font@);
        let t6 = text_transfers(2, 12, number_chars(dt.second as nat, 10, 2), font@);
        let t7 = text_transfers(3, 6, number_chars(timestamp as nat, 10, 10), font@);
        lemma_wire_concat(t1, t2);
        lemma_wire_concat(t1 + t2, t3);
        lemma_wire_concat(t1 + t2 + t3, t4);
        lemma_wire_concat(t1 + t2 + t3 + t4, t5);
        lemma_wire_concat(t1 + t2 + t3 + t4 + t5, t6);
        lemma_wire_concat(t1 + t2 + t3 + t4 + t5 + t6, t7);
        assert(out@ =~= o + wire(clock_transfers(*dt, timestamp, font@)));
    }
}

} // verus!

//! Small readers and writers of the fields of an image: padded strings,
//! dual-endian numbers and the two forms of dates, the latter as seconds
//! since the start of 1970.

use crate::bytes::{
    get_u16_le, get_u32_le, put_bytes, put_fill, put_u16_both, put_u32_both, put_u8, u16_both,
    u16_from_le, u32_both, u32_from_le,
};
use crate::parse::{is_digit, number2, IsoParseError};
use crate::serialize::{
    digits2, digits4, lemma_digits_len, lemma_written, put_digits2, put_digits4,
    IsoSerializeError,
};
use crate::spec::fit;
use vstd::prelude::*;
use vstd::string::StringSliceAdditionalSpecFns;

verus! {

/// The text that `String::from_utf8_lossy` makes of `bytes`: their
/// characters, with U+FFFD in place of what is no UTF-8.
pub uninterp spec fn utf8_lossy(bytes: Seq<u8>) -> Seq<char>;

/// `String::from_utf8_lossy`, owned: the text of `bytes`, which for valid
/// UTF-8 is the text that they encode.
#[verifier::external_body]
pub(crate) fn from_utf8_lossy(bytes: &[u8]) -> (s: String)
    ensures
        s@ == utf8_lossy(bytes@),
        vstd::utf8::valid_utf8(bytes@) ==> s@ == vstd::utf8::decode_utf8(bytes@),
{
    String::from_utf8_lossy(bytes).into_owned()
}

/// The text that `String::from_utf16_lossy` makes of `units`: their
/// characters, a surrogate pair for one, with U+FFFD in place of a surrogate
/// that stands alone.
pub uninterp spec fn utf16_lossy(units: Seq<u16>) -> Seq<char>;

/// `String::from_utf16_lossy`: the text of `units`.
#[verifier::external_body]
pub(crate) fn from_utf16_lossy(units: &[u16]) -> (s: String)
    ensures
        s@ == utf16_lossy(units@),
{
    String::from_utf16_lossy(units)
}

/// Where the string in `buffer` ends: after its last byte that is neither a
/// zero byte nor a space. What stands before is kept, spaces within it too.
pub open spec fn string_end(buffer: Seq<u8>) -> int
    decreases buffer.len(),
{
    if buffer.len() == 0 {
        0
    } else if buffer.last() == 0 || buffer.last() == 0x20 {
        string_end(buffer.drop_last())
    } else {
        buffer.len() as int
    }
}

/// After the end of a string stand only zero bytes and spaces, and before
/// it, where the string is not empty, a byte that is neither.
pub proof fn lemma_string_end(buffer: Seq<u8>)
    ensures
        0 <= string_end(buffer) <= buffer.len(),
        forall|i: int|
            string_end(buffer) <= i < buffer.len() ==> (#[trigger] buffer[i]) == 0 || buffer[i]
                == 0x20,
        string_end(buffer) > 0 ==> buffer[string_end(buffer) - 1] != 0 && buffer[string_end(
            buffer,
        ) - 1] != 0x20,
    decreases buffer.len(),
{
    if buffer.len() > 0 {
        let init = buffer.drop_last();
        lemma_string_end(init);
        assert(forall|i: int| 0 <= i < init.len() ==> init[i] == buffer[i]);
    }
}

/// Finds where the string in `buffer` ends.
pub fn find_string_end(buffer: &[u8]) -> (end: usize)
    ensures
        end == string_end(buffer@),
        end <= buffer@.len(),
{
    let mut end: usize = buffer.len();
    assert(buffer@.subrange(0, end as int) =~= buffer@);
    while end > 0 && (buffer[end - 1] == 0 || buffer[end - 1] == 0x20)
        invariant
            end <= buffer@.len(),
            string_end(buffer@) == string_end(buffer@.subrange(0, end as int)),
        decreases end,
    {
        proof {
            let part = buffer@.subrange(0, end as int);
            assert(part.last() == buffer@[end - 1]);
            assert(part.drop_last() =~= buffer@.subrange(0, end - 1));
        }
        end -= 1;
    }
    proof {
        let part = buffer@.subrange(0, end as int);
        if end > 0 {
            assert(part.last() == buffer@[end - 1]);
        }
    }
    end
}

/// The string in `buffer`: the text of its bytes without the zero bytes and
/// spaces at its end.
pub fn parse_iso_string(buffer: &[u8]) -> (s: String)
    ensures
        s@ == utf8_lossy(buffer@.subrange(0, string_end(buffer@))),
        vstd::utf8::valid_utf8(buffer@.subrange(0, string_end(buffer@))) ==> s@
            == vstd::utf8::decode_utf8(buffer@.subrange(0, string_end(buffer@))),
{
    let end = find_string_end(buffer);
    from_utf8_lossy(vstd::slice::slice_subrange(buffer, 0, end))
}

/// Fills `buffer` with the bytes of `s`, cut where it is too long and padded
/// with spaces where it is too short.
pub fn write_iso_string(buffer: &mut [u8], s: &str)
    ensures
        final(buffer)@ == fit(s.spec_bytes(), old(buffer)@.len(), 0x20),
{
    let bytes = s.as_bytes();
    let total = buffer.len();
    let len = if bytes.len() < total {
        bytes.len()
    } else {
        total
    };
    let _ = put_fill(buffer, 0, total, 0x20);
    let ghost filled = buffer@;
    assert(forall|i: int| 0 <= i < total ==> filled[i] == 0x20) by {
        assert(filled.subrange(0, total as int) =~= filled);
    }
    let _ = put_bytes(buffer, 0, vstd::slice::slice_subrange(bytes, 0, len));
    proof {
        let want = fit(s.spec_bytes(), total as nat, 0x20);
        assert forall|i: int| 0 <= i < total implies buffer@[i] == want[i] by {
            if i < len {
                assert(buffer@[i] == buffer@.subrange(0, len as int)[i]);
            }
        }
        assert(buffer@ =~= want);
    }
}

/// The number in a dual-endian field of 16 bits: its little-endian half.
/// A buffer under four bytes holds none and is refused.
pub fn parse_u16_both(buffer: &[u8]) -> (r: Result<u16, IsoParseError>)
    ensures
        r == (if buffer@.len() < 4 {
            Err::<u16, IsoParseError>(
                IsoParseError::InputTooSmall {
                    expected: 4,
                    got: buffer@.len() as usize,
                    when: "u16_both",
                },
            )
        } else {
            Ok::<u16, IsoParseError>(u16_from_le(buffer@.subrange(0, 2)))
        }),
{
    if buffer.len() < 4 {
        return Err(IsoParseError::InputTooSmall { expected: 4, got: buffer.len(), when: "u16_both" });
    }
    Ok(get_u16_le(buffer, 0))
}

/// Writes `value` as a dual-endian field at the front of `buffer`. A buffer
/// under four bytes is refused and left as it is.
pub fn write_u16_both(buffer: &mut [u8], value: u16) -> (r: Result<(), IsoSerializeError>)
    ensures
        final(buffer)@ == (if old(buffer)@.len() < 4 {
            old(buffer)@
        } else {
            u16_both(value) + old(buffer)@.skip(4)
        }),
        r == (if old(buffer)@.len() < 4 {
            Err::<(), IsoSerializeError>(
                IsoSerializeError::InputTooSmall {
                    expected: 4,
                    got: old(buffer)@.len() as usize,
                    when: "u16_both",
                },
            )
        } else {
            Ok::<(), IsoSerializeError>(())
        }),
{
    if buffer.len() < 4 {
        return Err(
            IsoSerializeError::InputTooSmall { expected: 4, got: buffer.len(), when: "u16_both" },
        );
    }
    let _ = put_u16_both(buffer, 0, value);
    proof {
        lemma_written(old(buffer)@, buffer@, u16_both(value));
    }
    Ok(())
}

/// The number in a dual-endian field of 32 bits: its little-endian half.
/// A buffer under eight bytes holds none and is refused.
pub fn parse_u32_both(buffer: &[u8]) -> (r: Result<u32, IsoParseError>)
    ensures
        r == (if buffer@.len() < 8 {
            Err::<u32, IsoParseError>(
                IsoParseError::InputTooSmall {
                    expected: 8,
                    got: buffer@.len() as usize,
                    when: "u32_both",
                },
            )
        } else {
            Ok::<u32, IsoParseError>(u32_from_le(buffer@.subrange(0, 4)))
        }),
{
    if buffer.len() < 8 {
        return Err(IsoParseError::InputTooSmall { expected: 8, got: buffer.len(), when: "u32_both" });
    }
    Ok(get_u32_le(buffer, 0))
}

/// Writes `value` as a dual-endian field at the front of `buffer`. A buffer
/// under eight bytes is refused and left as it is.
pub fn write_u32_both(buffer: &mut [u8], value: u32) -> (r: Result<(), IsoSerializeError>)
    ensures
        final(buffer)@ == (if old(buffer)@.len() < 8 {
            old(buffer)@
        } else {
            u32_both(value) + old(buffer)@.skip(8)
        }),
        r == (if old(buffer)@.len() < 8 {
            Err::<(), IsoSerializeError>(
                IsoSerializeError::InputTooSmall {
                    expected: 8,
                    got: old(buffer)@.len() as usize,
                    when: "u32_both",
                },
            )
        } else {
            Ok::<(), IsoSerializeError>(())
        }),
{
    if buffer.len() < 8 {
        return Err(
            IsoSerializeError::InputTooSmall { expected: 8, got: buffer.len(), when: "u32_both" },
        );
    }
    let _ = put_u32_both(buffer, 0, value);
    proof {
        lemma_written(old(buffer)@, buffer@, u32_both(value));
    }
    Ok(())
}

/// Whether `year` is a leap year of the Gregorian calendar.
pub open spec fn spec_is_leap_year(year: int) -> bool {
    (year % 4 == 0 && year % 100 != 0) || year % 400 == 0
}

pub fn is_leap_year(year: u32) -> (r: bool)
    ensures
        r == spec_is_leap_year(year as int),
{
    (year % 4 == 0 && year % 100 != 0) || (year % 400 == 0)
}

/// How many days of `year` lie before the first of `month`; a month that is
/// none counts as January.
pub open spec fn spec_days_in_month(year: int, month: int) -> int {
    let before = if month == 2 {
        31int
    } else if month == 3 {
        59
    } else if month == 4 {
        90
    } else if month == 5 {
        120
    } else if month == 6 {
        151
    } else if month == 7 {
        181
    } else if month == 8 {
        212
    } else if month == 9 {
        243
    } else if month == 10 {
        273
    } else if month == 11 {
        304
    } else if month == 12 {
        334
    } else {
        0
    };
    if month > 2 && spec_is_leap_year(year) {
        before + 1
    } else {
        before
    }
}

pub fn days_in_month(year: u32, month: u32) -> (r: u32)
    ensures
        r == spec_days_in_month(year as int, month as int),
{
    let before: u32 = if month == 2 {
        31
    } else if month == 3 {
        59
    } else if month == 4 {
        90
    } else if month == 5 {
        120
    } else if month == 6 {
        151
    } else if month == 7 {
        181
    } else if month == 8 {
        212
    } else if month == 9 {
        243
    } else if month == 10 {
        273
    } else if month == 11 {
        304
    } else if month == 12 {
        334
    } else {
        0
    };
    if month > 2 && is_leap_year(year) {
        before + 1
    } else {
        before
    }
}

/// How many days the month `month` of a year has.
pub open spec fn month_length(month: int, is_leap: bool) -> int {
    if month == 2 {
        if is_leap {
            29
        } else {
            28
        }
    } else if month == 4 || month == 6 || month == 9 || month == 11 {
        30
    } else {
        31
    }
}

/// The month and the day of the month of the day `days` of a year, counted
/// from zero, looked for from the month `month` on; past the end of the year
/// it is the 31st of December.
pub open spec fn month_day_from(days: int, is_leap: bool, month: int) -> (int, int)
    decreases 13 - month,
{
    if month > 12 || month < 1 {
        (12, 31)
    } else if days < month_length(month, is_leap) {
        (month, days + 1)
    } else {
        month_day_from(days - month_length(month, is_leap), is_leap, month + 1)
    }
}

/// The month and the day of the month of the day `days` of a year, counted
/// from zero; past the end of the year it is the 31st of December.
pub fn estimate_month_day(days_since_start_of_year: u32, is_leap: bool) -> (r: (u32, u32))
    ensures
        (r.0 as int, r.1 as int) == month_day_from(days_since_start_of_year as int, is_leap, 1),
        1 <= r.0 <= 12,
        1 <= r.1 <= 31,
{
    let mut remaining = days_since_start_of_year;
    let mut month: u32 = 1;
    while month <= 12
        invariant
            1 <= month <= 13,
            month_day_from(days_since_start_of_year as int, is_leap, 1) == month_day_from(
                remaining as int,
                is_leap,
                month as int,
            ),
        decreases 13 - month,
    {
        let days: u32 = if month == 2 {
            if is_leap {
                29
            } else {
                28
            }
        } else if month == 4 || month == 6 || month == 9 || month == 11 {
            30
        } else {
            31
        };
        if remaining < days {
            return (month, remaining + 1);
        }
        remaining = remaining - days;
        month = month + 1;
    }
    (12, 31)
}

/// The seconds from the start of 1970 to a moment of the calendar, counted
/// as this library counts them: every year 365 days and a leap day for every
/// fourth year from 1972 on, and the days before a month by the table of
/// `spec_days_in_month`. Up to the end of 2099 that is the calendar. A moment
/// before 1970 has none.
pub open spec fn seconds_of(year: int, month: int, day: int, hour: int, minute: int, second: int) -> Option<
    int,
> {
    if year < 1970 {
        None
    } else {
        let days = (year - 1970) * 365 + (year - 1969) / 4 + spec_days_in_month(year, month) + day
            - 1;
        if days < 0 {
            None
        } else {
            Some(days * 86400 + hour * 3600 + minute * 60 + second)
        }
    }
}

fn seconds_from(year: u32, month: u32, day: u32, hour: u32, minute: u32, second: u32) -> (r: Option<
    u64,
>)
    requires
        year <= 99999,
        day <= 9999,
        hour <= 9999,
        minute <= 9999,
        second <= 9999,
    ensures
        match seconds_of(
            year as int,
            month as int,
            day as int,
            hour as int,
            minute as int,
            second as int,
        ) {
            Some(s) => r == Some(s as u64) && s <= u64::MAX,
            None => r is None,
        },
{
    if year < 1970 {
        return None;
    }
    let sum: u64 = (year as u64 - 1970) * 365 + (year as u64 - 1969) / 4 + days_in_month(
        year,
        month,
    ) as u64 + day as u64;
    if sum == 0 {
        return None;
    }
    let days = sum - 1;
    Some(days * 86400 + hour as u64 * 3600 + minute as u64 * 60 + second as u64)
}

/// The moment that a numerical date of seven bytes stands for, in seconds
/// since the start of 1970. The offset from Greenwich Mean Time is not
/// looked at.
pub open spec fn recording_seconds(buffer: Seq<u8>) -> Option<int> {
    if buffer.len() < 7 {
        None
    } else {
        seconds_of(
            1900 + buffer[0],
            buffer[1] as int,
            buffer[2] as int,
            buffer[3] as int,
            buffer[4] as int,
            buffer[5] as int,
        )
    }
}

/// Reads a numerical date as seconds since the start of 1970.
pub fn parse_recording_date(buffer: &[u8]) -> (r: Option<u64>)
    ensures
        match recording_seconds(buffer@) {
            Some(s) => r == Some(s as u64),
            None => r is None,
        },
{
    if buffer.len() < 7 {
        return None;
    }
    seconds_from(
        1900 + buffer[0] as u32,
        buffer[1] as u32,
        buffer[2] as u32,
        buffer[3] as u32,
        buffer[4] as u32,
        buffer[5] as u32,
    )
}

/// How many days lie between the start of 1970 and the start of `year`: 365
/// for every year, and a leap day for every fourth year from 1972 on.
pub open spec fn days_before_year(year: int) -> int {
    (year - 1970) * 365 + (year - 1969) / 4
}

/// Which year of its run of four a day falls into, where `day` counts the
/// days of the run from zero: the runs start with 1970, and the third year
/// of each has 366 days.
pub open spec fn year_in_run(day: int) -> int {
    if day < 365 {
        0
    } else if day < 730 {
        1
    } else if day < 1096 {
        2
    } else {
        3
    }
}

/// How many days of a run of four years lie before its year `k`.
pub open spec fn run_start(k: int) -> int {
    if k <= 0 {
        0
    } else if k == 1 {
        365
    } else if k == 2 {
        730
    } else {
        1096
    }
}

/// The year that `seconds` since the start of 1970 fall into.
pub open spec fn year_of(seconds: int) -> int {
    let days = seconds / 86400;
    1970 + 4 * (days / 1461) + year_in_run(days % 1461)
}

/// The day of its year that `seconds` since the start of 1970 fall on,
/// counted from zero.
pub open spec fn day_of_year(seconds: int) -> int {
    let days = seconds / 86400;
    days % 1461 - run_start(year_in_run(days % 1461))
}

/// The month and the day of the month that `seconds` since the start of 1970
/// fall on.
pub open spec fn month_day_of(seconds: int) -> (int, int) {
    month_day_from(day_of_year(seconds), spec_is_leap_year(year_of(seconds)), 1)
}

/// The year of a moment is the one whose days hold the day of the moment,
/// and the day of the year counts from its first day.
pub proof fn lemma_year_of(seconds: int)
    requires
        0 <= seconds,
    ensures
        1970 <= year_of(seconds),
        days_before_year(year_of(seconds)) <= seconds / 86400 < days_before_year(
            year_of(seconds) + 1,
        ),
        day_of_year(seconds) == seconds / 86400 - days_before_year(year_of(seconds)),
        0 <= day_of_year(seconds) <= 365,
        day_of_year(seconds) == 365 ==> year_of(seconds) % 4 == 0,
{
    let days = seconds / 86400;
    let q = days / 1461;
    let r = days % 1461;
    let k = year_in_run(r);
    assert(days == 1461 * q + r);
    assert(days_before_year(1970 + 4 * q + k) == 1461 * q + run_start(k));
    assert(days_before_year(1970 + 4 * q + k + 1) == 1461 * q + run_start(k) + (if k == 2 {
        366int
    } else {
        365int
    }));
}

/// The month and the day that `estimate_month_day` finds for a day of a
/// year are those of which the table of `spec_days_in_month` gives that day.
pub proof fn lemma_month_day(year: int, day: int)
    requires
        0 <= day < 365 + (if spec_is_leap_year(year) {
            1int
        } else {
            0int
        }),
    ensures
        ({
            let (month, of_month) = month_day_from(day, spec_is_leap_year(year), 1);
            &&& 1 <= month <= 12
            &&& 1 <= of_month <= 31
            &&& spec_days_in_month(year, month) + of_month - 1 == day
        }),
{
    reveal_with_fuel(month_day_from, 13);
}

/// Reading undoes writing: the numerical date that is written for a moment
/// before the year 2100 reads as that moment.
pub proof fn lemma_recording_round_trip(seconds: int)
    requires
        0 <= seconds < 4102444800,
    ensures
        recording_seconds(recording_bytes(seconds)) == Some(seconds),
{
    lemma_calendar_round_trip(seconds);
}

/// The calendar date of a moment before the year 2100 counts back to the
/// moment.
pub proof fn lemma_calendar_round_trip(seconds: int)
    requires
        0 <= seconds < 4102444800,
    ensures
        1970 <= year_of(seconds) < 2100,
        1 <= month_day_of(seconds).0 <= 12,
        1 <= month_day_of(seconds).1 <= 31,
        seconds_of(
            year_of(seconds),
            month_day_of(seconds).0,
            month_day_of(seconds).1,
            (seconds / 3600) % 24,
            (seconds / 60) % 60,
            seconds % 60,
        ) == Some(seconds),
{
    lemma_year_of(seconds);
    let year = year_of(seconds);
    let days = seconds / 86400;
    assert(days < 47482);
    assert(year < 2100) by {
        if year >= 2100 {
            assert(days_before_year(2100) == 47482);
            assert(days_before_year(year) >= days_before_year(2100));
        }
    }
    assert(spec_is_leap_year(year) == (year % 4 == 0));
    lemma_month_day(year, day_of_year(seconds));
}

/// The seven bytes of the numerical date of `seconds` since the start of
/// 1970, at Greenwich Mean Time. Of the years since 1900 the low eight bits
/// are written.
pub open spec fn recording_bytes(seconds: int) -> Seq<u8> {
    seq![
        ((year_of(seconds) - 1900) % 256) as u8,
        month_day_of(seconds).0 as u8,
        month_day_of(seconds).1 as u8,
        ((seconds / 3600) % 24) as u8,
        ((seconds / 60) % 60) as u8,
        (seconds % 60) as u8,
        0u8,
    ]
}

/// The year, the month and the day of the month of `time`, in seconds since
/// the start of 1970.
pub fn calendar(time: u64) -> (r: (u64, u32, u32))
    ensures
        r.0 == year_of(time as int),
        (r.1 as int, r.2 as int) == month_day_of(time as int),
        1970 <= r.0,
        1 <= r.1 <= 12,
        1 <= r.2 <= 31,
{
    let days = time / 86400;
    let run = days / 1461;
    let day = days % 1461;
    let (k, start): (u64, u64) = if day < 365 {
        (0, 0)
    } else if day < 730 {
        (1, 365)
    } else if day < 1096 {
        (2, 730)
    } else {
        (3, 1096)
    };
    let year = 1970 + 4 * run + k;
    let leap = (year % 4 == 0 && year % 100 != 0) || (year % 400 == 0);
    let (month, of_month) = estimate_month_day((day - start) as u32, leap);
    (year, month, of_month)
}

/// Writes the numerical date of `time`, in seconds since the start of 1970,
/// at the front of `buffer`. A buffer under seven bytes is left as it is.
pub fn write_recording_date(buffer: &mut [u8], time: u64)
    ensures
        final(buffer)@ == (if old(buffer)@.len() < 7 {
            old(buffer)@
        } else {
            recording_bytes(time as int) + old(buffer)@.skip(7)
        }),
{
    if buffer.len() < 7 {
        return ;
    }
    let second = (time % 60) as u8;
    let minute = ((time / 60) % 60) as u8;
    let hour = ((time / 3600) % 24) as u8;
    let (year, month, day) = calendar(time);
    buffer[0] = ((year - 1900) % 256) as u8;
    buffer[1] = month as u8;
    buffer[2] = day as u8;
    buffer[3] = hour;
    buffer[4] = minute;
    buffer[5] = second;
    buffer[6] = 0;
    assert(buffer@ =~= recording_bytes(time as int) + old(buffer)@.skip(7));
}

/// `s` without the plus sign that it may start with.
pub open spec fn unsigned(s: Seq<u8>) -> Seq<u8> {
    if s.len() > 0 && s[0] == 0x2B {
        s.skip(1)
    } else {
        s
    }
}

/// Whether every byte of `s` is an ASCII digit.
pub open spec fn all_digits(s: Seq<u8>) -> bool {
    forall|i: int| 0 <= i < s.len() ==> is_digit(#[trigger] s[i])
}

/// The number that `s` stands for in decimal, as Rust reads an unsigned
/// number: digits, at least one, after a plus sign or none.
pub open spec fn decimal(s: Seq<u8>) -> Option<int> {
    if unsigned(s).len() == 0 || !all_digits(unsigned(s)) {
        None
    } else {
        Some(decimal_value(unsigned(s), unsigned(s).len()))
    }
}

/// The number that the first `k` digits of `digits` stand for.
pub open spec fn decimal_value(digits: Seq<u8>, k: nat) -> int
    decreases k,
{
    if k == 0 || k > digits.len() {
        0
    } else {
        decimal_value(digits, (k - 1) as nat) * 10 + (digits[k - 1] - 48)
    }
}

/// Reads the decimal number in `buffer[from..to]`, which has at most four
/// bytes.
pub fn parse_decimal(buffer: &[u8], from: usize, to: usize) -> (r: Option<u32>)
    requires
        from <= to <= buffer@.len(),
        to - from <= 4,
    ensures
        match decimal(buffer@.subrange(from as int, to as int)) {
            Some(v) => r == Some(v as u32) && 0 <= v <= 9999,
            None => r is None,
        },
{
    let ghost s = buffer@.subrange(from as int, to as int);
    let start = if from < to && buffer[from] == 0x2B {
        from + 1
    } else {
        from
    };
    let ghost digits = buffer@.subrange(start as int, to as int);
    proof {
        if start > from {
            assert(s[0] == 0x2B);
            assert(s.skip(1) =~= digits);
        } else {
            if s.len() > 0 {
                assert(s[0] == buffer@[from as int]);
            }
            assert(s =~= digits);
        }
    }
    if start == to {
        return None;
    }
    let mut value: u32 = 0;
    let mut i: usize = start;
    while i < to
        invariant
            start <= i <= to,
            to <= buffer@.len(),
            to - start <= 4,
            digits == buffer@.subrange(start as int, to as int),
            s == buffer@.subrange(from as int, to as int),
            digits == unsigned(s),
            forall|j: int| 0 <= j < i - start ==> is_digit(#[trigger] digits[j]),
            value == decimal_value(digits, (i - start) as nat),
            value <= pow10((i - start) as nat) - 1,
        decreases to - i,
    {
        let b = buffer[i];
        assert(digits[i - start] == b);
        if !(48 <= b && b <= 57) {
            assert(!is_digit(digits[i - start]));
            return None;
        }
        value = value * 10 + (b - 48) as u32;
        i += 1;
    }
    Some(value)
}

/// Ten to the power `k`, for the few digits that a field has.
pub open spec fn pow10(k: nat) -> int {
    if k == 0 {
        1
    } else if k == 1 {
        10
    } else if k == 2 {
        100
    } else if k == 3 {
        1000
    } else {
        10000
    }
}

/// Whether every byte of `s` is ASCII.
pub open spec fn all_ascii(s: Seq<u8>) -> bool {
    forall|i: int| 0 <= i < s.len() ==> (#[trigger] s[i]) < 128
}

fn is_all_ascii(buffer: &[u8]) -> (r: bool)
    ensures
        r == all_ascii(buffer@),
{
    let n = buffer.len();
    let mut i: usize = 0;
    while i < n
        invariant
            i <= n,
            n == buffer@.len(),
            forall|j: int| 0 <= j < i ==> (#[trigger] buffer@[j]) < 128,
        decreases n - i,
    {
        if buffer[i] >= 128 {
            return false;
        }
        i += 1;
    }
    true
}

/// The moment that a precise date stands for, in seconds since the start of
/// 1970: `None` for a buffer under 16 bytes, for one that holds a byte that
/// is not ASCII, and for one of whose seven fields one is no decimal number.
/// The hundredths and the offset from Greenwich Mean Time are read but do
/// not count.
pub open spec fn iso_date_seconds(buffer: Seq<u8>) -> Option<int> {
    if buffer.len() < 16 || !all_ascii(buffer) {
        None
    } else {
        match (
            decimal(buffer.subrange(0, 4)),
            decimal(buffer.subrange(4, 6)),
            decimal(buffer.subrange(6, 8)),
            decimal(buffer.subrange(8, 10)),
            decimal(buffer.subrange(10, 12)),
            decimal(buffer.subrange(12, 14)),
            decimal(buffer.subrange(14, 16)),
        ) {
            (Some(year), Some(month), Some(day), Some(hour), Some(minute), Some(second), Some(_)) => seconds_of(
                year,
                month,
                day,
                hour,
                minute,
                second,
            ),
            _ => None,
        }
    }
}

/// Reads a precise date as seconds since the start of 1970.
pub fn parse_iso_date(buffer: &[u8]) -> (r: Option<u64>)
    ensures
        match iso_date_seconds(buffer@) {
            Some(s) => r == Some(s as u64),
            None => r is None,
        },
{
    if buffer.len() < 16 {
        return None;
    }
    if !is_all_ascii(buffer) {
        return None;
    }
    let year = match parse_decimal(buffer, 0, 4) {
        Some(v) => v,
        None => {
            return None;
        },
    };
    let month = match parse_decimal(buffer, 4, 6) {
        Some(v) => v,
        None => {
            return None;
        },
    };
    let day = match parse_decimal(buffer, 6, 8) {
        Some(v) => v,
        None => {
            return None;
        },
    };
    let hour = match parse_decimal(buffer, 8, 10) {
        Some(v) => v,
        None => {
            return None;
        },
    };
    let minute = match parse_decimal(buffer, 10, 12) {
        Some(v) => v,
        None => {
            return None;
        },
    };
    let second = match parse_decimal(buffer, 12, 14) {
        Some(v) => v,
        None => {
            return None;
        },
    };
    if parse_decimal(buffer, 14, 16).is_none() {
        return None;
    }
    seconds_from(year, month, day, hour, minute, second)
}

/// The 17 bytes of the precise date of `seconds` since the start of 1970, at
/// Greenwich Mean Time and without hundredths.
pub open spec fn iso_date_bytes(seconds: int) -> Seq<u8> {
    digits4(year_of(seconds)) + digits2(month_day_of(seconds).0) + digits2(
        month_day_of(seconds).1,
    ) + digits2((seconds / 3600) % 24) + digits2((seconds / 60) % 60) + digits2(seconds % 60)
        + digits2(0) + seq![0u8]
}

/// Writes the precise date of `time`, in seconds since the start of 1970, at
/// the front of `buffer`. A buffer under 17 bytes is left as it is, and so is
/// every buffer where the year has more than four digits.
pub fn write_iso_date(buffer: &mut [u8], time: u64)
    ensures
        final(buffer)@ == (if old(buffer)@.len() < 17 || year_of(time as int) > 9999 {
            old(buffer)@
        } else {
            iso_date_bytes(time as int) + old(buffer)@.skip(17)
        }),
{
    if buffer.len() < 17 {
        return ;
    }
    let second = (time % 60) as u16;
    let minute = ((time / 60) % 60) as u16;
    let hour = ((time / 3600) % 24) as u16;
    let (year, month, day) = calendar(time);
    if year > 9999 {
        return ;
    }
    let p = put_digits4(buffer, 0, year as u16);
    let p = put_digits2(buffer, p, month as u16);
    let p = put_digits2(buffer, p, day as u16);
    let p = put_digits2(buffer, p, hour);
    let p = put_digits2(buffer, p, minute);
    let p = put_digits2(buffer, p, second);
    let p = put_digits2(buffer, p, 0);
    let p = put_u8(buffer, p, 0);
    proof {
        let t = time as int;
        lemma_digits_len(year_of(t) / 100);
        lemma_digits_len(year_of(t) % 100);
        lemma_digits_len(month_day_of(t).0);
        lemma_digits_len(month_day_of(t).1);
        lemma_digits_len((t / 3600) % 24);
        lemma_digits_len((t / 60) % 60);
        lemma_digits_len(t % 60);
        lemma_digits_len(0);
        assert(buffer@.subrange(0, 17) =~= old(buffer)@.subrange(0, 0) + iso_date_bytes(t));
        lemma_written(old(buffer)@, buffer@, iso_date_bytes(t));
    }
}

/// The two digits of a number under 100 read as that number.
pub proof fn lemma_decimal_of_digits2(v: int)
    requires
        0 <= v <= 99,
    ensures
        decimal(digits2(v)) == Some(v),
{
    reveal(digits2);
    reveal_with_fuel(decimal_value, 3);
    let d = digits2(v);
    assert(unsigned(d) == d);
    assert(is_digit(d[0]) && is_digit(d[1]));
}

/// The four digits of a number under 10000 read as that number.
pub proof fn lemma_decimal_of_digits4(v: int)
    requires
        0 <= v <= 9999,
    ensures
        decimal(digits4(v)) == Some(v),
{
    reveal(digits2);
    reveal_with_fuel(decimal_value, 5);
    let d = digits4(v);
    assert(d.len() == 4);
    assert(d[0] == digits2(v / 100)[0] && d[1] == digits2(v / 100)[1] && d[2] == digits2(
        v % 100,
    )[0] && d[3] == digits2(v % 100)[1]);
    assert(unsigned(d) == d);
    assert(is_digit(d[0]) && is_digit(d[1]) && is_digit(d[2]) && is_digit(d[3]));
}

/// The digits of a number under 100 are ASCII.
pub proof fn lemma_digits_ascii(v: int)
    requires
        0 <= v <= 99,
    ensures
        digits2(v).len() == 2,
        digits2(v)[0] < 128,
        digits2(v)[1] < 128,
{
    reveal(digits2);
}

/// The 17 bytes of a precise date, taken apart.
proof fn lemma_iso_date_layout(seconds: int)
    requires
        0 <= seconds,
    ensures
        ({
            let b = iso_date_bytes(seconds);
            &&& b.len() == 17
            &&& b.subrange(0, 4) == digits4(year_of(seconds))
            &&& b.subrange(0, 2) == digits2(year_of(seconds) / 100)
            &&& b.subrange(2, 4) == digits2(year_of(seconds) % 100)
            &&& b.subrange(4, 6) == digits2(month_day_of(seconds).0)
            &&& b.subrange(6, 8) == digits2(month_day_of(seconds).1)
            &&& b.subrange(8, 10) == digits2((seconds / 3600) % 24)
            &&& b.subrange(10, 12) == digits2((seconds / 60) % 60)
            &&& b.subrange(12, 14) == digits2(seconds % 60)
            &&& b.subrange(14, 16) == digits2(0)
            &&& b[16] == 0
        }),
{
    let b = iso_date_bytes(seconds);
    let (month, day) = month_day_of(seconds);
    let year = year_of(seconds);
    lemma_digits_len(year / 100);
    lemma_digits_len(year % 100);
    lemma_digits_len(year);
    lemma_digits_len(month);
    lemma_digits_len(day);
    lemma_digits_len((seconds / 3600) % 24);
    lemma_digits_len((seconds / 60) % 60);
    lemma_digits_len(seconds % 60);
    lemma_digits_len(0);
    assert(b.subrange(0, 4) =~= digits4(year));
    assert(b.subrange(0, 2) =~= digits2(year / 100));
    assert(b.subrange(2, 4) =~= digits2(year % 100));
    assert(b.subrange(4, 6) =~= digits2(month));
    assert(b.subrange(6, 8) =~= digits2(day));
    assert(b.subrange(8, 10) =~= digits2((seconds / 3600) % 24));
    assert(b.subrange(10, 12) =~= digits2((seconds / 60) % 60));
    assert(b.subrange(12, 14) =~= digits2(seconds % 60));
    assert(b.subrange(14, 16) =~= digits2(0));
}

/// Reading undoes writing: the precise date that is written for a moment
/// before the year 2100 reads as that moment.
pub proof fn lemma_iso_date_round_trip(seconds: int)
    requires
        0 <= seconds < 4102444800,
    ensures
        iso_date_seconds(iso_date_bytes(seconds)) == Some(seconds),
{
    lemma_calendar_round_trip(seconds);
    lemma_iso_date_layout(seconds);
    let b = iso_date_bytes(seconds);
    let (month, day) = month_day_of(seconds);
    let year = year_of(seconds);
    lemma_digits_ascii(year / 100);
    lemma_digits_ascii(year % 100);
    lemma_digits_ascii(month);
    lemma_digits_ascii(day);
    lemma_digits_ascii((seconds / 3600) % 24);
    lemma_digits_ascii((seconds / 60) % 60);
    lemma_digits_ascii(seconds % 60);
    lemma_digits_ascii(0);
    assert(all_ascii(b)) by {
        assert forall|i: int| 0 <= i < b.len() implies (#[trigger] b[i]) < 128 by {
            if i < 2 {
                assert(b[i] == b.subrange(0, 2)[i]);
            } else if i < 4 {
                assert(b[i] == b.subrange(2, 4)[i - 2]);
            } else if i < 6 {
                assert(b[i] == b.subrange(4, 6)[i - 4]);
            } else if i < 8 {
                assert(b[i] == b.subrange(6, 8)[i - 6]);
            } else if i < 10 {
                assert(b[i] == b.subrange(8, 10)[i - 8]);
            } else if i < 12 {
                assert(b[i] == b.subrange(10, 12)[i - 10]);
            } else if i < 14 {
                assert(b[i] == b.subrange(12, 14)[i - 12]);
            } else if i < 16 {
                assert(b[i] == b.subrange(14, 16)[i - 14]);
            }
        }
    }
    lemma_decimal_of_digits4(year);
    lemma_decimal_of_digits2(month);
    lemma_decimal_of_digits2(day);
    lemma_decimal_of_digits2((seconds / 3600) % 24);
    lemma_decimal_of_digits2((seconds / 60) % 60);
    lemma_decimal_of_digits2(seconds % 60);
    lemma_decimal_of_digits2(0);
}

} // verus!

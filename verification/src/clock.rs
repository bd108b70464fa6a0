//! Instants in local time, the clock that supplies them, and the decoding
//! of timestamps, done by `chrono`.

use vstd::prelude::*;
use crate::error::{Error, ErrorKind};

verus! {

/// The format of a timestamp: year, month, day, `T`, hours, minutes,
/// seconds, `Z`, all digits given.
pub open spec fn timestamp_format() -> Seq<char> {
    "%Y%m%dT%H%M%SZ"@
}

/// Bound on the seconds of an instant, before and after the epoch.
pub const SECONDS_SPAN: i64 = 0x1_0000_0000_0000;

/// The first second of the year 0000, in seconds since the epoch: the
/// earliest that a timestamp of four-digit years can stand for.
pub const FIRST_SECOND: i64 = -62_167_219_200;

/// The last second of the year 9999, in seconds since the epoch: the latest
/// that a timestamp of four-digit years can stand for.
pub const LAST_SECOND: i64 = 253_402_300_799;

/// Bound on the nanoseconds of an instant; values from one thousand million
/// on stand for a leap second.
pub const NANOS_SPAN: u32 = 2_000_000_000;

/// Bound on the offset of a time zone from UTC, in seconds either way.
pub const OFFSET_SPAN: i32 = 86_400;

/// What a [`LocalInstant`] stands for.
pub struct InstantModel {
    /// Whole seconds since 1970-01-01 00:00:00 UTC.
    pub seconds: int,
    /// Nanoseconds since the last whole second.
    pub nanos: int,
    /// Seconds that local time is ahead of UTC at this instant.
    pub offset: int,
}

impl InstantModel {
    /// Whether the three numbers are within their bounds.
    pub open spec fn in_bounds(self) -> bool {
        &&& -SECONDS_SPAN < self.seconds < SECONDS_SPAN
        &&& 0 <= self.nanos < NANOS_SPAN
        &&& -OFFSET_SPAN < self.offset < OFFSET_SPAN
    }

    /// Day of the week in local time, counted from Monday as 0; the epoch
    /// fell on a Thursday.
    pub open spec fn weekday(self) -> int {
        ((self.seconds + self.offset) / 86_400 + 3) % 7
    }

    /// Nanoseconds since the epoch.
    pub open spec fn total_nanos(self) -> int {
        self.seconds * 1_000_000_000 + self.nanos
    }
}

/// Whole seconds from `start` to `end`, rounded towards zero; negative where
/// `end` is the earlier one.
pub open spec fn elapsed_seconds(start: InstantModel, end: InstantModel) -> int {
    let nanos = end.total_nanos() - start.total_nanos();
    if nanos >= 0 {
        nanos / 1_000_000_000
    } else {
        -((-nanos) / 1_000_000_000)
    }
}

/// A point in time, with the offset of local time from UTC at that point.
#[derive(Clone, Copy, Debug)]
pub struct LocalInstant {
    seconds: i64,
    nanos: u32,
    offset: i32,
}

impl View for LocalInstant {
    type V = InstantModel;

    closed spec fn view(&self) -> InstantModel {
        InstantModel {
            seconds: self.seconds as int,
            nanos: self.nanos as int,
            offset: self.offset as int,
        }
    }
}

impl LocalInstant {
    #[verifier::type_invariant]
    spec fn bounded(self) -> bool {
        self@.in_bounds()
    }

    /// The instant `seconds` and `nanos` after the epoch, in a zone that is
    /// `offset` seconds ahead of UTC; `None` where a number is out of bounds.
    pub fn new(seconds: i64, nanos: u32, offset: i32) -> (r: Option<LocalInstant>)
        ensures
            match r {
                Some(instant) => instant@ == (InstantModel {
                    seconds: seconds as int,
                    nanos: nanos as int,
                    offset: offset as int,
                }) && instant@.in_bounds(),
                None => !(InstantModel {
                    seconds: seconds as int,
                    nanos: nanos as int,
                    offset: offset as int,
                }).in_bounds(),
            },
    {
        if -SECONDS_SPAN < seconds && seconds < SECONDS_SPAN && nanos < NANOS_SPAN && -OFFSET_SPAN
            < offset && offset < OFFSET_SPAN {
            Some(LocalInstant { seconds, nanos, offset })
        } else {
            None
        }
    }

    /// Seconds that local time is ahead of UTC at this instant.
    pub fn offset(&self) -> (r: i32)
        ensures
            r == self@.offset,
            self@.in_bounds(),
    {
        proof {
            use_type_invariant(self);
        }
        self.offset
    }

    /// Day of the week in local time, counted from Monday as 0.
    pub fn weekday(&self) -> (r: u32)
        ensures
            r == self@.weekday(),
            r < 7,
    {
        proof {
            use_type_invariant(self);
        }
        let local: i64 = self.seconds + self.offset as i64;
        // A whole number of weeks that makes every local time positive.
        let shifted: u64 = (local + 604_800 * 0x4000_0000) as u64;
        let days: u64 = shifted / 86_400;
        let day: u64 = (days + 3) % 7;
        assert(day == ((local as int) / 86_400 + 3) % 7) by {
            assert(shifted == local + 86_400 * (7 * 0x4000_0000));
            assert(days == (local as int) / 86_400 + 7 * 0x4000_0000);
        }
        day as u32
    }

    /// Whole seconds from this instant to `end`, rounded towards zero.
    pub fn seconds_until(&self, end: &LocalInstant) -> (r: i64)
        ensures
            r == elapsed_seconds(self@, end@),
    {
        proof {
            use_type_invariant(self);
            use_type_invariant(end);
        }
        let nanos: i128 = (end.seconds as i128 - self.seconds as i128) * 1_000_000_000 + (
        end.nanos as i128 - self.nanos as i128);
        if nanos >= 0 {
            (nanos / 1_000_000_000) as i64
        } else {
            (-((-nanos) / 1_000_000_000)) as i64
        }
    }
}

/// The seconds and nanoseconds since the epoch of the UTC date and time that
/// `text` holds in the format `format`; `None` where `text` does not hold
/// one.
pub uninterp spec fn utc_timestamp(text: Seq<char>, format: Seq<char>) -> Option<(i64, u32)>;

/// Calls `chrono::NaiveDateTime::parse_from_str`, then `and_utc`,
/// `timestamp` and `timestamp_subsec_nanos` on what it gives.
///
/// Trusted: the result is a function of `text` and `format` alone, named
/// [`utc_timestamp`]. Where the parser refuses `text`, what it reports is
/// handed on as text.
#[verifier::external_body]
pub(crate) fn parse_timestamp(text: &str, format: &str) -> (r: Result<(i64, u32), String>)
    ensures
        utc_timestamp(text@, format@) == match r {
            Ok(parts) => Some(parts),
            Err(_) => None,
        },
{
    let parsed = chrono::NaiveDateTime::parse_from_str(text, format);
    let utc = parsed.map_err(|e| format!("{:?}", e))?.and_utc();
    Ok((utc.timestamp(), utc.timestamp_subsec_nanos()))
}

/// Calls `chrono::Local::now`, and gives its seconds and nanoseconds since
/// the epoch and the seconds that its offset is ahead of UTC.
///
/// Trusted: the three numbers are within the bounds of an instant. `chrono`
/// computes the seconds from a number of days that fits in 32 bits and the
/// seconds of a day, keeps the nanoseconds of every time below two thousand
/// million, and makes no offset of a day or more. What the numbers are is
/// what the clock and the time zone of the machine say. `chrono` panics
/// where the clock of the machine reads a time before the epoch, and where
/// the time zone that the machine is set to gives no offset for the
/// instant, or one of a day or more.
#[verifier::external_body]
pub(crate) fn system_now() -> (r: (i64, u32, i32))
    ensures
        -SECONDS_SPAN < r.0 < SECONDS_SPAN,
        r.1 < NANOS_SPAN,
        -OFFSET_SPAN < r.2 < OFFSET_SPAN,
{
    let now = chrono::Local::now();
    (now.timestamp(), now.timestamp_subsec_nanos(), now.offset().local_minus_utc())
}

/// Calls `chrono::DateTime::from_timestamp` and `with_timezone` for
/// `chrono::Local`, and gives the seconds that local time is ahead of UTC at
/// `seconds` after the epoch; `None` where no date and time stands for
/// `seconds`.
///
/// Trusted: a date and time stands for every second of the years 0000 to
/// 9999, which lie well within the years that `chrono` can hold, and
/// `chrono` makes no offset of a day or more. What the offset is is what
/// the time zone of the machine says. `chrono` panics where the time zone
/// that the machine is set to gives no offset for the instant, or one of a
/// day or more.
#[verifier::external_body]
pub(crate) fn system_offset(seconds: i64) -> (r: Option<i32>)
    ensures
        FIRST_SECOND <= seconds <= LAST_SECOND ==> r is Some,
        r matches Some(offset) ==> -OFFSET_SPAN < offset < OFFSET_SPAN,
{
    let utc = chrono::DateTime::from_timestamp(seconds, 0)?;
    Some(utc.with_timezone(&chrono::Local).offset().local_minus_utc())
}

/// Where "now" and the offset of local time come from.
#[derive(Clone, Copy, Debug)]
pub enum Clock {
    /// The clock and the time zone of the machine.
    System,
    /// A clock that stands still at the given instant, in a zone whose
    /// offset from UTC is always that of the instant.
    Fixed(LocalInstant),
}

impl Clock {
    /// The current instant: by a clock that stands still, the instant at
    /// which it stands.
    pub fn now(&self) -> (r: LocalInstant)
        ensures
            r@.in_bounds(),
            *self matches Clock::Fixed(at) ==> r@ == at@,
    {
        match self {
            Clock::Fixed(at) => {
                proof {
                    use_type_invariant(at);
                }
                *at
            },
            Clock::System => {
                let (seconds, nanos, offset) = system_now();
                LocalInstant { seconds, nanos, offset }
            },
        }
    }

    /// The instant `seconds` and `nanos` after the epoch, with the offset
    /// of local time at that instant; `None` where `seconds` lies outside
    /// the years 0000 to 9999 or `nanos` is out of bounds.
    pub fn locate(&self, seconds: i64, nanos: u32) -> (r: Option<LocalInstant>)
        ensures
            r is Some <==> FIRST_SECOND <= seconds <= LAST_SECOND && nanos < NANOS_SPAN,
            r matches Some(instant) ==> instant@.seconds == seconds && instant@.nanos == nanos
                && instant@.in_bounds(),
            *self matches Clock::Fixed(at) ==> (r matches Some(instant) ==> instant@.offset
                == at@.offset),
    {
        if seconds < FIRST_SECOND || seconds > LAST_SECOND || nanos >= NANOS_SPAN {
            return None;
        }
        match self {
            Clock::Fixed(at) => LocalInstant::new(seconds, nanos, at.offset()),
            Clock::System => {
                match system_offset(seconds) {
                    Some(offset) => LocalInstant::new(seconds, nanos, offset),
                    None => None,
                }
            },
        }
    }
}

/// Whether `c` is a decimal digit.
pub open spec fn is_digit(c: char) -> bool {
    0x30 <= c as u32 <= 0x39
}

/// Whether `text` has the shape of a timestamp: eight digits, `T`, six
/// digits, `Z`.
pub open spec fn timestamp_shape(text: Seq<char>) -> bool {
    &&& text.len() == 16
    &&& forall|i: int| 0 <= i < 16 && i != 8 && i != 15 ==> is_digit(#[trigger] text[i])
    &&& text[8] == 'T'
    &&& text[15] == 'Z'
}

/// Executable form of [`timestamp_shape`].
pub fn has_timestamp_shape(text: &str) -> (r: bool)
    ensures
        r == timestamp_shape(text@),
{
    if text.unicode_len() != 16 {
        return false;
    }
    let mut i: usize = 0;
    while i < 16
        invariant
            i <= 16,
            text@.len() == 16,
            forall|k: int| 0 <= k < i && k != 8 && k != 15 ==> is_digit(#[trigger] text@[k]),
            i > 8 ==> text@[8] == 'T',
            i > 15 ==> text@[15] == 'Z',
        decreases 16 - i,
    {
        let c: char = text.get_char(i);
        let n: u32 = c as u32;
        if i == 8 {
            if c != 'T' {
                return false;
            }
        } else if i == 15 {
            if c != 'Z' {
                return false;
            }
        } else if !(0x30 <= n && n <= 0x39) {
            return false;
        }
        i += 1;
    }
    true
}

/// The seconds since the epoch that the timestamp `text` stands for; `None`
/// where `text` is not a timestamp: where it has not the shape of one, holds
/// no date and time, holds a second beyond the 59th, or stands for a second
/// outside the years 0000 to 9999.
pub open spec fn timestamp_seconds(text: Seq<char>) -> Option<int> {
    if !timestamp_shape(text) {
        None
    } else {
        match utc_timestamp(text, timestamp_format()) {
            Some((seconds, nanos)) => if nanos == 0 && FIRST_SECOND <= seconds <= LAST_SECOND {
                Some(seconds as int)
            } else {
                None
            },
            None => None,
        }
    }
}

/// The instant that `text` stands for by a clock that stands still at `now`:
/// `now` where `text` is empty, else the instant of the timestamp.
pub open spec fn decoded_at(text: Seq<char>, now: InstantModel) -> Option<InstantModel> {
    if text.len() == 0 {
        Some(now)
    } else {
        match timestamp_seconds(text) {
            Some(seconds) => Some(InstantModel { seconds, nanos: 0, offset: now.offset }),
            None => None,
        }
    }
}

/// Decodes a timestamp: the current instant for the empty text, else the
/// instant that `text` stands for in the fixed format, read as UTC and given
/// the offset of local time.
///
/// Which texts fail does not depend on the clock: the empty text never
/// does, and another text does where it is not a timestamp. By a clock that
/// stands still the result is exactly [`decoded_at`]; by the clock of the
/// machine the seconds are those of the timestamp, and the offset is what
/// the machine says.
pub fn decode_instant(text: &str, clock: &Clock) -> (r: Result<LocalInstant, Error>)
    ensures
        r matches Err(e) ==> e@ == ErrorKind::FailedToParseTimestamp,
        r matches Ok(instant) ==> instant@.in_bounds(),
        text@.len() == 0 ==> r is Ok,
        text@.len() > 0 ==> match timestamp_seconds(text@) {
            Some(seconds) => r matches Ok(instant) && instant@.seconds == seconds
                && instant@.nanos == 0,
            None => r is Err,
        },
        clock matches Clock::Fixed(at) ==> match decoded_at(text@, at@) {
            Some(model) => r matches Ok(instant) && instant@ == model,
            None => r is Err,
        },
{
    if text.unicode_len() == 0 {
        return Ok(clock.now());
    }
    if !has_timestamp_shape(text) {
        return Err(Error::new(ErrorKind::FailedToParseTimestamp));
    }
    match parse_timestamp(text, "%Y%m%dT%H%M%SZ") {
        Ok((seconds, nanos)) => {
            if nanos != 0 {
                return Err(Error::new(ErrorKind::FailedToParseTimestamp));
            }
            match clock.locate(seconds, nanos) {
                Some(instant) => Ok(instant),
                None => Err(Error::new(ErrorKind::FailedToParseTimestamp)),
            }
        },
        Err(report) => Err(Error::from_timestamp(ErrorKind::FailedToParseTimestamp, report)),
    }
}

} // verus!

//! Points in time, to the nanosecond.

use crate::text::precedes;
use vstd::prelude::*;

verus! {

/// The first representable point in time, in nanoseconds since the Unix epoch.
pub const MIN_NANOSECOND: i128 = -377_705_023_201_000_000_000;

/// The last representable point in time, in nanoseconds since the Unix epoch.
pub const MAX_NANOSECOND: i128 = 253_402_207_200_999_999_999;

/// How long artifacts are kept after their task has closed, in seconds.
pub const RETENTION_SECONDS: i64 = 604_800;

/// Whether a number of nanoseconds since the Unix epoch is a point in time.
pub open spec fn in_range(nanosecond: int) -> bool {
    MIN_NANOSECOND <= nanosecond <= MAX_NANOSECOND
}

/// A point in time. Its view is the number of nanoseconds since the Unix epoch.
#[derive(Clone, Copy, Debug, PartialEq, Eq, PartialOrd, Ord, Hash)]
pub struct Timestamp {
    nanosecond: i128,
}

impl View for Timestamp {
    type V = int;

    closed spec fn view(&self) -> int {
        self.nanosecond as int
    }
}

#[verifier::external_type_specification]
#[verifier::external_body]
pub struct ExTimeError(jiff::Error);

/// What `jiff::Timestamp` prints at nine digits of a second for a number of
/// nanoseconds since the Unix epoch.
pub uninterp spec fn timestamp_text(nanosecond: int) -> Seq<char>;

/// What parsing a text as a `jiff::Timestamp` gives, in nanoseconds since the
/// Unix epoch.
pub uninterp spec fn parsed_timestamp(text: Seq<char>) -> Result<i128, jiff::Error>;

/// What an error of the `jiff` crate prints.
pub uninterp spec fn time_error_text(error: jiff::Error) -> Seq<char>;

/// `jiff::Timestamp::now`: the clock of the machine, within the range of the
/// type.
#[verifier::external_body]
fn system_time() -> (nanosecond: i128)
    ensures
        in_range(nanosecond as int),
{
    jiff::Timestamp::now().as_nanosecond()
}

/// The first point in time of the year 0, in nanoseconds since the Unix epoch.
pub const YEAR_ZERO_NANOSECOND: i128 = -62_167_219_200_000_000_000;

/// Whether a point in time is in a year that is not negative.
pub open spec fn is_recent(nanosecond: int) -> bool {
    YEAR_ZERO_NANOSECOND <= nanosecond <= MAX_NANOSECOND
}

/// Whether a text comes before and after the texts of the points in time of years that
/// are not negative as a point in time comes before and after these.
pub open spec fn follows_time(text: Seq<char>, nanosecond: int) -> bool {
    forall|other: int|
        is_recent(other) ==> (precedes(#[trigger] timestamp_text(other), text) <==> other
            < nanosecond) && (precedes(text, timestamp_text(other)) <==> nanosecond < other)
}

/// `jiff::Timestamp`'s `Display` with nine digits of a second: a function of the
/// point in time alone. In the years that are not negative it writes four digits of the
/// year and as many of every other field, so that the texts are ordered as the points in
/// time are.
#[verifier::external_body]
fn print_timestamp(nanosecond: i128) -> (text: String)
    requires
        in_range(nanosecond as int),
    ensures
        text@ == timestamp_text(nanosecond as int),
        is_recent(nanosecond as int) ==> follows_time(text@, nanosecond as int),
{
    format!("{:.9}", jiff::Timestamp::from_nanosecond(nanosecond).unwrap())
}

/// `jiff::Timestamp`'s `FromStr`: a function of the text alone. What it gives is
/// within the range of the type, and it takes back what `Display` writes with
/// nine digits of a second.
#[verifier::external_body]
fn scan_timestamp(text: &str) -> (result: Result<i128, jiff::Error>)
    ensures
        result == parsed_timestamp(text@),
        result is Ok ==> in_range(result->Ok_0 as int),
        forall|n: i128|
            in_range(n as int) && text@ == #[trigger] timestamp_text(n as int) ==> result is Ok
                && result->Ok_0 == n,
{
    text.parse::<jiff::Timestamp>().map(|timestamp| timestamp.as_nanosecond())
}

/// `jiff::Error`'s `Display`: a function of the error alone.
#[verifier::external_body]
pub(crate) fn print_time_error(error: &jiff::Error) -> (text: String)
    ensures
        text@ == time_error_text(*error),
{
    error.to_string()
}

/// The whole seconds of a number of nanoseconds, without the fraction.
pub open spec fn whole_seconds(nanosecond: int) -> int {
    if nanosecond >= 0 {
        nanosecond / 1_000_000_000
    } else {
        -((-nanosecond) / 1_000_000_000)
    }
}

impl Timestamp {
    #[verifier::type_invariant]
    spec fn representable(self) -> bool {
        in_range(self.nanosecond as int)
    }

    /// The point in time that is `nanosecond` nanoseconds after the Unix epoch,
    /// where there is one.
    pub fn from_nanosecond(nanosecond: i128) -> (result: Option<Timestamp>)
        ensures
            result is Some <==> in_range(nanosecond as int),
            result matches Some(timestamp) ==> timestamp@ == nanosecond,
    {
        if MIN_NANOSECOND <= nanosecond && nanosecond <= MAX_NANOSECOND {
            Some(Timestamp { nanosecond })
        } else {
            None
        }
    }

    /// The point in time that is `second` seconds after the Unix epoch, where
    /// there is one.
    pub fn from_second(second: i64) -> (result: Option<Timestamp>)
        ensures
            result is Some <==> in_range(second * 1_000_000_000),
            result matches Some(timestamp) ==> timestamp@ == second * 1_000_000_000,
    {
        Timestamp::from_nanosecond(second as i128 * 1_000_000_000)
    }

    /// The first representable point in time.
    pub fn earliest() -> (timestamp: Timestamp)
        ensures
            timestamp@ == MIN_NANOSECOND,
    {
        Timestamp { nanosecond: MIN_NANOSECOND }
    }

    /// The number of nanoseconds since the Unix epoch.
    pub fn as_nanosecond(self) -> (nanosecond: i128)
        ensures
            nanosecond == self@,
            in_range(self@),
    {
        proof {
            use_type_invariant(self);
        }
        self.nanosecond
    }

    /// The number of whole seconds since the Unix epoch, without the fraction.
    pub fn as_second(self) -> (second: i64)
        ensures
            second == whole_seconds(self@),
    {
        proof {
            use_type_invariant(self);
        }
        if self.nanosecond >= 0 {
            (self.nanosecond / 1_000_000_000) as i64
        } else {
            -(((-self.nanosecond) / 1_000_000_000) as i64)
        }
    }

    /// The time at or before which a task must have been closed for its artifacts to
    /// expire now, where there is one.
    pub fn retention_cutoff(self) -> (result: Option<Timestamp>)
        ensures
            result is Some <==> in_range(
                (whole_seconds(self@) - RETENTION_SECONDS) * 1_000_000_000,
            ),
            result matches Some(cutoff) ==> cutoff@ == (whole_seconds(self@) - RETENTION_SECONDS)
                * 1_000_000_000,
    {
        proof {
            use_type_invariant(self);
        }
        let second: i64 = self.as_second();
        assert(-377_705_023_201 <= second <= 253_402_207_200);
        Timestamp::from_second(second - RETENTION_SECONDS)
    }

    /// The time of the machine's clock.
    pub fn now() -> (result: Timestamp)
        ensures
            in_range(result@),
    {
        Timestamp { nanosecond: system_time() }
    }

    /// The text of this point in time, with nine digits of a second.
    pub fn to_text(self) -> (text: String)
        ensures
            text@ == timestamp_text(self@),
            is_recent(self@) ==> follows_time(text@, self@),
    {
        proof {
            use_type_invariant(self);
        }
        print_timestamp(self.nanosecond)
    }

    /// The point in time that a text stands for.
    pub fn parse(text: &str) -> (result: Result<Timestamp, jiff::Error>)
        ensures
            match result {
                Ok(timestamp) => parsed_timestamp(text@) matches Ok(n) && timestamp@ == n
                    && in_range(timestamp@),
                Err(error) => parsed_timestamp(text@) == Err::<i128, jiff::Error>(error),
            },
            forall|n: i128|
                in_range(n as int) && text@ == #[trigger] timestamp_text(n as int) ==> (
                result matches Ok(timestamp) && timestamp@ == n),
    {
        match scan_timestamp(text) {
            Ok(nanosecond) => Ok(Timestamp { nanosecond }),
            Err(error) => Err(error),
        }
    }
}

} // verus!

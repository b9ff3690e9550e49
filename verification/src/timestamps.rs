//! Moments written as text.
use vstd::prelude::*;
use vstd::string::*;

verus! {

/// The moment that an RFC 3339 text names: whole seconds since the epoch,
/// nanoseconds within the second, and milliseconds since the epoch.
pub uninterp spec fn rfc3339_of(value: Seq<char>) -> Option<(i64, u32, i64)>;

/// The moment that a text without a zone names in this format, read as
/// coordinated universal time: whole seconds since the epoch, nanoseconds
/// within the second, and milliseconds since the epoch.
pub uninterp spec fn plain_time_of(value: Seq<char>, format: Seq<char>) -> Option<(i64, u32, i64)>;

/// The RFC 3339 text of a moment in coordinated universal time.
pub uninterp spec fn rfc3339_text(seconds: i64, nanos: u32) -> Option<Seq<char>>;

/// The text of a moment in coordinated universal time, in this format.
pub uninterp spec fn plain_text(seconds: i64, nanos: u32, format: Seq<char>) -> Option<Seq<char>>;

/// The nanoseconds from the second moment to the first, where it comes later.
pub uninterp spec fn elapsed_of(seconds: i64, nanos: u32, since: i64, since_nanos: u32) -> Option<
    u128,
>;

/// The moment is in one of the years 0 to 9999, and in no leap second.
pub open spec fn in_calendar(seconds: i64, nanos: u32) -> bool {
    -62_167_219_200 <= seconds < 253_402_300_800 && nanos < 1_000_000_000
}

/// The moment is one that `chrono` can hold, in the years -262143 to 262142, and
/// in no leap second.
pub open spec fn in_range(seconds: i64, nanos: u32) -> bool {
    -8_334_601_228_800 <= seconds <= 8_210_266_876_799 && nanos < 1_000_000_000
}

/// `chrono::DateTime::parse_from_rfc3339`: the moment that the text names, or
/// nothing where it is no RFC 3339 date and time. What the texts mean is left
/// to the name.
#[verifier::external_body]
fn parse_rfc3339(value: &str) -> (result: Option<(i64, u32, i64)>)
    ensures
        result == rfc3339_of(value@),
{
    match chrono::DateTime::parse_from_rfc3339(value) {
        Ok(at) => Some((at.timestamp(), at.timestamp_subsec_nanos(), at.timestamp_millis())),
        Err(_) => None,
    }
}

/// `chrono::NaiveDateTime::parse_from_str`, with the result read as
/// coordinated universal time: the moment, or nothing where the text does not
/// follow the format. What the texts mean is left to the name.
#[verifier::external_body]
fn parse_plain(value: &str, format: &str) -> (result: Option<(i64, u32, i64)>)
    ensures
        result == plain_time_of(value@, format@),
{
    match chrono::NaiveDateTime::parse_from_str(value, format) {
        Ok(at) => {
            let at = at.and_utc();
            Some((at.timestamp(), at.timestamp_subsec_nanos(), at.timestamp_millis()))
        },
        Err(_) => None,
    }
}

/// `chrono::DateTime::to_rfc3339` of the moment that
/// `chrono::DateTime::from_timestamp` makes: the text, or nothing where the
/// moment is out of range. In the years 0 to 9999 the text keeps every digit of
/// the moment, so that it is read back from it; the texts of other years are
/// left to the name.
#[verifier::external_body]
fn format_rfc3339(seconds: i64, nanos: u32) -> (result: Option<String>)
    ensures
        match result {
            Some(text) => rfc3339_text(seconds, nanos) == Some(text@),
            None => rfc3339_text(seconds, nanos) is None,
        },
        in_range(seconds, nanos) ==> result is Some,
        in_calendar(seconds, nanos) ==> result is Some && rfc3339_of(result->0@) == Some(
            (seconds, nanos, (seconds * 1000 + nanos / 1_000_000) as i64),
        ),
{
    match chrono::DateTime::from_timestamp(seconds, nanos) {
        Some(at) => Some(at.to_rfc3339()),
        None => None,
    }
}

/// `chrono::DateTime::format` of the moment that
/// `chrono::DateTime::from_timestamp` makes, in the form of the database: the
/// text, or nothing where the moment is out of range. What the text is, is left
/// to the name.
#[verifier::external_body]
fn format_plain(seconds: i64, nanos: u32, format: &str) -> (result: Option<String>)
    requires
        format@ == DATABASE_FORMAT@,
    ensures
        match result {
            Some(text) => plain_text(seconds, nanos, format@) == Some(text@),
            None => plain_text(seconds, nanos, format@) is None,
        },
{
    match chrono::DateTime::from_timestamp(seconds, nanos) {
        Some(at) => Some(at.format(format).to_string()),
        None => None,
    }
}

/// `chrono::DateTime::signed_duration_since` between two moments, as a length
/// of time: nothing where the second moment comes later, or where one of them
/// is out of range. Leap seconds are left to the name; without them the length
/// is the difference.
#[verifier::external_body]
fn duration_since(now: Moment, then: Moment) -> (result: Option<u128>)
    ensures
        result == elapsed_of(now.seconds, now.nanos, then.seconds, then.nanos),
        in_calendar(now.seconds, now.nanos) && in_calendar(then.seconds, then.nanos) ==> result
            == plain_difference(now, then),
{
    let now = chrono::DateTime::from_timestamp(now.seconds, now.nanos)?;
    let then = chrono::DateTime::from_timestamp(then.seconds, then.nanos)?;
    match now.signed_duration_since(then).to_std() {
        Ok(length) => Some(length.as_nanos()),
        Err(_) => None,
    }
}

/// The nanoseconds between two moments without leap seconds.
pub open spec fn plain_difference(now: Moment, then: Moment) -> Option<u128> {
    let d = (now.seconds - then.seconds) * 1_000_000_000 + now.nanos - then.nanos;
    if d < 0 {
        None
    } else {
        Some(d as u128)
    }
}

/// A moment: whole seconds since the epoch, and nanoseconds within the second.
#[derive(Debug, Clone, Copy, PartialEq, Eq, Structural)]
pub struct Moment {
    pub seconds: i64,
    pub nanos: u32,
}

impl Moment {
    /// This moment does not come before the other.
    pub open spec fn reached(self, other: Moment) -> bool {
        self.seconds > other.seconds || (self.seconds == other.seconds && self.nanos
            >= other.nanos)
    }

    /// This moment does not come before the other.
    pub fn has_reached(self, other: Moment) -> (result: bool)
        ensures
            result == self.reached(other),
    {
        self.seconds > other.seconds || (self.seconds == other.seconds && self.nanos
            >= other.nanos)
    }
}

/// The two readings of a stored moment, tried in turn: RFC 3339 first, then
/// the form of the database.
pub open spec fn moment_from(zoned: Option<(i64, u32, i64)>, plain: Option<(i64, u32, i64)>) -> Option<
    Moment,
> {
    match zoned {
        Some(at) => Some(Moment { seconds: at.0, nanos: at.1 }),
        None => match plain {
            Some(at) => Some(Moment { seconds: at.0, nanos: at.1 }),
            None => None,
        },
    }
}

/// The moment that the first reading that succeeded gives.
pub fn either_moment(zoned: Option<(i64, u32, i64)>, plain: Option<(i64, u32, i64)>) -> (result: Option<
    Moment,
>)
    ensures
        result == moment_from(zoned, plain),
{
    match zoned {
        Some(at) => Some(Moment { seconds: at.0, nanos: at.1 }),
        None => match plain {
            Some(at) => Some(Moment { seconds: at.0, nanos: at.1 }),
            None => None,
        },
    }
}

/// The form in which the database writes a moment.
pub const DATABASE_FORMAT: &'static str = "%Y-%m-%d %H:%M:%S";

/// Reads a stored moment.
pub fn parse_moment(value: &str) -> (result: Option<Moment>)
    ensures
        result == moment_from(rfc3339_of(value@), plain_time_of(value@, DATABASE_FORMAT@)),
{
    either_moment(parse_rfc3339(value), parse_plain(value, DATABASE_FORMAT))
}

/// Reads an RFC 3339 text as milliseconds since the epoch.
pub fn parse_millis(value: &str) -> (result: Option<i64>)
    ensures
        result == match rfc3339_of(value@) {
            Some(at) => Some(at.2),
            None => None,
        },
{
    match parse_rfc3339(value) {
        Some(at) => Some(at.2),
        None => None,
    }
}

/// Reads a stored moment as milliseconds since the epoch.
pub fn parse_moment_millis(value: &str) -> (result: Option<i64>)
    ensures
        result == match rfc3339_of(value@) {
            Some(at) => Some(at.2),
            None => match plain_time_of(value@, DATABASE_FORMAT@) {
                Some(at) => Some(at.2),
                None => None,
            },
        },
{
    match parse_rfc3339(value) {
        Some(at) => Some(at.2),
        None => match parse_plain(value, DATABASE_FORMAT) {
            Some(at) => Some(at.2),
            None => None,
        },
    }
}

/// Writes a moment as RFC 3339.
pub fn moment_text(at: Moment) -> (result: Option<String>)
    ensures
        match result {
            Some(text) => rfc3339_text(at.seconds, at.nanos) == Some(text@),
            None => rfc3339_text(at.seconds, at.nanos) is None,
        },
        in_range(at.seconds, at.nanos) ==> result is Some,
        in_calendar(at.seconds, at.nanos) ==> result is Some && rfc3339_of(result->0@) == Some(
            (at.seconds, at.nanos, (at.seconds * 1000 + at.nanos / 1_000_000) as i64),
        ),
{
    format_rfc3339(at.seconds, at.nanos)
}

/// Writes a moment in the form of the database.
pub fn database_text(at: Moment) -> (result: Option<String>)
    ensures
        match result {
            Some(text) => plain_text(at.seconds, at.nanos, DATABASE_FORMAT@) == Some(text@),
            None => plain_text(at.seconds, at.nanos, DATABASE_FORMAT@) is None,
        },
{
    format_plain(at.seconds, at.nanos, DATABASE_FORMAT)
}

/// The nanoseconds that have passed since a moment.
pub fn elapsed_since(now: Moment, then: Moment) -> (result: Option<u128>)
    ensures
        result == elapsed_of(now.seconds, now.nanos, then.seconds, then.nanos),
        in_calendar(now.seconds, now.nanos) && in_calendar(then.seconds, then.nanos) ==> result
            == plain_difference(now, then),
{
    duration_since(now, then)
}

/// Moments are ordered by the nanoseconds they stand for, and the time between
/// two is how many lie between them; there is none where the first comes later.
pub proof fn law_moments_are_counted_in_nanoseconds(now: Moment, then: Moment)
    requires
        now.nanos < 1_000_000_000,
        then.nanos < 1_000_000_000,
    ensures
        now.reached(then) <==> now.seconds * 1_000_000_000 + now.nanos >= then.seconds
            * 1_000_000_000 + then.nanos,
        plain_difference(now, then) is Some <==> now.reached(then),
        plain_difference(now, then) matches Some(d) ==> then.seconds * 1_000_000_000 + then.nanos
            + d == now.seconds * 1_000_000_000 + now.nanos,
{
}

/// A text that names its zone is read by it, and only one that does not is read
/// as a plain time.
pub proof fn law_named_zones_come_first(
    zoned: Option<(i64, u32, i64)>,
    plain: Option<(i64, u32, i64)>,
)
    ensures
        zoned matches Some(at) ==> moment_from(zoned, plain) == Some(
            Moment { seconds: at.0, nanos: at.1 },
        ),
        zoned is None ==> (plain matches Some(at) ==> moment_from(zoned, plain) == Some(
            Moment { seconds: at.0, nanos: at.1 },
        )),
        moment_from(zoned, plain) is None <==> zoned is None && plain is None,
{
}

} // verus!

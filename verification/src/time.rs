//! Instants as plain values, checked and read with `chrono`.

use vstd::prelude::*;

verus! {

/// An instant: the whole seconds since the start of 1970 in UTC, and the
/// nanoseconds after that second.
#[derive(Clone, Copy, Debug, PartialEq, Eq, Structural)]
pub struct Timestamp {
    pub secs: i64,
    pub nanos: u32,
}

/// Whether `chrono::DateTime::from_timestamp` makes a date of these seconds
/// and nanoseconds.
pub uninterp spec fn is_datetime(secs: i64, nanos: u32) -> bool;

/// What `chrono::DateTime::parse_from_rfc3339` makes of a text: the instant
/// it names, or the message of the error that the text is refused with.
pub uninterp spec fn rfc3339_instant(text: Seq<char>) -> Result<Timestamp, Seq<char>>;

/// How `chrono::DateTime::to_rfc3339` writes the date that
/// `chrono::DateTime::from_timestamp` makes of these seconds and
/// nanoseconds; nothing where it makes none.
pub uninterp spec fn rfc3339_text(secs: i64, nanos: u32) -> Option<Seq<char>>;

/// Asks `chrono::DateTime::from_timestamp` whether it makes a date of these
/// seconds and nanoseconds. The contract claims only that the answer is the
/// same every time.
#[verifier::external_body]
fn datetime_exists(secs: i64, nanos: u32) -> (ok: bool)
    ensures
        ok == is_datetime(secs, nanos),
{
    chrono::DateTime::from_timestamp(secs, nanos).is_some()
}

/// Parses a text with `chrono::DateTime::parse_from_rfc3339` and hands out
/// the instant as seconds and nanoseconds, or the error's message. The
/// contract claims only that the outcome is the same every time.
#[verifier::external_body]
fn read_rfc3339(text: &str) -> (r: Result<Timestamp, String>)
    ensures
        match r {
            Ok(t) => rfc3339_instant(text@) == Ok::<Timestamp, Seq<char>>(t),
            Err(message) => rfc3339_instant(text@) == Err::<Timestamp, Seq<char>>(message@),
        },
{
    match chrono::DateTime::parse_from_rfc3339(text) {
        Ok(d) => Ok(Timestamp { secs: d.timestamp(), nanos: d.timestamp_subsec_nanos() }),
        Err(e) => Err(e.to_string()),
    }
}

/// Writes an instant with `chrono::DateTime::to_rfc3339`, where
/// `chrono::DateTime::from_timestamp` makes a date of it. The contract
/// claims only that the outcome is the same every time.
#[verifier::external_body]
fn write_rfc3339(secs: i64, nanos: u32) -> (r: Option<String>)
    ensures
        match r {
            Some(text) => rfc3339_text(secs, nanos) == Some(text@),
            None => rfc3339_text(secs, nanos) is None,
        },
{
    match chrono::DateTime::from_timestamp(secs, nanos) {
        Some(d) => Some(d.to_rfc3339()),
        None => None,
    }
}

impl Timestamp {
    /// Whether this instant comes strictly before `other`.
    pub open spec fn before(self, other: Timestamp) -> bool {
        self.secs < other.secs || (self.secs == other.secs && self.nanos < other.nanos)
    }

    /// Whether this instant is a date that can be represented.
    pub open spec fn valid(self) -> bool {
        is_datetime(self.secs, self.nanos)
    }

    /// Whether this instant comes strictly before `other`.
    pub fn is_before(&self, other: &Timestamp) -> (b: bool)
        ensures
            b == self.before(*other),
    {
        self.secs < other.secs || (self.secs == other.secs && self.nanos < other.nanos)
    }

    /// Whether this instant is a date that can be represented.
    pub fn is_valid(&self) -> (b: bool)
        ensures
            b == self.valid(),
    {
        datetime_exists(self.secs, self.nanos)
    }

    /// Reads an instant written as an RFC 3339 date.
    pub fn parse(text: &str) -> (r: Result<Timestamp, String>)
        ensures
            match r {
                Ok(t) => rfc3339_instant(text@) == Ok::<Timestamp, Seq<char>>(t),
                Err(message) => rfc3339_instant(text@) == Err::<Timestamp, Seq<char>>(message@),
            },
    {
        read_rfc3339(text)
    }

    /// The instant written as an RFC 3339 date, where it is a date that can
    /// be represented.
    pub fn to_rfc3339(&self) -> (r: Option<String>)
        ensures
            match r {
                Some(text) => rfc3339_text(self.secs, self.nanos) == Some(text@),
                None => rfc3339_text(self.secs, self.nanos) is None,
            },
    {
        write_rfc3339(self.secs, self.nanos)
    }
}

} // verus!

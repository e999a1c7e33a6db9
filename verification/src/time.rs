//! Instants of time as plain integers.
//!
//! An instant is a count of whole seconds since 1970-01-01T00:00:00Z and a
//! count of nanoseconds within that second; a [`Timestamp`] also remembers
//! the offset from UTC it was written with. Two instants are ordered by
//! (seconds, nanoseconds), which is how `chrono` orders its `DateTime`
//! values whatever their offsets.
//!
//! Reading and writing the RFC 3339 text of an instant is left to `chrono`.
//! What it returns is not spelled out here: each result has a name, and the
//! contracts of this crate speak of those names.

use vstd::prelude::*;

verus! {

/// 0000-01-01T00:00:00Z, the first second RFC 3339 can write.
pub const MIN_UTC_SECS: i64 = -62_167_219_200;

/// 9999-12-31T23:59:59Z, the last second RFC 3339 can write.
pub const MAX_UTC_SECS: i64 = 253_402_300_799;

/// Seconds in a day without a leap second.
pub const DAY_SECS: i64 = 86_400;

/// Nanoseconds in a second.
pub const SECOND_NANOS: u32 = 1_000_000_000;

/// What `chrono::DateTime::parse_from_rfc3339` makes of `text`: nothing, or
/// the seconds since the epoch, the nanoseconds within the second and the
/// offset east of UTC in seconds of the instant it read.
pub uninterp spec fn rfc3339_fields(text: Seq<char>) -> Option<(i64, u32, i32)>;

/// The text `chrono::DateTime::to_rfc3339` writes for the instant
/// (`secs`, `nanos`) shown at `offset` seconds east of UTC.
pub uninterp spec fn rfc3339_text(secs: i64, nanos: u32, offset: i32) -> Seq<char>;

/// The text `chrono` writes for the format `%Y`, the year, of the instant
/// (`secs`, `nanos`) in UTC.
pub uninterp spec fn utc_year_text(secs: i64, nanos: u32) -> Seq<char>;

/// Calls `chrono::DateTime::parse_from_rfc3339` and takes the result apart
/// with `timestamp`, `timestamp_subsec_nanos` and
/// `offset().local_minus_utc()`. Nothing is claimed of the result but that
/// it depends on the text alone.
#[verifier::external_body]
fn parse_fields(text: &str) -> (r: Option<(i64, u32, i32)>)
    ensures
        r == rfc3339_fields(text@),
{
    match chrono::DateTime::parse_from_rfc3339(text) {
        Ok(t) => Some((t.timestamp(), t.timestamp_subsec_nanos(), t.offset().local_minus_utc())),
        Err(_) => None,
    }
}

/// Builds the `chrono::DateTime` of the instant with `from_timestamp`, moves
/// it to the offset with `with_timezone` and calls `to_rfc3339`. The
/// precondition keeps to instants and offsets that `chrono` represents, so
/// neither construction fails. Nothing is claimed of the text but that it
/// depends on the three numbers alone.
#[verifier::external_body]
fn format_rfc3339(secs: i64, nanos: u32, offset: i32) -> (r: String)
    requires
        Timestamp::representable(secs, nanos, offset),
    ensures
        r@ == rfc3339_text(secs, nanos, offset),
{
    let utc = chrono::DateTime::from_timestamp(secs, nanos).unwrap();
    let zone = chrono::FixedOffset::east_opt(offset).unwrap();
    utc.with_timezone(&zone).to_rfc3339()
}

/// Builds the `chrono::DateTime` of the instant with `from_timestamp` and
/// formats it with `%Y`. The precondition keeps to instants that `chrono`
/// represents. Nothing is claimed of the text but that it depends on the
/// two numbers alone.
#[verifier::external_body]
fn format_utc_year(secs: i64, nanos: u32) -> (r: String)
    requires
        UtcTime::in_range(secs, nanos),
    ensures
        r@ == utc_year_text(secs, nanos),
{
    let utc = chrono::DateTime::from_timestamp(secs, nanos).unwrap();
    utc.format("%Y").to_string()
}

/// Whether the instant (`s1`, `n1`) is strictly earlier than (`s2`, `n2`).
pub open spec fn instant_lt(s1: int, n1: int, s2: int, n2: int) -> bool {
    s1 < s2 || (s1 == s2 && n1 < n2)
}

/// An instant of the clock, in UTC: between the years 0 and 9999 and never
/// inside a leap second.
#[derive(Clone, Copy, Debug, PartialEq, Eq)]
pub struct UtcTime {
    secs: i64,
    nanos: u32,
}

impl UtcTime {
    #[verifier::type_invariant]
    spec fn valid(self) -> bool {
        UtcTime::in_range(self.secs, self.nanos)
    }

    /// The instants a `UtcTime` can hold.
    pub open spec fn in_range(secs: i64, nanos: u32) -> bool {
        MIN_UTC_SECS <= secs <= MAX_UTC_SECS && nanos < SECOND_NANOS
    }

    /// Whole seconds since the epoch.
    pub closed spec fn secs(self) -> i64 {
        self.secs
    }

    /// Nanoseconds within the second.
    pub closed spec fn nanos(self) -> u32 {
        self.nanos
    }

    /// The instant (`secs`, `nanos`), if a `UtcTime` can hold it.
    pub fn new(secs: i64, nanos: u32) -> (r: Option<UtcTime>)
        ensures
            r is Some <==> UtcTime::in_range(secs, nanos),
            r matches Some(t) ==> t.secs() == secs && t.nanos() == nanos,
    {
        if MIN_UTC_SECS <= secs && secs <= MAX_UTC_SECS && nanos < SECOND_NANOS {
            Some(UtcTime { secs, nanos })
        } else {
            None
        }
    }

    /// Whole seconds since the epoch.
    pub fn timestamp(&self) -> (r: i64)
        ensures
            r == self.secs(),
            MIN_UTC_SECS <= r <= MAX_UTC_SECS,
    {
        proof {
            use_type_invariant(self);
        }
        self.secs
    }

    /// Nanoseconds within the second.
    pub fn subsec_nanos(&self) -> (r: u32)
        ensures
            r == self.nanos(),
            r < SECOND_NANOS,
    {
        proof {
            use_type_invariant(self);
        }
        self.nanos
    }

    /// The RFC 3339 text of this instant.
    pub fn to_rfc3339(&self) -> (r: String)
        ensures
            r@ == rfc3339_text(self.secs(), self.nanos(), 0),
    {
        proof {
            use_type_invariant(self);
        }
        format_rfc3339(self.secs, self.nanos, 0)
    }

    /// The year of this instant, as text.
    pub fn year_text(&self) -> (r: String)
        ensures
            r@ == utc_year_text(self.secs(), self.nanos()),
    {
        proof {
            use_type_invariant(self);
        }
        format_utc_year(self.secs, self.nanos)
    }

    /// The same instant as a timestamp written at offset zero.
    pub fn at_zero_offset(&self) -> (r: Timestamp)
        ensures
            r == Timestamp::of(self.secs(), self.nanos(), 0),
            r.secs() == self.secs(),
            r.nanos() == self.nanos(),
            r.offset() == 0,
    {
        proof {
            use_type_invariant(self);
        }
        Timestamp { secs: self.secs, nanos: self.nanos, offset: 0 }
    }
}

/// An instant together with the offset from UTC it is shown at.
///
/// The instant lies within a day of the years 0 to 9999; the nanoseconds
/// reach into a second billion only inside a leap second, which `chrono`
/// files under the 59th second of a minute; the offset is less than a day.
#[derive(Clone, Copy, Debug, PartialEq, Eq)]
pub struct Timestamp {
    secs: i64,
    nanos: u32,
    offset: i32,
}

impl Timestamp {
    #[verifier::type_invariant]
    spec fn valid(self) -> bool {
        Timestamp::representable(self.secs, self.nanos, self.offset)
    }

    /// The instants and offsets a `Timestamp` can hold.
    pub open spec fn representable(secs: i64, nanos: u32, offset: i32) -> bool {
        &&& MIN_UTC_SECS - DAY_SECS <= secs <= MAX_UTC_SECS + DAY_SECS
        &&& (nanos < SECOND_NANOS || (nanos < 2 * SECOND_NANOS && secs % 60 == 59))
        &&& -DAY_SECS < offset < DAY_SECS
    }

    /// The timestamp with the given fields.
    pub closed spec fn of(secs: i64, nanos: u32, offset: i32) -> Timestamp {
        Timestamp { secs, nanos, offset }
    }

    /// Whole seconds since the epoch.
    pub closed spec fn secs(self) -> i64 {
        self.secs
    }

    /// Nanoseconds within the second.
    pub closed spec fn nanos(self) -> u32 {
        self.nanos
    }

    /// Seconds east of UTC.
    pub closed spec fn offset(self) -> i32 {
        self.offset
    }

    /// Whether this instant is strictly earlier than `other`, whatever the
    /// offsets.
    pub open spec fn before(self, other: Timestamp) -> bool {
        instant_lt(self.secs() as int, self.nanos() as int, other.secs() as int, other.nanos() as int)
    }

    /// A timestamp is its three fields.
    pub proof fn lemma_fields(secs: i64, nanos: u32, offset: i32)
        ensures
            Timestamp::of(secs, nanos, offset).secs() == secs,
            Timestamp::of(secs, nanos, offset).nanos() == nanos,
            Timestamp::of(secs, nanos, offset).offset() == offset,
    {
    }

    /// Timestamps with the same fields are the same.
    pub proof fn lemma_same(a: Timestamp, b: Timestamp)
        requires
            a.secs() == b.secs(),
            a.nanos() == b.nanos(),
            a.offset() == b.offset(),
        ensures
            a == b,
    {
    }

    /// The timestamp with the given fields, if a `Timestamp` can hold them.
    pub fn new(secs: i64, nanos: u32, offset: i32) -> (r: Option<Timestamp>)
        ensures
            r == (if Timestamp::representable(secs, nanos, offset) {
                Some(Timestamp::of(secs, nanos, offset))
            } else {
                None
            }),
            r matches Some(t) ==> t.secs() == secs && t.nanos() == nanos && t.offset() == offset,
    {
        if secs < MIN_UTC_SECS - DAY_SECS || secs > MAX_UTC_SECS + DAY_SECS {
            return None;
        }
        if offset <= -86_400 || offset >= 86_400 {
            return None;
        }
        if nanos >= SECOND_NANOS {
            let shifted: i64 = secs - (MIN_UTC_SECS - DAY_SECS);
            if nanos >= 2 * SECOND_NANOS || shifted % 60 != 59 {
                return None;
            }
        }
        Some(Timestamp { secs, nanos, offset })
    }

    /// Whole seconds since the epoch.
    pub fn timestamp(&self) -> (r: i64)
        ensures
            r == self.secs(),
            MIN_UTC_SECS - DAY_SECS <= r <= MAX_UTC_SECS + DAY_SECS,
    {
        proof {
            use_type_invariant(self);
        }
        self.secs
    }

    /// Nanoseconds within the second.
    pub fn subsec_nanos(&self) -> (r: u32)
        ensures
            r == self.nanos(),
            r < 2 * SECOND_NANOS,
    {
        proof {
            use_type_invariant(self);
        }
        self.nanos
    }

    /// Seconds east of UTC.
    pub fn offset_secs(&self) -> (r: i32)
        ensures
            r == self.offset(),
            -DAY_SECS < r < DAY_SECS,
    {
        proof {
            use_type_invariant(self);
        }
        self.offset
    }

    /// Whether this instant is strictly earlier than `other`.
    pub fn is_before(&self, other: &Timestamp) -> (r: bool)
        ensures
            r == self.before(*other),
    {
        self.secs < other.secs || (self.secs == other.secs && self.nanos < other.nanos)
    }

    /// The RFC 3339 text of this timestamp.
    pub fn to_rfc3339(&self) -> (r: String)
        ensures
            r@ == rfc3339_text(self.secs(), self.nanos(), self.offset()),
    {
        proof {
            use_type_invariant(self);
        }
        format_rfc3339(self.secs, self.nanos, self.offset)
    }

    /// The timestamp that the fields read from a text stand for: none where
    /// nothing was read, and none for fields no `Timestamp` can hold.
    pub fn from_fields(fields: Option<(i64, u32, i32)>) -> (r: Option<Timestamp>)
        ensures
            r == timestamp_of(fields),
    {
        match fields {
            Some((secs, nanos, offset)) => Timestamp::new(secs, nanos, offset),
            None => None,
        }
    }

    /// Reads an RFC 3339 text.
    pub fn parse(text: &str) -> (r: Option<Timestamp>)
        ensures
            r == parsed_time(text@),
    {
        Timestamp::from_fields(parse_fields(text))
    }

    /// Reads an RFC 3339 text that may be absent.
    pub fn parse_opt(text: &Option<String>) -> (r: Option<Timestamp>)
        ensures
            r == parsed_opt(crate::text::opt_text(*text)),
    {
        match text {
            Some(s) => Timestamp::parse(s.as_str()),
            None => None,
        }
    }
}

/// The timestamp that the fields read from a text stand for.
pub open spec fn timestamp_of(fields: Option<(i64, u32, i32)>) -> Option<Timestamp> {
    match fields {
        Some((secs, nanos, offset)) => if Timestamp::representable(secs, nanos, offset) {
            Some(Timestamp::of(secs, nanos, offset))
        } else {
            None
        },
        None => None,
    }
}

/// The timestamp an RFC 3339 text stands for, if it is one.
pub open spec fn parsed_time(text: Seq<char>) -> Option<Timestamp> {
    timestamp_of(rfc3339_fields(text))
}

/// The timestamp an optional RFC 3339 text stands for.
pub open spec fn parsed_opt(text: Option<Seq<char>>) -> Option<Timestamp> {
    match text {
        Some(t) => parsed_time(t),
        None => None,
    }
}

} // verus!

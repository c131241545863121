//! Timestamps and event ids: the values that come from the clock, from a
//! random generator, or from reading a date.

use vstd::prelude::*;

verus! {

/// A point in time: whole seconds since the Unix epoch and the nanoseconds
/// past that second. A leap second counts past one thousand million.
#[derive(Clone, Copy, Debug, PartialEq, Eq, Structural)]
pub struct Timestamp {
    pub seconds: i64,
    pub nanos: i32,
}

/// The nanosecond counts that a timestamp can carry.
pub open spec fn nanos_in_range(nanos: int) -> bool {
    0 <= nanos < 2_000_000_000
}

/// The instant that a date in RFC 3339 form denotes, as seconds since the Unix
/// epoch and nanoseconds, or `None` where the text is no such date.
pub uninterp spec fn rfc3339_instant(text: Seq<char>) -> Option<(i64, u32)>;

/// `chrono::DateTime::parse_from_rfc3339`, read off as `timestamp` and
/// `timestamp_subsec_nanos`. What it reads out of a text depends on the text
/// alone. The nanoseconds run past one thousand million in a leap second and
/// never reach two thousand million.
#[verifier::external_body]
fn read_rfc3339(text: &str) -> (instant: Option<(i64, u32)>)
    ensures
        instant == rfc3339_instant(text@),
        instant matches Some((_, nanos)) ==> nanos_in_range(nanos as int),
{
    match chrono::DateTime::parse_from_rfc3339(text) {
        Ok(date) => Some((date.timestamp(), date.timestamp_subsec_nanos())),
        Err(_) => None,
    }
}

/// `chrono::Utc::now`, read off as `timestamp` and `timestamp_subsec_nanos`.
/// What the clock shows is left open, but for the nanoseconds, which stay below
/// one second: the clock knows no leap seconds. The call panics on a machine
/// whose clock stands before the Unix epoch.
#[verifier::external_body]
fn read_clock() -> (instant: (i64, u32))
    ensures
        instant.1 < 1_000_000_000,
{
    let now = chrono::Utc::now();
    (now.timestamp(), now.timestamp_subsec_nanos())
}

/// Whether `c` is a lower-case hexadecimal digit.
pub open spec fn is_lower_hex(c: char) -> bool {
    '0' <= c <= '9' || 'a' <= c <= 'f'
}

/// The written form of a random (version 4) UUID: 32 lower-case hexadecimal
/// digits in groups of 8, 4, 4, 4 and 12, the third group starting with the
/// version, the fourth with the variant.
pub open spec fn is_random_uuid(text: Seq<char>) -> bool {
    &&& text.len() == 36
    &&& forall|i: int| #![trigger text[i]]
        0 <= i < 36 ==> if i == 8 || i == 13 || i == 18 || i == 23 {
            text[i] == '-'
        } else {
            is_lower_hex(text[i])
        }
    &&& text[14] == '4'
    &&& text[19] == '8' || text[19] == '9' || text[19] == 'a' || text[19] == 'b'
}

/// `uuid::Uuid::new_v4`, written out with `to_string`. Which UUID comes is a
/// matter of chance; its written form is not. The call panics on a machine
/// that has no random numbers to give.
#[verifier::external_body]
pub(crate) fn new_event_id() -> (id: String)
    ensures
        is_random_uuid(id@),
{
    uuid::Uuid::new_v4().to_string()
}

/// Whether `at` is what an event's `occurred_at` field stands for: the instant
/// that it denotes where it is a date in RFC 3339 form, and some reading of
/// the clock otherwise, of which only the nanoseconds are bounded.
pub open spec fn stands_for(at: Timestamp, occurred_at: Seq<char>) -> bool {
    match rfc3339_instant(occurred_at) {
        Some((seconds, nanos)) => at.seconds == seconds && at.nanos == nanos,
        None => 0 <= at.nanos < 1_000_000_000,
    }
}

/// The timestamp that `read` gives, or the one of `now` where nothing was read.
pub fn timestamp_or(read: Option<(i64, u32)>, now: (i64, u32)) -> (at: Timestamp)
    requires
        read matches Some((_, nanos)) ==> nanos_in_range(nanos as int),
        nanos_in_range(now.1 as int),
    ensures
        at == (match read {
            Some((seconds, nanos)) => Timestamp { seconds, nanos: nanos as i32 },
            None => Timestamp { seconds: now.0, nanos: now.1 as i32 },
        }),
{
    match read {
        Some((seconds, nanos)) => Timestamp { seconds, nanos: nanos as i32 },
        None => Timestamp { seconds: now.0, nanos: now.1 as i32 },
    }
}

/// Reads an event's `occurred_at` field; a field that is no RFC 3339 date
/// gives the present time.
pub fn parse_occurred_at(occurred_at: &str) -> (at: Timestamp)
    ensures
        stands_for(at, occurred_at@),
        nanos_in_range(at.nanos as int),
{
    let read = read_rfc3339(occurred_at);
    match read {
        Some(_) => timestamp_or(read, (0, 0)),
        None => timestamp_or(None, read_clock()),
    }
}

} // verus!

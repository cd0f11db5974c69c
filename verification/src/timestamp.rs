//! Expiry instants: UTC timestamps as plain values, and the RFC 3339 text
//! form they take inside a credential's plaintext.

use vstd::prelude::*;

verus! {

/// The last second the credential's timestamp text can carry:
/// 9999-12-31T23:59:59 UTC. Later instants would need a widened year field,
/// which the RFC 3339 parser is not promised to accept back.
pub const MAX_FORMAT_SECS: i64 = 253402300799;

/// A UTC instant: whole seconds since the Unix epoch, and nanoseconds since
/// that second. Nanoseconds can reach into a second leap-second range when
/// parsed from text.
#[derive(Clone, Copy, Debug, PartialEq, Eq, Structural)]
pub struct Timestamp {
    pub secs: i64,
    pub nanos: u32,
}

impl Timestamp {
    /// The nanosecond field stays below two seconds' worth; values at or
    /// above one second stand for a leap second.
    pub open spec fn wf(self) -> bool {
        self.nanos < 2_000_000_000
    }
}

/// The RFC 3339 rendering of an instant, as chrono's formatter writes it:
/// named, since the calendar arithmetic behind it is the cipher date
/// library's own.
pub uninterp spec fn spec_rfc3339_format(secs: i64, nanos: u32) -> Seq<u8>;

/// What parsing RFC 3339 text and normalizing to UTC yields: the instant as
/// (seconds, nanoseconds), or nothing where the text is rejected.
/// Deterministic in the text alone.
pub uninterp spec fn spec_rfc3339_parse(b: Seq<u8>) -> Option<(i64, u32)>;

/// Relies on chrono's Utc::now, DateTime::timestamp and
/// DateTime::timestamp_subsec_nanos: the clock reading is at or after the
/// Unix epoch (Utc::now stops otherwise) and its nanosecond part is below
/// one second.
#[verifier::external_body]
pub(crate) fn clock_now() -> (r: (i64, u32))
    ensures
        0 <= r.0,
        r.1 < 1_000_000_000,
{
    let now = chrono::Utc::now();
    (now.timestamp(), now.timestamp_subsec_nanos())
}

/// Relies on chrono's DateTime::from_timestamp and DateTime::to_rfc3339:
/// an in-range instant renders as an ASCII date-time with explicit offset
/// (digits and `+-.:T`, all in the byte range 43..=84, at least 20 bytes),
/// and parse_from_rfc3339 reads the same instant back.
#[verifier::external_body]
pub(crate) fn rfc3339_format(secs: i64, nanos: u32) -> (r: Vec<u8>)
    requires
        0 <= secs <= MAX_FORMAT_SECS,
        nanos < 1_000_000_000,
    ensures
        r@ == spec_rfc3339_format(secs, nanos),
        r@.len() >= 20,
        forall|i: int| 0 <= i < r@.len() ==> 43 <= #[trigger] r@[i] <= 84,
        spec_rfc3339_parse(r@) == Some((secs, nanos)),
{
    let dt = chrono::DateTime::<chrono::Utc>::from_timestamp(secs, nanos).unwrap();
    dt.to_rfc3339().into_bytes()
}

/// Relies on str::from_utf8 and chrono's DateTime::parse_from_rfc3339,
/// DateTime::with_timezone, DateTime::timestamp and
/// DateTime::timestamp_subsec_nanos: text is either rejected or read as one
/// instant, whose nanosecond field stays below two seconds' worth.
#[verifier::external_body]
pub(crate) fn rfc3339_parse(b: &[u8]) -> (r: Option<(i64, u32)>)
    ensures
        match r {
            Some(t) => spec_rfc3339_parse(b@) == Some(t) && t.1 < 2_000_000_000,
            None => spec_rfc3339_parse(b@) is None,
        },
{
    let s = match core::str::from_utf8(b) {
        Ok(s) => s,
        Err(_) => return None,
    };
    match chrono::DateTime::parse_from_rfc3339(s) {
        Ok(dt) => {
            let utc = dt.with_timezone(&chrono::Utc);
            Some((utc.timestamp(), utc.timestamp_subsec_nanos()))
        },
        Err(_) => None,
    }
}

} // verus!

//! Rendering of the provenance instant as an RFC 3339 timestamp in UTC.
use vstd::prelude::*;

verus! {

/// The RFC 3339 rendering, at UTC offset and whole-second precision, of the
/// instant `secs` non-leap seconds after the Unix epoch. A function of the
/// instant alone.
pub uninterp spec fn rfc3339_of(secs: int) -> Seq<char>;

/// Least unix second whose UTC calendar date is representable.
pub const MIN_RENDERABLE_SECS: i64 = -8334601228800;

/// Greatest unix second whose UTC calendar date is representable.
pub const MAX_RENDERABLE_SECS: i64 = 8210266876799;

/// Whether `secs` denotes a representable UTC instant.
pub open spec fn renderable(secs: i64) -> bool {
    MIN_RENDERABLE_SECS <= secs <= MAX_RENDERABLE_SECS
}

/// Relies on chrono's `DateTime::<Utc>::from_timestamp` (`Some` exactly on
/// the representable range of seconds, the year range of `NaiveDate`) and
/// `DateTime::to_rfc3339` (a pure rendering of the instant).
#[verifier::external_body]
pub fn rfc3339_utc(secs: i64) -> (r: Option<String>)
    ensures
        r is Some <==> renderable(secs),
        r matches Some(s) ==> s@ == rfc3339_of(secs as int),
{
    match chrono::DateTime::<chrono::Utc>::from_timestamp(secs, 0) {
        Some(instant) => Some(instant.to_rfc3339()),
        None => None,
    }
}

} // verus!

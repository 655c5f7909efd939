//! The local clock and the rendering of moments as text.

use vstd::prelude::*;
use crate::games::manifest::Timestamp;

verus! {

/// The text that shows the moment `unix_nanos` nanoseconds after the Unix epoch
/// at the offset of `offset_seconds` seconds from UTC, or `None` where the
/// offset or the moment at that offset is outside what dates can express.
pub uninterp spec fn rendered_time(unix_nanos: i128, offset_seconds: i32) -> Option<Seq<char>>;

/// Trusted: the `Display` form of an `OffsetDateTime` of the time crate. The
/// two numbers are first turned into the moment it shows, with the crate's own
/// constructors `UtcOffset::from_whole_seconds`,
/// `OffsetDateTime::from_unix_timestamp_nanos` and
/// `OffsetDateTime::checked_to_offset`; each of them refuses a value out of
/// range, and then there is no text. The text depends on the two numbers
/// alone.
#[verifier::external_body]
pub(crate) fn render_time(unix_nanos: i128, offset_seconds: i32) -> (r: Option<String>)
    ensures
        match r {
            Some(text) => rendered_time(unix_nanos, offset_seconds) == Some(text@),
            None => rendered_time(unix_nanos, offset_seconds) is None,
        },
{
    let offset = time::UtcOffset::from_whole_seconds(offset_seconds).ok()?;
    let moment = time::OffsetDateTime::from_unix_timestamp_nanos(unix_nanos).ok()?;
    Some(moment.checked_to_offset(offset)?.to_string())
}

/// Trusted: `UtcOffset::current_local_offset` of the time crate, as whole
/// seconds. The offset is the machine's own, and the call may fail to determine
/// it, so nothing is stated of the result.
#[verifier::external_body]
pub(crate) fn current_local_offset() -> (r: Option<i32>) {
    match time::UtcOffset::current_local_offset() {
        Ok(offset) => Some(offset.whole_seconds()),
        Err(_) => None,
    }
}

/// Trusted: `OffsetDateTime::now_local` of the time crate: the current moment
/// with the machine's local offset. The call may fail to determine the offset,
/// and the moment is the clock's, so nothing is stated of the result.
#[verifier::external_body]
pub(crate) fn now_local() -> (r: Option<Timestamp>) {
    match time::OffsetDateTime::now_local() {
        Ok(now) => Some(
            Timestamp {
                unix_nanos: now.unix_timestamp_nanos(),
                offset_seconds: now.offset().whole_seconds(),
            },
        ),
        Err(_) => None,
    }
}

/// The offset in which times are shown to the operator: the local offset, or
/// the offset stored with the repository's time where the local one is not
/// known.
pub open spec fn shown_offset(local: Option<i32>, stored: i32) -> i32 {
    match local {
        Some(offset) => offset,
        None => stored,
    }
}

/// The offset in which times are shown to the operator.
pub fn display_offset(local: Option<i32>, stored: i32) -> (r: i32)
    ensures
        r == shown_offset(local, stored),
{
    match local {
        Some(offset) => offset,
        None => stored,
    }
}

} // verus!

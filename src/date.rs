//! Commit timestamps and their RFC 2822 rendering in the commit's own zone.

use vstd::prelude::*;

verus! {

/// The first second of year 0, in seconds since the Unix epoch.
pub const FIRST_RENDERABLE_SECOND: i64 = -62167219200;

/// The first second of year 10000, in seconds since the Unix epoch.
pub const END_OF_RENDERABLE_SECONDS: i64 = 253402300800;

/// What chrono renders for an instant seen at a fixed offset: it depends on
/// the two numbers alone.
pub uninterp spec fn rfc2822_of(seconds: i64, offset_seconds: i32) -> Seq<char>;

/// Relies on chrono's `FixedOffset::east_opt` (some offset exactly when it
/// lies strictly within a day), `DateTime::from_timestamp` (some instant for
/// roughly 262,000 years around the epoch), `DateTime::with_timezone` and
/// `DateTime::to_rfc2822`, which renders years 0 through 9999 of local time
/// and panics on any other.
#[verifier::external_body]
fn rfc2822_text(seconds: i64, offset_seconds: i32) -> (r: String)
    requires
        -86400 < offset_seconds < 86400,
        FIRST_RENDERABLE_SECOND <= seconds + offset_seconds < END_OF_RENDERABLE_SECONDS,
    ensures
        r@ == rfc2822_of(seconds, offset_seconds),
{
    let offset = chrono::FixedOffset::east_opt(offset_seconds).expect("offset within a day");
    let instant = chrono::DateTime::from_timestamp(seconds, 0).expect("instant in range");
    instant.with_timezone(&offset).to_rfc2822()
}

/// When a commit was made: seconds since the Unix epoch and the offset from
/// UTC of the committer's zone, in minutes.
#[derive(Debug, Clone, Copy, PartialEq, Eq, Structural)]
pub struct CommitDate {
    pub seconds: i64,
    pub offset_minutes: i32,
}

/// The date can be rendered: its offset lies strictly within a day and its
/// local time falls in years 0 through 9999.
pub open spec fn renderable(seconds: i64, offset_minutes: i32) -> bool {
    let offset = offset_minutes * 60;
    &&& -86400 < offset < 86400
    &&& FIRST_RENDERABLE_SECOND <= seconds + offset < END_OF_RENDERABLE_SECONDS
}

impl CommitDate {
    pub fn new(seconds: i64, offset_minutes: i32) -> (r: CommitDate)
        ensures
            r.seconds == seconds,
            r.offset_minutes == offset_minutes,
    {
        CommitDate { seconds, offset_minutes }
    }

    /// The date as RFC 2822 text in the committer's zone, such as
    /// `Tue, 1 Jul 2003 10:52:37 +0200`; none where it cannot be rendered.
    pub fn to_rfc2822(&self) -> (r: Option<String>)
        ensures
            r is Some <==> renderable(self.seconds, self.offset_minutes),
            r matches Some(s) ==> s@ == rfc2822_of(self.seconds, (self.offset_minutes * 60) as i32),
    {
        let offset: i64 = self.offset_minutes as i64 * 60;
        if offset <= -86400 || offset >= 86400 {
            return None;
        }
        let local: i128 = self.seconds as i128 + offset as i128;
        if local < FIRST_RENDERABLE_SECOND as i128 || local >= END_OF_RENDERABLE_SECONDS as i128 {
            return None;
        }
        Some(rfc2822_text(self.seconds, offset as i32))
    }
}

} // verus!

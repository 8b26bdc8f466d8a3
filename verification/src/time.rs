use vstd::prelude::*;
use chrono::TimeZone;

verus! {

use crate::model::DecodeError;

/// The rendered US-Eastern date-time text for an instant given as whole
/// seconds since the epoch, or nothing when the instant lies outside the
/// range the calendar arithmetic supports. Spelling the text out would take
/// pages; naming it lets contracts pin that equal inputs render equally.
pub uninterp spec fn eastern_render(secs: u64) -> Option<Seq<char>>;

/// Relies on chrono's `TimeZone::timestamp_opt` on `Utc`, on
/// `DateTime::with_timezone` with `chrono_tz::US::Eastern`, and on the
/// `Display` of the resulting date-time: the text is a function of the
/// second count and of the time-zone tables compiled into those crates
/// alone, and the conversion yields no instant exactly when the second
/// count lies outside chrono's representable range.
#[verifier::external_body]
fn render_eastern(secs: u64) -> (r: Option<String>)
    ensures
        match r {
            Some(s) => eastern_render(secs) == Some(s@),
            None => eastern_render(secs) is None,
        },
{
    match chrono::Utc.timestamp_opt(secs as i64, 0) {
        chrono::LocalResult::Single(dt) => Some(
            dt.with_timezone(&chrono_tz::US::Eastern).to_string(),
        ),
        _ => None,
    }
}

/// Turns a raw millisecond timestamp into the rendered date text: whole
/// seconds by truncating division, then the US-Eastern rendering. Fails
/// with `InvalidTimestamp` exactly when the instant cannot be represented.
pub fn render_date(ms: u64) -> (r: Result<String, DecodeError>)
    ensures
        match r {
            Ok(s) => eastern_render(ms / 1000) == Some(s@),
            Err(e) => e == DecodeError::InvalidTimestamp && eastern_render(ms / 1000) is None,
        },
{
    let secs: u64 = ms / 1000;
    match render_eastern(secs) {
        Some(s) => Ok(s),
        None => Err(DecodeError::InvalidTimestamp),
    }
}

} // verus!

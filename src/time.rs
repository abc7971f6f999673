//! The time axis: RFC 3339 date-times as epoch milliseconds.

use vstd::prelude::*;

use crate::model::ChartError;

verus! {

/// Epoch milliseconds (UTC) of an RFC 3339 date-time, or `None` when the
/// text is not one.
pub uninterp spec fn rfc3339_millis(s: Seq<char>) -> Option<int>;

/// Relies on chrono's `DateTime::parse_from_rfc3339`, whose result is taken
/// to epoch milliseconds with `DateTime::timestamp_millis`: a function of the
/// text alone, failing exactly when the text is not RFC 3339.
#[verifier::external_body]
fn rfc3339_to_millis(s: &str) -> (r: Option<i64>)
    ensures
        match r {
            Some(ms) => rfc3339_millis(s@) == Some(ms as int),
            None => rfc3339_millis(s@) is None,
        },
{
    chrono::DateTime::parse_from_rfc3339(s).ok().map(|d| d.timestamp_millis())
}

/// Converts a wire-format timestamp to the linear time axis.
pub fn parse_timestamp(s: &str) -> (r: Result<i64, ChartError>)
    ensures
        match r {
            Ok(ms) => rfc3339_millis(s@) == Some(ms as int),
            Err(e) => e == ChartError::MalformedTimestamp && rfc3339_millis(s@) is None,
        },
{
    match rfc3339_to_millis(s) {
        Some(ms) => Ok(ms),
        None => Err(ChartError::MalformedTimestamp),
    }
}

} // verus!

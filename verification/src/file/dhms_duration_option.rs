//! Durations that may be left out.

use vstd::prelude::*;
use crate::file::dhms_duration;
use crate::file::dhms_duration::{dhms_seconds, dhms_text, DurationError};

verus! {

/// Writes a duration, if there is one.
pub fn serialize(duration: Option<i64>) -> (text: Option<String>)
    ensures
        duration is None ==> text is None,
        duration matches Some(seconds) ==> (text matches Some(t) && t@ == dhms_text(seconds as int)),
{
    match duration {
        Some(seconds) => Some(dhms_duration::serialize(seconds)),
        None => None,
    }
}

/// Reads a duration that was written down. A text always stands for a
/// duration or is wrong: leaving the duration out takes leaving the text out.
pub fn deserialize(text: &str) -> (duration: Result<Option<i64>, DurationError>)
    ensures
        match duration {
            Ok(Some(seconds)) => dhms_seconds(text@) == Ok::<int, DurationError>(seconds as int),
            Ok(None) => false,
            Err(e) => dhms_seconds(text@) == Err::<int, DurationError>(e),
        },
{
    match dhms_duration::deserialize(text) {
        Ok(seconds) => Ok(Some(seconds)),
        Err(e) => Err(e),
    }
}

} // verus!

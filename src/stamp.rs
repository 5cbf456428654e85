//! Fresh identifiers and the current time, taken from the system.

use vstd::prelude::*;

verus! {

/// A character that may stand in the hyphenated text form of a UUID.
pub open spec fn is_uuid_char(c: char) -> bool {
    ('0' <= c && c <= '9') || ('a' <= c && c <= 'f') || c == '-'
}

/// Relies on `uuid::Uuid::new_v4` and its `Display` impl: a random version 4
/// UUID, written in its hyphenated lower-case form of 36 characters, with
/// hyphens at 8, 13, 18 and 23 and the version digit `4` at 14.
#[verifier::external_body]
pub(crate) fn fresh_id() -> (r: String)
    ensures
        r@.len() == 36,
        forall|i: int| 0 <= i < r@.len() ==> is_uuid_char(#[trigger] r@[i]),
        r@[8] == '-' && r@[13] == '-' && r@[18] == '-' && r@[23] == '-',
        r@[14] == '4',
{
    uuid::Uuid::new_v4().to_string()
}

/// Relies on chrono's `From<SystemTime> for DateTime<Utc>` and
/// `DateTime::timestamp_millis`: the milliseconds since the Unix epoch at the
/// moment of the call, negative for a clock set before the epoch. Nothing is
/// promised of the value, which depends on the machine's clock. The conversion
/// panics only on a clock beyond the dates chrono represents, some 262,000
/// years from the epoch.
#[verifier::external_body]
pub(crate) fn now_millis() -> (r: i64) {
    chrono::DateTime::<chrono::Utc>::from(std::time::SystemTime::now()).timestamp_millis()
}

} // verus!

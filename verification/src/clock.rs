use vstd::prelude::*;

verus! {

/// Relies on chrono's `Utc::now().timestamp()`: the current time in
/// seconds since the epoch. Nothing is assumed of the value.
#[verifier::external_body]
pub(crate) fn current_timestamp() -> i64 {
    chrono::Utc::now().timestamp()
}

/// Relies on chrono's `Utc::now()` and its formatter: the current time
/// rendered as `YYYY-MM-DD HH:MM:SS`. Nothing is assumed of the value.
#[verifier::external_body]
pub(crate) fn current_datetime_text() -> String {
    chrono::Utc::now().format("%Y-%m-%d %H:%M:%S").to_string()
}

} // verus!

use vstd::prelude::*;

verus! {

/// Relies on `uuid::Uuid::new_v4` and the `Display` of `uuid::Uuid`: a
/// random version-4 UUID written in hyphenated form, 36 characters.
#[verifier::external_body]
pub(crate) fn new_id() -> (r: String)
    ensures
        r@.len() == 36,
{
    uuid::Uuid::new_v4().to_string()
}

/// Relies on `chrono::Utc::now` and `chrono::DateTime::to_rfc3339`: the
/// current time as RFC 3339 text. Nothing is promised of its value.
#[verifier::external_body]
pub(crate) fn now_rfc3339() -> (r: String) {
    chrono::Utc::now().to_rfc3339()
}

} // verus!

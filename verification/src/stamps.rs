//! Report ids and time stamps, which come from outside the library.
use vstd::prelude::*;

verus! {

/// A fresh random report id: `uuid::Uuid::new_v4()` written in its
/// hyphenated form, which has 36 characters.  Which id comes out is left
/// open.
#[verifier::external_body]
pub(crate) fn new_report_id() -> (id: String)
    ensures
        id@.len() == 36,
{
    uuid::Uuid::new_v4().to_string()
}

/// The current time in RFC 3339 form: `chrono::Utc::now().to_rfc3339()`.
/// Nothing is stated of the text, which depends on the clock.
#[verifier::external_body]
pub(crate) fn now_rfc3339() -> (t: String) {
    chrono::Utc::now().to_rfc3339()
}

} // verus!

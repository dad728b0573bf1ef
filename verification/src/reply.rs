//! Values that several handlers share: the caller's address and the text of
//! a storage failure.

use vstd::prelude::*;

verus! {

/// The address recorded for a caller: the one the transport derived, or the
/// fallback where it derived none.
pub open spec fn address_or(address: Option<String>, fallback: Seq<char>) -> Seq<char> {
    match address {
        Some(found) => found@,
        None => fallback,
    }
}

/// The address recorded for a caller.
pub fn caller_address(address: &Option<String>, fallback: &str) -> (text: String)
    ensures
        text@ == address_or(*address, fallback@),
{
    match address {
        Some(found) => found.clone(),
        None => String::from_str(fallback),
    }
}

/// The message of the internal error that a storage failure is answered
/// with.
pub open spec fn storage_error_text(detail: Seq<char>) -> Seq<char> {
    "sqlx error:"@ + detail
}

/// Turns what the storage layer said of a failure into the message of an
/// internal error.
pub fn map_db_err(detail: &str) -> (message: String)
    ensures
        message@ == storage_error_text(detail@),
{
    String::from_str("sqlx error:").concat(detail)
}

/// An empty text, the default of fields that a client may leave out.
pub fn default_string() -> (text: String)
    ensures
        text@ == Seq::<char>::empty(),
{
    String::new()
}

} // verus!

//! The standard I/O error, as it reaches this crate's error types.
use vstd::prelude::*;

verus! {

#[verifier::external_type_specification]
#[verifier::external_body]
pub struct ExIoError(std::io::Error);

/// The text of an I/O error (its `Display` form). For an operating-system
/// error the text comes from the system, so nothing is stated of it.
#[verifier::external_body]
pub(crate) fn io_error_text(e: &std::io::Error) -> (r: String) {
    e.to_string()
}

} // verus!

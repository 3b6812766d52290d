use vstd::prelude::*;

verus! {

#[verifier::external_type_specification]
#[verifier::external_body]
pub struct ExIoError(std::io::Error);

/// Relies on `std::io::Error::new`: an error of kind `Other` that carries
/// `message`.
#[verifier::external_body]
fn other_error(message: &str) -> std::io::Error {
    std::io::Error::new(std::io::ErrorKind::Other, message)
}

/// An I/O error of kind `Other` with the message `s`, for failures that are
/// not themselves I/O but end an I/O path.
pub fn io_other(s: &str) -> std::io::Error {
    other_error(s)
}

} // verus!

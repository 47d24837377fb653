use vstd::prelude::*;

verus! {

/// The error that `std::io::Error::new` builds, of kind `Other`, from a message.
pub uninterp spec fn other_io_error(msg: Seq<char>) -> std::io::Error;

/// A new `std::io::Error` of kind `Other` from `std::io::Error::new`. The error is opaque here:
/// its result is named `other_io_error` of the message.
#[verifier::external_body]
fn io_error_other(msg: String) -> (r: std::io::Error)
    ensures
        r == other_io_error(msg@),
{
    std::io::Error::new(std::io::ErrorKind::Other, msg)
}

/// An I/O error of kind `Other` carrying `msg`.
pub fn error(msg: String) -> (r: std::io::Error)
    ensures
        r == other_io_error(msg@),
{
    io_error_other(msg)
}

/// A failed I/O result carrying an error of kind `Other` with `msg`.
pub fn error_result<T>(msg: String) -> (r: Result<T, std::io::Error>)
    ensures
        r == Err::<T, std::io::Error>(other_io_error(msg@)),
{
    Err(error(msg))
}

} // verus!

use vstd::prelude::*;

verus! {

/// Failures of the conversion protocol.
#[derive(Debug, Clone, Copy, PartialEq, Eq, Structural)]
pub enum Error {
    /// The text holds a zero byte, which a null-terminated buffer cannot carry.
    NulError,
    /// A buffer reclaimed with its ownership is not valid UTF-8.
    IntoStringError,
    /// A buffer inspected through a reference is not valid UTF-8.
    Utf8Error,
}

} // verus!

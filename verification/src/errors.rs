use vstd::prelude::*;

verus! {

/// The error taxonomy shared by every fallible operation of the library.
///
/// `InvalidArgument` covers malformed input (an empty batch, a byte
/// string with an embedded zero separator, a full block); `ConfigurationError`
/// covers lifecycle misuse (a non-monotonic timestamp source); `IntegrityError`
/// covers failed cryptographic checks (a genesis mismatch, an absent root).
#[derive(Clone, Copy, Debug, PartialEq, Eq, Structural)]
pub enum ChainError {
    InvalidArgument,
    ConfigurationError,
    IntegrityError,
}

} // verus!

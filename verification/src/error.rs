//! The two failure conditions of identifier and name construction.

use vstd::prelude::*;

verus! {

/// Why an identifier or name could not be built.
#[derive(Debug, Clone, Copy, PartialEq, Eq, Structural)]
pub enum IdentError {
    /// The raw string holds a NUL byte, which no quoting can represent.
    NullByteError(),
    /// A name was requested from an empty list of components.
    ZeroLengthError(),
}

} // verus!

use vstd::prelude::*;

verus! {

/// The error taxonomy of the engine.
///
/// `FormatError` covers malformed text handed to a decoder: odd-length or
/// out-of-alphabet modhex, malformed hex in a store line, or a counter field
/// that is not a decimal number in range. `CryptoError` covers a ciphertext
/// of the wrong length or a checksum failure after decryption.
///
/// I/O failures never arise here: all file handling stays with the caller.
#[derive(Debug, Clone, Copy, PartialEq, Eq)]
pub enum YkError {
    FormatError,
    CryptoError,
}

} // verus!

use vstd::prelude::*;

verus! {

/// The failures the credential codec surfaces to its caller.
///
/// A wrong master password and tampered stored bytes are deliberately
/// indistinguishable: both come back as `AESGCMError`.
#[derive(Clone, Copy, Debug, PartialEq, Eq, Structural)]
pub enum Error {
    /// A stored field is not the canonical base64 text of any byte string,
    /// or the decoded nonce does not have the fixed nonce length.
    DecodeError,
    /// Authenticated decryption refused the ciphertext: the key derived
    /// from the supplied master password does not verify the tag.
    AESGCMError,
    /// The decrypted bytes are not valid UTF-8 text.
    UTF8Error,
}

} // verus!

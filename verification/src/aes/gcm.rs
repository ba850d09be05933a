//! Authenticated encryption with associated data: the interface, and the
//! hardware engine's place in it (AES-128-GCM on CRYP, not wired up yet).

use super::keyreg::AesHardware;
use super::AeadError;
use crate::mmio::MmioAccess;
use vstd::prelude::*;

verus! {

/// Authenticated Encryption with Associated Data.
pub trait Aead {
    /// Symmetric key length in bytes.
    const KEY_SIZE: usize;
    /// Nonce length in bytes.
    const NONCE_SIZE: usize;
    /// Authentication tag length appended to the ciphertext, in bytes.
    const TAG_SIZE: usize;

    /// Encrypt `plaintext` under `key` and `nonce`, authenticating it with
    /// `associated_data`; `ciphertext || tag` goes to `ciphertext_out`.
    /// Returns the number of bytes written.
    fn seal(
        &mut self,
        key: &[u8],
        nonce: &[u8],
        associated_data: &[u8],
        plaintext: &[u8],
        ciphertext_out: &mut [u8],
    ) -> Result<usize, AeadError>;

    /// Check the tag at the end of `ciphertext_and_tag` against
    /// `associated_data` and the ciphertext, then decrypt into
    /// `plaintext_out`. Returns the plaintext length.
    fn open(
        &mut self,
        key: &[u8],
        nonce: &[u8],
        associated_data: &[u8],
        ciphertext_and_tag: &[u8],
        plaintext_out: &mut [u8],
    ) -> Result<usize, AeadError>;
}

impl<M: MmioAccess> Aead for AesHardware<M> {
    const KEY_SIZE: usize = 16;
    const NONCE_SIZE: usize = 12;
    const TAG_SIZE: usize = 16;

    /// Not wired to the hardware yet: always `NotYetImplemented`, nothing
    /// written.
    fn seal(
        &mut self,
        key: &[u8],
        nonce: &[u8],
        associated_data: &[u8],
        plaintext: &[u8],
        ciphertext_out: &mut [u8],
    ) -> (r: Result<usize, AeadError>)
        ensures
            r == Err::<usize, AeadError>(AeadError::NotYetImplemented),
            final(ciphertext_out)@ == old(ciphertext_out)@,
    {
        Err(AeadError::NotYetImplemented)
    }

    /// Not wired to the hardware yet: always `NotYetImplemented`, nothing
    /// written.
    fn open(
        &mut self,
        key: &[u8],
        nonce: &[u8],
        associated_data: &[u8],
        ciphertext_and_tag: &[u8],
        plaintext_out: &mut [u8],
    ) -> (r: Result<usize, AeadError>)
        ensures
            r == Err::<usize, AeadError>(AeadError::NotYetImplemented),
            final(plaintext_out)@ == old(plaintext_out)@,
    {
        Err(AeadError::NotYetImplemented)
    }
}

} // verus!

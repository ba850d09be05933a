//! Derivation of the two independent enclave subkeys from the device master
//! key: `HMAC-SHA256(master_key, label)`, one label per key. The labels must
//! stay byte-for-byte equal to those of the offline enclave protection tool.

use crate::crypto_engine::{CryptoCall, CryptoEngine, UmbraError};
use vstd::prelude::*;

verus! {

/// Label of the enclave encryption subkey: `"umbra-enc-v1"`.
pub const ENC_KEY_LABEL: [u8; 12] = [
    0x75, 0x6d, 0x62, 0x72, 0x61, 0x2d, 0x65, 0x6e, 0x63, 0x2d, 0x76, 0x31,
];

/// Label of the chained-measurement HMAC subkey: `"umbra-hmac-v1"`.
pub const HMAC_KEY_LABEL: [u8; 13] = [
    0x75, 0x6d, 0x62, 0x72, 0x61, 0x2d, 0x68, 0x6d, 0x61, 0x63, 0x2d, 0x76, 0x31,
];

/// `c` is one HMAC of `label` under `master_key`, and `r` is its 32-byte
/// output where it succeeded and `KeyDerivation` where it did not.
pub open spec fn derivation_call(
    c: CryptoCall,
    master_key: Seq<u8>,
    label: Seq<u8>,
    r: Result<[u8; 32], UmbraError>,
) -> bool {
    match c {
        CryptoCall::Hmac { key, data, out, ok } => {
            &&& key == master_key
            &&& data == label
            &&& ok == r is Ok
            &&& r is Ok ==> r->Ok_0@ == out
            &&& r is Err ==> r->Err_0 == UmbraError::KeyDerivation
        },
        _ => false,
    }
}

/// `HMAC-SHA256(master_key, label)` through `crypto`.
fn derive_with_label<C: CryptoEngine>(crypto: &mut C, master_key: &[u8; 32], label: &[u8]) -> (r:
    Result<[u8; 32], UmbraError>)
    requires
        old(crypto).crypto_wf(),
    ensures
        final(crypto).crypto_wf(),
        final(crypto).calls().len() == old(crypto).calls().len() + 1,
        final(crypto).calls().drop_last() == old(crypto).calls(),
        derivation_call(final(crypto).calls().last(), master_key@, label@, r),
{
    let mut out = [0u8; 32];
    let h = crypto.hmac(master_key.as_slice(), label, &mut out);
    proof {
        assert(final(crypto).calls().drop_last() =~= old(crypto).calls()) by {
            assert(crypto.calls().drop_last() =~= old(crypto).calls());
        }
    }
    match h {
        Ok(()) => Ok(out),
        Err(_) => Err(UmbraError::KeyDerivation),
    }
}

/// Derive the enclave encryption subkey from `master_key`. A failure of the
/// keyed hash is reported as `KeyDerivation`, never as an all-zero key.
pub fn derive_enc_key<C: CryptoEngine>(crypto: &mut C, master_key: &[u8; 32]) -> (r: Result<
    [u8; 32],
    UmbraError,
>)
    requires
        old(crypto).crypto_wf(),
    ensures
        final(crypto).crypto_wf(),
        final(crypto).calls().len() == old(crypto).calls().len() + 1,
        final(crypto).calls().drop_last() == old(crypto).calls(),
        derivation_call(final(crypto).calls().last(), master_key@, ENC_KEY_LABEL@, r),
{
    derive_with_label(crypto, master_key, ENC_KEY_LABEL.as_slice())
}

/// Derive the chained-measurement HMAC subkey from `master_key`, with the
/// same error contract as [`derive_enc_key`].
pub fn derive_hmac_key<C: CryptoEngine>(crypto: &mut C, master_key: &[u8; 32]) -> (r: Result<
    [u8; 32],
    UmbraError,
>)
    requires
        old(crypto).crypto_wf(),
    ensures
        final(crypto).crypto_wf(),
        final(crypto).calls().len() == old(crypto).calls().len() + 1,
        final(crypto).calls().drop_last() == old(crypto).calls(),
        derivation_call(final(crypto).calls().last(), master_key@, HMAC_KEY_LABEL@, r),
{
    derive_with_label(crypto, master_key, HMAC_KEY_LABEL.as_slice())
}

} // verus!

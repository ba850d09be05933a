//! Validation of one enclave code block loaded from flash: the block id, the
//! ciphertext and the metadata must carry the expected HMAC (compared in
//! constant time) before the ciphertext is decrypted. `validate_block` is the
//! only producer of a [`ValidatedBlock`].

use crate::attest::{le_bytes, le_value4, lemma_le_bytes_value};
use crate::crypto_engine::{CryptoCall, CryptoEngine};
use vstd::prelude::*;

verus! {

pub const CODE_BLOCK_SIZE: usize = 256;
pub const BLOCK_META_SIZE: usize = 32;

/// Length of the authenticated input: block id, ciphertext and metadata.
pub const MAC_INPUT_SIZE: usize = 4 + CODE_BLOCK_SIZE + BLOCK_META_SIZE;

/// A block whose HMAC matched, with its decrypted code.
pub struct ValidatedBlock {
    pub block_id: u32,
    pub plaintext: [u8; CODE_BLOCK_SIZE],
    pub metadata: [u8; BLOCK_META_SIZE],
    seal: (),
}

/// Why a block was refused.
#[derive(Clone, Copy, Debug, PartialEq, Eq, Structural)]
pub enum ValidationError {
    HmacMismatch,
    DecryptFailed,
    CryptoUnavailable,
}

/// The authenticated input: block id (little-endian), ciphertext, metadata.
pub open spec fn mac_input(block_id: u32, ciphertext: Seq<u8>, metadata: Seq<u8>) -> Seq<u8> {
    seq![block_id as u8, (block_id >> 8u32) as u8, (block_id >> 16u32) as u8, (block_id >> 24u32) as u8]
        + ciphertext + metadata
}

/// Layout of the authenticated input: the first four bytes spell the block id
/// (least significant first), the ciphertext follows, then the metadata, and
/// nothing else. Inputs of two different block ids over the same ciphertext
/// and metadata differ, so a tag binds its block to its position.
pub proof fn lemma_mac_input_layout(block_id: u32, ciphertext: Seq<u8>, metadata: Seq<u8>)
    ensures
        mac_input(block_id, ciphertext, metadata).len() == 4 + ciphertext.len() + metadata.len(),
        le_value4(mac_input(block_id, ciphertext, metadata).take(4)) == block_id as int,
        mac_input(block_id, ciphertext, metadata).subrange(4, 4 + ciphertext.len() as int)
            == ciphertext,
        mac_input(block_id, ciphertext, metadata).skip(4 + ciphertext.len() as int) == metadata,
        forall|other: u32|
            #[trigger] mac_input(other, ciphertext, metadata) == mac_input(
                block_id,
                ciphertext,
                metadata,
            ) ==> other == block_id,
{
    let m = mac_input(block_id, ciphertext, metadata);
    lemma_le_bytes_value(block_id);
    assert(m.take(4) =~= le_bytes(block_id));
    assert(m.subrange(4, 4 + ciphertext.len() as int) =~= ciphertext);
    assert(m.skip(4 + ciphertext.len() as int) =~= metadata);
    assert forall|other: u32|
        #[trigger] mac_input(other, ciphertext, metadata) == m implies other == block_id by {
        lemma_le_bytes_value(other);
        assert(mac_input(other, ciphertext, metadata).take(4) =~= le_bytes(other));
    }
}

/// The decryption step: `call` is the decryption of `ciphertext` under
/// `enc_key` from an all-zero IV, and `r` follows its outcome.
pub closed spec fn decrypt_outcome(
    call: CryptoCall,
    r: Result<ValidatedBlock, ValidationError>,
    block_id: u32,
    ciphertext: Seq<u8>,
    metadata: Seq<u8>,
    enc_key: Seq<u8>,
) -> bool {
    match call {
        CryptoCall::Decrypt { key, iv, input, output, ok } => {
            &&& key == enc_key
            &&& iv == Seq::new(16, |i: int| 0u8)
            &&& input == ciphertext
            &&& if ok {
                &&& r is Ok
                &&& r->Ok_0.block_id == block_id
                &&& r->Ok_0.plaintext@ == output
                &&& r->Ok_0.metadata@ == metadata
            } else {
                r == Err::<ValidatedBlock, ValidationError>(ValidationError::DecryptFailed)
            }
        },
        _ => false,
    }
}

/// The calls from index `n` on in `c` are one HMAC of the authenticated
/// input under `hmac_key`; where it succeeded and its first 32 bytes equal
/// `tag`, one decryption follows (see [`decrypt_outcome`]); otherwise nothing
/// follows and the block is refused with `HmacMismatch`.
pub open spec fn validate_outcome(
    c: Seq<CryptoCall>,
    n: int,
    r: Result<ValidatedBlock, ValidationError>,
    block_id: u32,
    ciphertext: Seq<u8>,
    metadata: Seq<u8>,
    tag: Seq<u8>,
    hmac_key: Seq<u8>,
    enc_key: Seq<u8>,
) -> bool {
    match c[n] {
        CryptoCall::Hmac { key, data, out, ok } => {
            &&& key == hmac_key
            &&& data == mac_input(block_id, ciphertext, metadata)
            &&& if ok && out.take(32) == tag {
                &&& c.len() == n + 2
                &&& decrypt_outcome(c[n + 1], r, block_id, ciphertext, metadata, enc_key)
            } else {
                &&& c.len() == n + 1
                &&& r == Err::<ValidatedBlock, ValidationError>(ValidationError::HmacMismatch)
            }
        },
        _ => false,
    }
}

/// The authenticated input of a block: id (little-endian), code, metadata.
pub fn build_mac_input(
    block_id: u32,
    code: &[u8; CODE_BLOCK_SIZE],
    metadata: &[u8; BLOCK_META_SIZE],
) -> (input: [u8; MAC_INPUT_SIZE])
    ensures
        input@ == mac_input(block_id, code@, metadata@),
        le_value4(input@.take(4)) == block_id as int,
{
    proof {
        lemma_mac_input_layout(block_id, code@, metadata@);
    }
    let mut input = [0u8; MAC_INPUT_SIZE];
    input[0] = block_id as u8;
    input[1] = (block_id >> 8u32) as u8;
    input[2] = (block_id >> 16u32) as u8;
    input[3] = (block_id >> 24u32) as u8;
    let mut i: usize = 0;
    while i < CODE_BLOCK_SIZE
        invariant
            i <= CODE_BLOCK_SIZE,
            input@[0] == block_id as u8,
            input@[1] == (block_id >> 8u32) as u8,
            input@[2] == (block_id >> 16u32) as u8,
            input@[3] == (block_id >> 24u32) as u8,
            forall|j: int| 0 <= j < i ==> #[trigger] input@[4 + j] == code@[j],
        decreases CODE_BLOCK_SIZE - i,
    {
        input[4 + i] = code[i];
        i += 1;
    }
    let mut i: usize = 0;
    while i < BLOCK_META_SIZE
        invariant
            i <= BLOCK_META_SIZE,
            input@[0] == block_id as u8,
            input@[1] == (block_id >> 8u32) as u8,
            input@[2] == (block_id >> 16u32) as u8,
            input@[3] == (block_id >> 24u32) as u8,
            forall|j: int| 0 <= j < CODE_BLOCK_SIZE ==> #[trigger] input@[4 + j] == code@[j],
            forall|j: int| 0 <= j < i ==> #[trigger] input@[4 + CODE_BLOCK_SIZE + j] == metadata@[j],
        decreases BLOCK_META_SIZE - i,
    {
        input[4 + CODE_BLOCK_SIZE + i] = metadata[i];
        i += 1;
    }
    assert(input@ =~= mac_input(block_id, code@, metadata@)) by {
        assert forall|j: int| 0 <= j < input@.len() implies input@[j] == mac_input(
            block_id,
            code@,
            metadata@,
        )[j] by {
            if 4 <= j < 4 + CODE_BLOCK_SIZE {
                assert(input@[4 + (j - 4)] == code@[j - 4]);
            } else if j >= 4 + CODE_BLOCK_SIZE {
                assert(input@[4 + CODE_BLOCK_SIZE + (j - 4 - CODE_BLOCK_SIZE)] == metadata@[j - 4
                    - CODE_BLOCK_SIZE]);
            }
        }
    }
    input
}

/// Equality of two 32-byte values in time independent of where they differ.
pub fn ct_eq_32(a: &[u8; 32], b: &[u8; 32]) -> (eq: bool)
    ensures
        eq == (a@ == b@),
{
    let mut diff: u8 = 0;
    let mut i: usize = 0;
    while i < 32
        invariant
            i <= 32,
            a@.len() == 32,
            (diff == 0) == (forall|j: int| 0 <= j < i ==> #[trigger] a@[j] == b@[j]),
        decreases 32 - i,
    {
        let ai = a[i];
        let bi = b[i];
        let x = ai ^ bi;
        let d0 = diff;
        diff = diff | x;
        assert((d0 | x == 0) == (d0 == 0 && x == 0)) by (bit_vector);
        assert((x == 0) == (ai == bi)) by (bit_vector)
            requires
                x == ai ^ bi,
        ;
        i += 1;
    }
    if diff != 0 {
        assert(a@ != b@) by {
            if a@ == b@ {
                assert forall|j: int| 0 <= j < 32 implies #[trigger] a@[j] == b@[j] by {}
            }
        }
        false
    } else {
        assert(a@ =~= b@);
        true
    }
}

/// Check the HMAC of `(expected_block_id, ciphertext, metadata)` under
/// `hmac_key` against `hmac_on_flash`, then decrypt the ciphertext with
/// `enc_key` from an all-zero IV.
pub fn validate_block<C: CryptoEngine>(
    crypto: &mut C,
    expected_block_id: u32,
    ciphertext: &[u8; CODE_BLOCK_SIZE],
    metadata: &[u8; BLOCK_META_SIZE],
    hmac_on_flash: &[u8; 32],
    hmac_key: &[u8; 32],
    enc_key: &[u8; 32],
) -> (r: Result<ValidatedBlock, ValidationError>)
    requires
        old(crypto).crypto_wf(),
    ensures
        final(crypto).crypto_wf(),
        old(crypto).calls().len() < final(crypto).calls().len(),
        final(crypto).calls().take(old(crypto).calls().len() as int) == old(crypto).calls(),
        validate_outcome(
            final(crypto).calls(),
            old(crypto).calls().len() as int,
            r,
            expected_block_id,
            ciphertext@,
            metadata@,
            hmac_on_flash@,
            hmac_key@,
            enc_key@,
        ),
{
    let input = build_mac_input(expected_block_id, ciphertext, metadata);
    let mut computed = [0u8; 32];
    let ghost n = crypto.calls().len() as int;
    let h = crypto.hmac(hmac_key.as_slice(), input.as_slice(), &mut computed);
    assert(computed@.take(32) =~= computed@);
    if h.is_err() {
        return Err(ValidationError::HmacMismatch);
    }
    if !ct_eq_32(&computed, hmac_on_flash) {
        return Err(ValidationError::HmacMismatch);
    }
    assert(computed@ =~= hmac_on_flash@);
    let mut plaintext = *ciphertext;
    let iv = [0u8; 16];
    assert(iv@ =~= Seq::new(16, |i: int| 0u8));
    let d = crypto.aes_decrypt(enc_key.as_slice(), iv.as_slice(), &mut plaintext);
    if d.is_err() {
        return Err(ValidationError::DecryptFailed);
    }
    Ok(ValidatedBlock { block_id: expected_block_id, plaintext, metadata: *metadata, seal: () })
}

} // verus!

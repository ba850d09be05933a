//! The crypto services the secure kernel uses (keyed hash, hash, AES-CTR
//! decryption) and the engine that provides them on this platform: the HASH
//! peripheral for HMAC, software SHA-256 for plain hashing, and an AES engine
//! for CTR.

use crate::aes::{ctr_blocks, AesEngine};
use crate::hash::{digest_read, hmac_writes};
use crate::mmio::MmioAccess;
use crate::sha256::{sha256, Sha256Engine, MAX_MESSAGE_BYTES};
use vstd::prelude::*;

verus! {

/// Errors of the secure kernel.
#[derive(Clone, Copy, Debug, PartialEq, Eq, Structural)]
pub enum UmbraError {
    /// No enclave with this id is registered.
    EnclaveNotFound { id: u32 },
    /// The enclave is not in a state that allows the request.
    EnclaveStateInvalid,
    /// An enclave from this flash base is already loaded.
    EnclaveAlreadyLoaded { id: u32 },
    /// A DMA transfer did not complete.
    DmaTimeout,
    /// An argument from the Non-Secure caller was refused.
    NscArgInvalid,
    /// An address or size computation overflowed.
    OffsetOverflow,
    /// A measured blob did not match its expected HMAC.
    MeasurementMismatch,
    /// The memory protection refused a change at `addr`.
    MemProtectDenied { addr: u32 },
    /// Deriving a subkey failed.
    KeyDerivation,
    /// A key or IV shorter than the cipher needs.
    LengthMismatch,
    /// The hash peripheral or engine failed.
    HashHardware,
    /// The enclave swap space has no room left.
    EssRegionExhausted,
    /// The AES peripheral failed.
    AesHardware,
    /// An internal invariant did not hold.
    InternalInvariant,
}

/// One call to an engine and what came of it.
pub enum CryptoCall {
    Hmac { key: Seq<u8>, data: Seq<u8>, out: Seq<u8>, ok: bool },
    Hash { data: Seq<u8>, out: Seq<u8>, ok: bool },
    Decrypt { key: Seq<u8>, iv: Seq<u8>, input: Seq<u8>, output: Seq<u8>, ok: bool },
}

/// Crypto services of the secure kernel.
pub trait CryptoEngine {
    /// Every call made so far, oldest first.
    spec fn calls(&self) -> Seq<CryptoCall>;

    /// The engine is ready for use.
    spec fn crypto_wf(&self) -> bool;

    /// HMAC-SHA256 of `data` under `key` into `output[..32]`.
    fn hmac(&mut self, key: &[u8], data: &[u8], output: &mut [u8]) -> (r: Result<(), UmbraError>)
        requires
            old(self).crypto_wf(),
            old(output)@.len() >= 32,
        ensures
            final(self).crypto_wf(),
            final(output)@.len() == old(output)@.len(),
            final(self).calls() == old(self).calls().push(
                CryptoCall::Hmac { key: key@, data: data@, out: final(output)@, ok: r is Ok },
            ),
    ;

    /// SHA-256 of `data` into the first `min(output.len(), 32)` bytes of
    /// `output`.
    fn hash(&mut self, data: &[u8], output: &mut [u8]) -> (r: Result<(), UmbraError>)
        requires
            old(self).crypto_wf(),
            data@.len() <= MAX_MESSAGE_BYTES,
        ensures
            final(self).crypto_wf(),
            final(output)@.len() == old(output)@.len(),
            final(self).calls() == old(self).calls().push(
                CryptoCall::Hash { data: data@, out: final(output)@, ok: r is Ok },
            ),
    ;

    /// AES-128-CTR over the whole blocks of `data` with the first 16 bytes of
    /// `key` and of `iv`.
    fn aes_decrypt(&mut self, key: &[u8], iv: &[u8], data: &mut [u8]) -> (r: Result<(), UmbraError>)
        requires
            old(self).crypto_wf(),
        ensures
            final(self).crypto_wf(),
            final(data)@.len() == old(data)@.len(),
            final(self).calls() == old(self).calls().push(
                CryptoCall::Decrypt {
                    key: key@,
                    iv: iv@,
                    input: old(data)@,
                    output: final(data)@,
                    ok: r is Ok,
                },
            ),
    ;
}

/// The platform engine: HMAC on the HASH peripheral, SHA-256 in software,
/// CTR on the AES engine `A`.
pub struct UmbraCryptoEngine<M: MmioAccess, A: AesEngine> {
    hash: crate::hash::Hash<M>,
    sha256: Sha256Engine,
    aes: A,
    log: Ghost<Seq<CryptoCall>>,
}

impl<M: MmioAccess, A: AesEngine> UmbraCryptoEngine<M, A> {
    pub closed spec fn hw(&self) -> crate::hash::Hash<M> {
        self.hash
    }

    pub closed spec fn cipher(&self) -> A {
        self.aes
    }

    pub closed spec fn parts_wf(&self) -> bool {
        &&& self.aes.engine_wf()
        &&& self.sha256.wf()
    }

    pub fn new(hash: crate::hash::Hash<M>, aes: A) -> (e: Self)
        requires
            aes.engine_wf(),
        ensures
            e.crypto_wf(),
            e.hw() == hash,
            e.cipher() == aes,
            e.calls() == Seq::<CryptoCall>::empty(),
    {
        Self { hash, sha256: Sha256Engine::new(), aes, log: Ghost(Seq::empty()) }
    }
}

impl<M: MmioAccess, A: AesEngine> CryptoEngine for UmbraCryptoEngine<M, A> {
    closed spec fn calls(&self) -> Seq<CryptoCall> {
        self.log@
    }

    open spec fn crypto_wf(&self) -> bool {
        self.parts_wf()
    }

    /// On the HASH peripheral: the HMAC register sequence on success.
    fn hmac(&mut self, key: &[u8], data: &[u8], output: &mut [u8]) -> (r: Result<(), UmbraError>)
        ensures
            final(self).cipher() == old(self).cipher(),
            final(self).hw().base() == old(self).hw().base(),
            r is Ok ==> final(self).hw().writes() == old(self).hw().writes() + hmac_writes(
                old(self).hw().base(),
                key@,
                data@,
            ),
            r is Ok ==> digest_read(old(self).hw().base(), final(self).hw().ops(), final(output)@),
            r is Err ==> r == Err::<(), UmbraError>(UmbraError::HashHardware),
    {
        let res = self.hash.hmac_sha256(key, data, output);
        let ok = res.is_ok();
        self.log = Ghost(self.log@.push(CryptoCall::Hmac { key: key@, data: data@, out: output@, ok }));
        if ok {
            Ok(())
        } else {
            Err(UmbraError::HashHardware)
        }
    }

    /// In software: the first `min(output.len(), 32)` bytes of SHA-256(data),
    /// the rest of `output` unchanged.
    fn hash(&mut self, data: &[u8], output: &mut [u8]) -> (r: Result<(), UmbraError>)
        ensures
            final(self).cipher() == old(self).cipher(),
            final(self).hw() == old(self).hw(),
            r is Ok,
            r is Ok ==> forall|i: int|
                0 <= i < old(output)@.len() ==> #[trigger] final(output)@[i] == if i < 32 {
                    sha256(data@)[i]
                } else {
                    old(output)@[i]
                },
    {
        let _ = self.sha256.init();
        let _ = self.sha256.update(data);
        let mut digest = [0u8; 32];
        let _ = self.sha256.finalize(&mut digest);
        let n = if output.len() < 32 {
            output.len()
        } else {
            32
        };
        let mut i: usize = 0;
        while i < n
            invariant
                i <= n,
                n <= 32,
                n <= output@.len(),
                output@.len() == old(output)@.len(),
                n == (if old(output)@.len() < 32 { old(output)@.len() } else { 32 }),
                digest@ == sha256(data@),
                forall|j: int|
                    0 <= j < old(output)@.len() ==> #[trigger] output@[j] == if j < i {
                        sha256(data@)[j]
                    } else {
                        old(output)@[j]
                    },
            decreases n - i,
        {
            output[i] = digest[i];
            i += 1;
        }
        self.log = Ghost(self.log@.push(CryptoCall::Hash { data: data@, out: output@, ok: true }));
        Ok(())
    }

    /// Refuses a key or IV shorter than 16 bytes; otherwise loads the key and
    /// runs the engine's CTR transform from the IV.
    fn aes_decrypt(&mut self, key: &[u8], iv: &[u8], data: &mut [u8]) -> (r: Result<(), UmbraError>)
        ensures
            final(self).hw() == old(self).hw(),
            (key@.len() < 16 || iv@.len() < 16) ==> r == Err::<(), UmbraError>(UmbraError::LengthMismatch)
                && final(data)@ == old(data)@,
            key@.len() >= 16 && iv@.len() >= 16 ==> final(self).cipher().keyed_with(key@.subrange(0, 16)),
            key@.len() >= 16 && iv@.len() >= 16 ==> r is Ok && final(data)@ == ctr_blocks(
                |b: Seq<u8>| final(self).cipher().block_enc(b),
                iv@.subrange(0, 16),
                old(data)@,
            ),
    {
        if key.len() < 16 || iv.len() < 16 {
            self.log = Ghost(
                self.log@.push(
                    CryptoCall::Decrypt { key: key@, iv: iv@, input: data@, output: data@, ok: false },
                ),
            );
            return Err(UmbraError::LengthMismatch);
        }
        let ghost input = data@;
        let mut aes_key = [0u8; 16];
        let mut iv_block = [0u8; 16];
        let mut k: usize = 0;
        while k < 16
            invariant
                k <= 16,
                key@.len() >= 16,
                iv@.len() >= 16,
                forall|j: int| 0 <= j < k ==> #[trigger] aes_key@[j] == key@[j],
                forall|j: int| 0 <= j < k ==> #[trigger] iv_block@[j] == iv@[j],
            decreases 16 - k,
        {
            aes_key[k] = key[k];
            iv_block[k] = iv[k];
            k += 1;
        }
        assert(iv_block@ =~= iv@.subrange(0, 16));
        assert(aes_key@.subrange(0, 16) =~= key@.subrange(0, 16));
        self.aes.init(aes_key.as_slice(), None);
        self.aes.ctr_xform(&iv_block, data);
        self.log = Ghost(
            self.log@.push(CryptoCall::Decrypt { key: key@, iv: iv@, input, output: data@, ok: true }),
        );
        Ok(())
    }
}

} // verus!

//! An AES-128 cipher with a configure / set-IV / process life cycle, over any
//! single-block [`AesEngine`].

use super::{counter_at, ctr_stream, increment_counter, lemma_ctr_stream_involution, AesEmulated, AesEngine};
use vstd::prelude::*;

verus! {

/// A key for `configure`.
pub enum AesKey<'a> {
    Bits128(&'a [u8; 16]),
    Bits256(&'a [u8; 32]),
}

/// The mode `process` runs in.
#[derive(Clone, Copy, Debug, PartialEq, Eq, Structural)]
pub enum AesMode {
    EcbEncrypt,
    EcbDecrypt,
    CtrEncrypt,
}

/// Errors of the adapter.
#[derive(Clone, Copy, Debug, PartialEq, Eq, Structural)]
pub enum Aes128Error {
    /// `process` before `configure`.
    NotConfigured,
    /// A 256-bit key was given.
    Aes256NotSupported,
    /// ECB input that is not a whole number of blocks.
    EcbLengthNotMultipleOf16,
    /// `output` shorter than `input`.
    OutputTooShort,
}

/// ECB over whole blocks: block `b` of the result is `f` applied to block `b`
/// of `input`.
pub open spec fn ecb_blocks(f: spec_fn(Seq<u8>) -> Seq<u8>, input: Seq<u8>) -> Seq<u8> {
    Seq::new(input.len(), |j: int| f(input.subrange(16 * (j / 16), 16 * (j / 16) + 16))[j % 16])
}

/// What `process` writes into `output[..input.len()]` in `mode`.
pub open spec fn processed<E: AesEngine>(e: E, mode: AesMode, iv: Seq<u8>, input: Seq<u8>) -> Seq<u8> {
    match mode {
        AesMode::EcbEncrypt => ecb_blocks(|b: Seq<u8>| e.block_enc(b), input),
        AesMode::EcbDecrypt => ecb_blocks(|b: Seq<u8>| e.block_dec(b), input),
        AesMode::CtrEncrypt => ctr_stream(|b: Seq<u8>| e.block_enc(b), iv, input),
    }
}

/// Law of the adapter's CTR mode: processing the output again with the same
/// engine and IV gives back the input.
pub proof fn lemma_ctr_process_round_trip<E: AesEngine>(e: E, iv: Seq<u8>, input: Seq<u8>)
    ensures
        processed(e, AesMode::CtrEncrypt, iv, processed(e, AesMode::CtrEncrypt, iv, input)) == input,
{
    lemma_ctr_stream_involution(|b: Seq<u8>| e.block_enc(b), iv, input);
}

/// Law of the adapter over the software engine: a CTR pass under one engine
/// is undone by a CTR pass, from the same IV, under any engine keyed with
/// the same key (as after configuring the adapter again with that key).
pub proof fn lemma_ctr_round_trip_same_key(
    e1: AesEmulated,
    e2: AesEmulated,
    key: Seq<u8>,
    iv: Seq<u8>,
    input: Seq<u8>,
)
    requires
        e1.keyed_with(key),
        e2.keyed_with(key),
    ensures
        processed(e2, AesMode::CtrEncrypt, iv, processed(e1, AesMode::CtrEncrypt, iv, input)) == input,
{
    let f1 = |b: Seq<u8>| e1.block_enc(b);
    let f2 = |b: Seq<u8>| e2.block_enc(b);
    assert(f1 =~= f2);
    lemma_ctr_process_round_trip(e1, iv, input);
}

/// AES-128 with a configure / set-IV / process life cycle over the engine `E`.
pub struct Aes128Engine<E: AesEngine> {
    engine: E,
    mode: Option<AesMode>,
    iv: [u8; 16],
}

impl<E: AesEngine> Aes128Engine<E> {
    pub closed spec fn engine(&self) -> E {
        self.engine
    }

    /// The configured mode, `None` before `configure`.
    pub closed spec fn mode(&self) -> Option<AesMode> {
        self.mode
    }

    /// The counter block CTR starts from.
    pub closed spec fn iv(&self) -> Seq<u8> {
        self.iv@
    }

    pub open spec fn wf(&self) -> bool {
        self.engine().engine_wf()
    }

    /// An unconfigured cipher over `engine`, with an all-zero IV.
    pub fn from_engine(engine: E) -> (s: Self)
        ensures
            s.engine() == engine,
            s.mode() == None::<AesMode>,
            s.iv() == Seq::new(16, |i: int| 0u8),
    {
        let s = Self { engine, mode: None, iv: [0u8; 16] };
        assert(s.iv@ =~= Seq::new(16, |i: int| 0u8));
        s
    }

    /// The engine, mutably.
    pub fn inner_mut(&mut self) -> (e: &mut E)
        ensures
            *e == old(self).engine(),
            final(self).engine() == *final(e),
            final(self).mode() == old(self).mode(),
            final(self).iv() == old(self).iv(),
    {
        &mut self.engine
    }

    /// Load a 128-bit key into the engine and select `mode`; a 256-bit key is
    /// refused and nothing changes.
    pub fn configure(&mut self, key: AesKey, mode: AesMode) -> (r: Result<(), Aes128Error>)
        requires
            old(self).wf(),
        ensures
            final(self).wf(),
            final(self).iv() == old(self).iv(),
            match key {
                AesKey::Bits128(k) => r is Ok && final(self).mode() == Some(mode)
                    && final(self).engine().keyed_with(k@),
                AesKey::Bits256(_) => r == Err::<(), Aes128Error>(Aes128Error::Aes256NotSupported)
                    && *final(self) == *old(self),
            },
    {
        let key_bytes: &[u8; 16] = match key {
            AesKey::Bits128(k) => k,
            AesKey::Bits256(_) => return Err(Aes128Error::Aes256NotSupported),
        };
        self.engine.init(key_bytes.as_slice(), None);
        assert(key_bytes@.subrange(0, 16) =~= key_bytes@);
        self.mode = Some(mode);
        Ok(())
    }

    /// Set the counter block that CTR starts from.
    pub fn set_iv(&mut self, iv: &[u8; 16]) -> (r: Result<(), Aes128Error>)
        ensures
            r is Ok,
            final(self).iv() == iv@,
            final(self).mode() == old(self).mode(),
            final(self).engine() == old(self).engine(),
    {
        self.iv = *iv;
        Ok(())
    }

    /// Run `input` through the configured mode into `output[..input.len()]`:
    /// ECB block by block (whole blocks only), or CTR from the IV with the last
    /// block possibly partial. The rest of `output` is untouched.
    pub fn process(&mut self, input: &[u8], output: &mut [u8]) -> (r: Result<(), Aes128Error>)
        requires
            old(self).wf(),
        ensures
            final(self).wf(),
            final(self).engine() == old(self).engine(),
            final(self).mode() == old(self).mode(),
            final(self).iv() == old(self).iv(),
            final(output)@.len() == old(output)@.len(),
            old(self).mode() is None ==> r == Err::<(), Aes128Error>(Aes128Error::NotConfigured),
            old(self).mode() is Some && old(output)@.len() < input@.len() ==> r == Err::<(), Aes128Error>(
                Aes128Error::OutputTooShort,
            ),
            old(self).mode() is Some && old(output)@.len() >= input@.len() && input@.len() % 16 != 0
                && old(self).mode() != Some(AesMode::CtrEncrypt) ==> r == Err::<(), Aes128Error>(
                Aes128Error::EcbLengthNotMultipleOf16,
            ),
            old(self).mode() is Some && old(output)@.len() >= input@.len() && (input@.len() % 16 == 0
                || old(self).mode() == Some(AesMode::CtrEncrypt)) ==> r is Ok,
            r is Err ==> final(output)@ == old(output)@,
            r is Ok ==> old(self).mode() is Some && final(output)@ == processed(
                old(self).engine(),
                old(self).mode()->0,
                old(self).iv(),
                input@,
            ) + old(output)@.skip(input@.len() as int),
    {
        let mode = match self.mode {
            Some(m) => m,
            None => return Err(Aes128Error::NotConfigured),
        };
        if output.len() < input.len() {
            return Err(Aes128Error::OutputTooShort);
        }
        let ghost out0 = output@;
        let ghost e = self.engine;
        match mode {
            AesMode::EcbEncrypt | AesMode::EcbDecrypt => {
                if input.len() % 16 != 0 {
                    return Err(Aes128Error::EcbLengthNotMultipleOf16);
                }
                let ghost f = if mode == AesMode::EcbEncrypt {
                    |b: Seq<u8>| e.block_enc(b)
                } else {
                    |b: Seq<u8>| e.block_dec(b)
                };
                let mut in_block = [0u8; 16];
                let mut out_block = [0u8; 16];
                let mut off: usize = 0;
                while off < input.len()
                    invariant
                        self.engine == e,
                        self.wf(),
                        self.mode == Some(mode),
                        mode == AesMode::EcbEncrypt || mode == AesMode::EcbDecrypt,
                        f == (if mode == AesMode::EcbEncrypt {
                            |b: Seq<u8>| e.block_enc(b)
                        } else {
                            |b: Seq<u8>| e.block_dec(b)
                        }),
                        input@.len() % 16 == 0,
                        off % 16 == 0,
                        off <= input@.len(),
                        output@.len() == out0.len(),
                        out0.len() >= input@.len(),
                        forall|j: int| 0 <= j < off ==> #[trigger] output@[j] == ecb_blocks(f, input@)[j],
                        forall|j: int| off <= j < out0.len() ==> #[trigger] output@[j] == out0[j],
                    decreases input@.len() - off,
                {
                    let mut k: usize = 0;
                    while k < 16
                        invariant
                            k <= 16,
                            off + 16 <= input@.len(),
                            input@.len() <= usize::MAX,
                            forall|t: int| 0 <= t < k ==> #[trigger] in_block@[t] == input@[off + t],
                        decreases 16 - k,
                    {
                        in_block[k] = input[off + k];
                        k += 1;
                    }
                    assert(in_block@ =~= input@.subrange(off as int, off + 16));
                    match mode {
                        AesMode::EcbEncrypt => self.engine.encrypt_block(&in_block, &mut out_block),
                        _ => self.engine.decrypt_block(&in_block, &mut out_block),
                    }
                    let mut k: usize = 0;
                    while k < 16
                        invariant
                            k <= 16,
                            off + 16 <= input@.len(),
                            input@.len() <= usize::MAX,
                            output@.len() == out0.len(),
                            out0.len() >= input@.len(),
                            forall|j: int| 0 <= j < off ==> #[trigger] output@[j] == ecb_blocks(f, input@)[j],
                            forall|t: int| 0 <= t < k ==> #[trigger] output@[off + t] == out_block@[t],
                            forall|j: int| off + k <= j < out0.len() ==> #[trigger] output@[j] == out0[j],
                        decreases 16 - k,
                    {
                        output[off + k] = out_block[k];
                        k += 1;
                    }
                    proof {
                        assert forall|j: int| 0 <= j < off + 16 implies #[trigger] output@[j] == ecb_blocks(
                            f,
                            input@,
                        )[j] by {
                            if j >= off {
                                assert(j / 16 == off / 16);
                                assert(16 * (j / 16) == off);
                                assert(output@[off + (j - off)] == out_block@[j - off]);
                            }
                        }
                    }
                    off += 16;
                }
                proof {
                    assert(output@ =~= processed(e, mode, self.iv@, input@) + out0.skip(input@.len() as int));
                }
            },
            AesMode::CtrEncrypt => {
                let ghost enc = |b: Seq<u8>| e.block_enc(b);
                let mut counter = self.iv;
                let mut keystream = [0u8; 16];
                let mut off: usize = 0;
                while off < input.len()
                    invariant
                        self.engine == e,
                        self.wf(),
                        self.mode == Some(mode),
                        mode == AesMode::CtrEncrypt,
                        enc == (|b: Seq<u8>| e.block_enc(b)),
                        off % 16 == 0 || off == input@.len(),
                        off <= input@.len(),
                        off % 16 == 0 ==> counter@ == counter_at(self.iv@, (off / 16) as nat),
                        output@.len() == out0.len(),
                        out0.len() >= input@.len(),
                        forall|j: int|
                            0 <= j < off ==> #[trigger] output@[j] == ctr_stream(enc, self.iv@, input@)[j],
                        forall|j: int| off <= j < out0.len() ==> #[trigger] output@[j] == out0[j],
                    decreases input@.len() - off,
                {
                    assert(off % 16 == 0);
                    self.engine.encrypt_block(&counter, &mut keystream);
                    let n = if input.len() - off < 16 {
                        input.len() - off
                    } else {
                        16
                    };
                    let mut i: usize = 0;
                    while i < n
                        invariant
                            i <= n,
                            n <= 16,
                            off + n <= input@.len(),
                            off % 16 == 0,
                            keystream@ == enc(counter_at(self.iv@, (off / 16) as nat)),
                            output@.len() == out0.len(),
                            out0.len() >= input@.len(),
                            forall|j: int|
                                0 <= j < off + i ==> #[trigger] output@[j] == ctr_stream(enc, self.iv@, input@)[j],
                            forall|j: int| off + i <= j < out0.len() ==> #[trigger] output@[j] == out0[j],
                        decreases n - i,
                    {
                        proof {
                            let j = off + i;
                            assert(j / 16 == off / 16);
                            assert(j % 16 == i);
                        }
                        output[off + i] = input[off + i] ^ keystream[i];
                        i += 1;
                    }
                    increment_counter(&mut counter);
                    proof {
                        assert((off + n) / 16 == off / 16 + 1 || off + n == input@.len());
                    }
                    off += n;
                }
                proof {
                    assert(output@ =~= processed(e, mode, self.iv@, input@) + out0.skip(input@.len() as int));
                }
            },
        }
        Ok(())
    }
}

} // verus!

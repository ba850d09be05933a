//! Chained measurement of enclave blobs and of the boot-time model blobs.
//!
//! An enclave blob on flash is a header followed by blocks of
//! `[metadata (32) | code (256)]`. Its measurement starts from a seed (the
//! master key) and folds each block in order as
//! `chain = HMAC-SHA256(chain, block_id_le ‖ code ‖ metadata)`; the final chain
//! must equal the HMAC in the header. The boot-time model blobs are measured
//! the same way over 256-byte chunks, the last one zero-padded.

use crate::crypto_engine::{CryptoCall, CryptoEngine, UmbraError};
use crate::validator::{build_mac_input, ct_eq_32, mac_input, BLOCK_META_SIZE, CODE_BLOCK_SIZE};
use vstd::prelude::*;

verus! {

/// Bytes before the code in a block on flash (the metadata).
pub const BLOCK_HEADER_SIZE: u32 = 32;

/// Offset of the metadata within a block on flash.
pub const BLOCK_META_OFFSET: u32 = 0;

/// Bytes per block on flash.
pub const TOTAL_BLOCK_SIZE: u32 = 288;

/// Code bytes per block.
pub const CODE_BYTES: u32 = 256;

/// Chunk length of the boot-blob measurement.
pub const MEASURE_CHUNK: usize = 256;

/// Status code of an address computation that overflowed.
pub const OFFSET_OVERFLOW_STATUS: u32 = 0xFFFF_FFF7;

/// Why a measured region was refused.
#[derive(Clone, Copy, Debug, PartialEq, Eq, Structural)]
pub enum MeasureError {
    /// The final chain differs from the expected HMAC.
    Mismatch,
    /// The keyed hash failed part-way.
    HashFailed,
}

/// What an HMAC call produced (empty for any other call).
pub open spec fn hmac_out(c: CryptoCall) -> Seq<u8> {
    match c {
        CryptoCall::Hmac { out, .. } => out,
        _ => Seq::empty(),
    }
}

/// The call succeeded.
pub open spec fn call_ok(c: CryptoCall) -> bool {
    match c {
        CryptoCall::Hmac { ok, .. } => ok,
        CryptoCall::Hash { ok, .. } => ok,
        CryptoCall::Decrypt { ok, .. } => ok,
    }
}

/// `c` is an HMAC of `data` under `key`.
pub open spec fn is_hmac_of(c: CryptoCall, key: Seq<u8>, data: Seq<u8>) -> bool {
    c matches CryptoCall::Hmac { key: k, data: d, .. } && k == key && d == data
}

/// Flash address of block `blk` of the blob at `flash_base` whose header is
/// `header_size` bytes.
pub open spec fn block_base(flash_base: u32, header_size: u32, blk: u32) -> int {
    flash_base + header_size + blk * TOTAL_BLOCK_SIZE
}

/// Flash addresses of the code and of the metadata of block `blk`, or `None`
/// where an address would not fit in 32 bits.
pub fn block_flash_addrs(flash_base: u32, header_size: u32, blk: u32) -> (r: Option<(u32, u32)>)
    ensures
        r is Some <==> block_base(flash_base, header_size, blk) + BLOCK_HEADER_SIZE <= u32::MAX,
        r is Some ==> r.unwrap().0 == block_base(flash_base, header_size, blk) + BLOCK_HEADER_SIZE
            && r.unwrap().1 == block_base(flash_base, header_size, blk) + BLOCK_META_OFFSET,
{
    let blk_off = match blk.checked_mul(TOTAL_BLOCK_SIZE) {
        Some(v) => v,
        None => return None,
    };
    let with_header = match flash_base.checked_add(header_size) {
        Some(v) => v,
        None => return None,
    };
    let base = match with_header.checked_add(blk_off) {
        Some(v) => v,
        None => return None,
    };
    let code = match base.checked_add(BLOCK_HEADER_SIZE) {
        Some(v) => v,
        None => return None,
    };
    Some((code, base + BLOCK_META_OFFSET))
}

/// Source (code on flash) and destination (slot in the swap space at
/// `ess_base`) of loading block `blk`; `Err(OFFSET_OVERFLOW_STATUS)` where an
/// address would not fit in 32 bits.
pub fn load_block_addrs(flash_base: u32, header_size: u32, ess_base: u32, blk: u32) -> (r: Result<
    (u32, u32),
    u32,
>)
    ensures
        r is Ok <==> block_base(flash_base, header_size, blk) + BLOCK_HEADER_SIZE <= u32::MAX
            && ess_base + blk * CODE_BYTES <= u32::MAX,
        r is Ok ==> r->Ok_0.0 == block_base(flash_base, header_size, blk) + BLOCK_HEADER_SIZE
            && r->Ok_0.1 == ess_base + blk * CODE_BYTES,
        r is Err ==> r->Err_0 == OFFSET_OVERFLOW_STATUS,
{
    let with_header = match flash_base.checked_add(header_size) {
        Some(v) => v,
        None => return Err(OFFSET_OVERFLOW_STATUS),
    };
    let blk_off = match blk.checked_mul(TOTAL_BLOCK_SIZE) {
        Some(v) => v,
        None => return Err(OFFSET_OVERFLOW_STATUS),
    };
    let flash_block_base = match with_header.checked_add(blk_off) {
        Some(v) => v,
        None => return Err(OFFSET_OVERFLOW_STATUS),
    };
    let code_src = match flash_block_base.checked_add(BLOCK_HEADER_SIZE) {
        Some(v) => v,
        None => return Err(OFFSET_OVERFLOW_STATUS),
    };
    let code_off = match blk.checked_mul(CODE_BYTES) {
        Some(v) => v,
        None => return Err(OFFSET_OVERFLOW_STATUS),
    };
    let ess_dst = match ess_base.checked_add(code_off) {
        Some(v) => v,
        None => return Err(OFFSET_OVERFLOW_STATUS),
    };
    Ok((code_src, ess_dst))
}

/// `c` folds block `blk` (`code`, `meta`) into the chain `key`, and `ok`
/// tells whether it succeeded.
pub open spec fn is_fold_of(c: CryptoCall, key: Seq<u8>, blk: u32, code: Seq<u8>, meta: Seq<u8>) -> bool {
    is_hmac_of(c, key, mac_input(blk, code, meta))
}

/// Fold block `blk` into the running measurement:
/// `chain = HMAC(chain, blk_le ‖ code ‖ meta)`. Where the keyed hash fails,
/// `HashHardware` is returned and the chain is left as it was.
pub fn fold_block<C: CryptoEngine>(
    crypto: &mut C,
    chain: &mut [u8; 32],
    blk: u32,
    code: &[u8; CODE_BLOCK_SIZE],
    meta: &[u8; BLOCK_META_SIZE],
) -> (r: Result<(), UmbraError>)
    requires
        old(crypto).crypto_wf(),
    ensures
        final(crypto).crypto_wf(),
        final(crypto).calls().len() == old(crypto).calls().len() + 1,
        final(crypto).calls().drop_last() == old(crypto).calls(),
        is_fold_of(final(crypto).calls().last(), old(chain)@, blk, code@, meta@),
        (r is Ok) == call_ok(final(crypto).calls().last()),
        r is Ok ==> final(chain)@ == hmac_out(final(crypto).calls().last()),
        r is Err ==> r == Err::<(), UmbraError>(UmbraError::HashHardware) && *final(chain) == *old(
            chain,
        ),
{
    let input = build_mac_input(blk, code, meta);
    let mut out = [0u8; 32];
    let h = crypto.hmac(chain.as_slice(), input.as_slice(), &mut out);
    proof {
        assert(crypto.calls().drop_last() =~= old(crypto).calls());
    }
    if h.is_err() {
        return Err(UmbraError::HashHardware);
    }
    *chain = out;
    Ok(())
}

/// `Ok` exactly when the final chain equals the expected HMAC; the comparison
/// takes the same time wherever the two differ.
pub fn finalize_measurement(chain: &[u8; 32], expected: &[u8; 32]) -> (r: Result<(), ()>)
    ensures
        r is Ok <==> chain@ == expected@,
{
    if ct_eq_32(chain, expected) {
        Ok(())
    } else {
        Err(())
    }
}

/// Chunk `i` of `data`: 256 bytes from offset `256 * i`, zero past the end.
pub open spec fn padded_chunk(data: Seq<u8>, i: int) -> Seq<u8> {
    Seq::new(256, |j: int| if 256 * i + j < data.len() { data[256 * i + j] } else { 0u8 })
}

/// Number of chunks of a region of `len` bytes.
pub open spec fn num_chunks(len: nat) -> nat {
    ((len + 255) / 256) as nat
}

/// The chain before chunk `i`: the seed for the first, else the output of
/// the previous call.
pub open spec fn state_before(c: Seq<CryptoCall>, n: int, seed: Seq<u8>, i: int) -> Seq<u8> {
    if i == 0 {
        seed
    } else {
        hmac_out(c[n + i - 1])
    }
}

/// Calls `n .. n + k` of `c` fold the chunks `0 .. k` of `data` from `seed`,
/// each one keyed with the chain the previous one produced, and all but the
/// last of them succeeded.
pub open spec fn folds_chunks(c: Seq<CryptoCall>, n: int, seed: Seq<u8>, data: Seq<u8>, k: int) -> bool {
    &&& forall|i: int|
        0 <= i < k ==> #[trigger] is_hmac_of(c[n + i], state_before(c, n, seed, i), padded_chunk(data, i))
    &&& forall|i: int| 0 <= i < k - 1 ==> #[trigger] call_ok(c[n + i])
}

/// Calls `n .. m` of `c` measure `data` from `seed` against `expected` with
/// outcome `r`: the chunks are folded in order, the first failed keyed hash
/// ends it with `HashFailed`, and after the last chunk the chain is compared.
pub open spec fn region_measured(
    c: Seq<CryptoCall>,
    n: int,
    m: int,
    seed: Seq<u8>,
    data: Seq<u8>,
    expected: Seq<u8>,
    r: Result<(), MeasureError>,
) -> bool {
    let k = m - n;
    let all_done = k == num_chunks(data.len()) && (k == 0 || call_ok(c[n + k - 1]));
    &&& 0 <= n <= m <= c.len()
    &&& k <= num_chunks(data.len())
    &&& folds_chunks(c, n, seed, data, k)
    &&& (r is Ok <==> all_done && state_before(c, n, seed, k) == expected)
    &&& (r == Err::<(), MeasureError>(MeasureError::HashFailed) <==> k > 0 && !call_ok(c[n + k - 1]))
    &&& (r == Err::<(), MeasureError>(MeasureError::Mismatch) <==> all_done && state_before(c, n, seed, k)
        != expected)
}

/// Measure `data` from `seed` in 256-byte chunks (the last zero-padded) and
/// compare the final chain with `expected`. Stops at the first failed keyed
/// hash with `HashFailed`.
pub fn measure_region<C: CryptoEngine>(
    crypto: &mut C,
    seed: &[u8; 32],
    data: &[u8],
    expected: &[u8; 32],
) -> (r: Result<(), MeasureError>)
    requires
        old(crypto).crypto_wf(),
        data@.len() + 256 <= u32::MAX,
    ensures
        final(crypto).crypto_wf(),
        region_measured(
            final(crypto).calls(),
            old(crypto).calls().len() as int,
            final(crypto).calls().len() as int,
            seed@,
            data@,
            expected@,
            r,
        ),
        final(crypto).calls().take(old(crypto).calls().len() as int) == old(crypto).calls(),
{
    let ghost n = crypto.calls().len() as int;
    let ghost c0 = crypto.calls();
    let len = data.len();
    let mut state = *seed;
    let mut off: usize = 0;
    let ghost mut k: int = 0;
    while off < len
        invariant
            crypto.crypto_wf(),
            len == data@.len(),
            len + 256 <= u32::MAX,
            off == 256 * k,
            0 <= k,
            k == 0 || 256 * (k - 1) < len,
            n == c0.len(),
            c0 == old(crypto).calls(),
            crypto.calls().len() == n + k,
            crypto.calls().take(n) == c0,
            folds_chunks(crypto.calls(), n, seed@, data@, k),
            k > 0 ==> call_ok(crypto.calls()[n + k - 1]),
            state@ == state_before(crypto.calls(), n, seed@, k),
        decreases len + 256 - off,
    {
        let mut chunk = [0u8; 256];
        let mut i: usize = 0;
        while i < 256
            invariant
                i <= 256,
                off == 256 * k,
                off < len,
                len == data@.len(),
                len + 256 <= u32::MAX,
                forall|j: int| 0 <= j < i ==> #[trigger] chunk@[j] == padded_chunk(data@, k)[j],
            decreases 256 - i,
        {
            if off + i < len {
                chunk[i] = data[off + i];
            } else {
                chunk[i] = 0;
            }
            i += 1;
        }
        assert(chunk@ =~= padded_chunk(data@, k));
        let ghost before = crypto.calls();
        let mut out = [0u8; 32];
        let h = crypto.hmac(state.as_slice(), chunk.as_slice(), &mut out);
        proof {
            let c = crypto.calls();
            assert(c.take(n) =~= c0) by {
                assert(before.take(n) == c0);
            }
            assert forall|i: int| 0 <= i < k + 1 implies #[trigger] is_hmac_of(
                c[n + i],
                state_before(c, n, seed@, i),
                padded_chunk(data@, i),
            ) by {
                if i < k {
                    assert(c[n + i] == before[n + i]);
                    assert(is_hmac_of(before[n + i], state_before(before, n, seed@, i), padded_chunk(data@, i)));
                    if i > 0 {
                        assert(c[n + i - 1] == before[n + i - 1]);
                    }
                }
            }
            assert forall|i: int| 0 <= i < k implies #[trigger] call_ok(c[n + i]) by {
                assert(c[n + i] == before[n + i]);
                if i < k - 1 {
                    assert(call_ok(before[n + i]));
                }
            }
        }
        if h.is_err() {
            proof {
                k = k + 1;
            }
            return Err(MeasureError::HashFailed);
        }
        state = out;
        off = off + 256;
        proof {
            k = k + 1;
        }
    }
    proof {
        assert(k == num_chunks(len as nat)) by (nonlinear_arith)
            requires
                off == 256 * k,
                off >= len,
                k == 0 || 256 * (k - 1) < len,
                0 <= k,
        ;
    }
    if ct_eq_32(&state, expected) {
        Ok(())
    } else {
        Err(MeasureError::Mismatch)
    }
}

/// Measure the model bytecode and then the model weights, each from `seed`
/// against its own expected HMAC; the first refusal is returned and the
/// weights are not measured after a refused bytecode.
pub fn measure_boot_blobs<C: CryptoEngine>(
    crypto: &mut C,
    seed: &[u8; 32],
    bytecode: &[u8],
    bytecode_hmac: &[u8; 32],
    weights: &[u8],
    weights_hmac: &[u8; 32],
) -> (r: Result<(), MeasureError>)
    requires
        old(crypto).crypto_wf(),
        bytecode@.len() + 256 <= u32::MAX,
        weights@.len() + 256 <= u32::MAX,
    ensures
        final(crypto).crypto_wf(),
        final(crypto).calls().take(old(crypto).calls().len() as int) == old(crypto).calls(),
        exists|m: int, r1: Result<(), MeasureError>|
            #[trigger] region_measured(
                final(crypto).calls(),
                old(crypto).calls().len() as int,
                m,
                seed@,
                bytecode@,
                bytecode_hmac@,
                r1,
            ) && if r1 is Ok {
                region_measured(final(crypto).calls(), m, final(crypto).calls().len() as int, seed@, weights@, weights_hmac@, r)
            } else {
                r == r1 && m == final(crypto).calls().len()
            },
{
    let ghost n = crypto.calls().len() as int;
    let r1 = measure_region(crypto, seed, bytecode, bytecode_hmac);
    let ghost c1 = crypto.calls();
    let ghost m = c1.len() as int;
    if r1.is_err() {
        assert(region_measured(crypto.calls(), n, m, seed@, bytecode@, bytecode_hmac@, r1));
        return r1;
    }
    let r2 = measure_region(crypto, seed, weights, weights_hmac);
    proof {
        let c = crypto.calls();
        assert(c.take(m) == c1);
        assert(c.take(n) =~= old(crypto).calls()) by {
            assert(c.take(n) =~= c1.take(n));
        }
        lemma_region_prefix(c1, c, n, m, seed@, bytecode@, bytecode_hmac@, r1);
        assert(region_measured(c, n, m, seed@, bytecode@, bytecode_hmac@, r1));
    }
    r2
}

/// A measurement read off a call log still reads the same off any extension
/// of it.
proof fn lemma_region_prefix(
    c1: Seq<CryptoCall>,
    c: Seq<CryptoCall>,
    n: int,
    m: int,
    seed: Seq<u8>,
    data: Seq<u8>,
    expected: Seq<u8>,
    r: Result<(), MeasureError>,
)
    requires
        region_measured(c1, n, m, seed, data, expected, r),
        m <= c1.len() <= c.len(),
        c.take(c1.len() as int) == c1,
    ensures
        region_measured(c, n, m, seed, data, expected, r),
{
    assert forall|i: int| n <= i < m implies c[i] == c1[i] by {
        assert(c.take(c1.len() as int)[i] == c[i]);
    }
    let k = m - n;
    assert forall|i: int| 0 <= i < k implies #[trigger] is_hmac_of(
        c[n + i],
        state_before(c, n, seed, i),
        padded_chunk(data, i),
    ) by {
        assert(c[n + i] == c1[n + i]);
        assert(is_hmac_of(c1[n + i], state_before(c1, n, seed, i), padded_chunk(data, i)));
        if i > 0 {
            assert(c[n + i - 1] == c1[n + i - 1]);
        }
    }
    assert forall|i: int| 0 <= i < k - 1 implies #[trigger] call_ok(c[n + i]) by {
        assert(c[n + i] == c1[n + i]);
        assert(call_ok(c1[n + i]));
    }
    if k > 0 {
        assert(c[n + k - 1] == c1[n + k - 1]);
    }
}

/// An enclave in the swap space: where its code starts, how many blocks it
/// has there, its id, and the flash base it was created from.
#[derive(Clone, Copy, Debug)]
pub struct LoadedExtent {
    pub start_address: u32,
    pub efb_count: u32,
    pub id: u32,
    pub flash_base: u32,
}

/// One past the last code byte of `e`.
pub open spec fn extent_top(e: LoadedExtent) -> int {
    e.start_address + e.efb_count * CODE_BYTES
}

/// `pc` lies in the code of the loaded enclave in slot `e` (an extent whose
/// end would not fit in 32 bits covers nothing).
pub open spec fn covers(e: Option<LoadedExtent>, pc: u32) -> bool {
    e matches Some(x) && extent_top(x) <= u32::MAX && x.start_address <= pc && pc < extent_top(x)
}

/// The enclave and block that `pc` falls in: the first slot whose extent
/// covers it, as `(id, (pc - start) / 256)`; `None` if no slot does.
pub fn lookup_faulting_block(slots: &[Option<LoadedExtent>], pc: u32) -> (r: Option<(u32, u32)>)
    ensures
        r is None <==> forall|i: int| 0 <= i < slots@.len() ==> !#[trigger] covers(slots@[i], pc),
        r is Some ==> exists|i: int|
            0 <= i < slots@.len() && #[trigger] covers(slots@[i], pc) && (forall|j: int|
                0 <= j < i ==> !#[trigger] covers(slots@[j], pc)) && r.unwrap().0 == slots@[i].unwrap().id
                && r.unwrap().1 == (pc - slots@[i].unwrap().start_address) / 256,
{
    let mut i: usize = 0;
    while i < slots.len()
        invariant
            i <= slots@.len(),
            forall|j: int| 0 <= j < i ==> !#[trigger] covers(slots@[j], pc),
        decreases slots@.len() - i,
    {
        match slots[i] {
            Some(e) => {
                let top = match e.efb_count.checked_mul(CODE_BYTES) {
                    Some(x) => e.start_address.checked_add(x),
                    None => None,
                };
                match top {
                    Some(t) => {
                        if pc >= e.start_address && pc < t {
                            assert(covers(slots@[i as int], pc));
                            return Some((e.id, (pc - e.start_address) / CODE_BYTES));
                        }
                    },
                    None => {},
                }
            },
            None => {},
        }
        i += 1;
    }
    None
}

} // verus!

//! Pieces of remote attestation and enclave versioning that the secure world
//! computes: the non-secure pointer check, the keyed tags over the hardware
//! HMAC, and the version and anchor state that go into a quote.

use crate::hash::{digest_read, hash_stalled, hmac_writes, HashError};
use crate::mmio::POLL_LIMIT;
use crate::mmio::{extends, MmioAccess};
use crate::state_anchor::{loaded, StateAnchor};
use crate::tamp_store::TampStore;
use vstd::prelude::*;

verus! {

/// Non-secure host RAM window (AXISRAM3, NS alias).
pub const NS_RAM_LO: u32 = 0x2400_0000;
pub const NS_RAM_HI: u32 = 0x2410_0000;

/// Scratch size for flattening a multi-part HMAC preimage.
pub const HMAC_SCRATCH: usize = 128;

/// True iff `[ptr, ptr + len)` lies inside the non-secure host RAM window.
pub fn ns_range_ok(ptr: u32, len: u32) -> (b: bool)
    ensures
        b == (NS_RAM_LO <= ptr && ptr + len <= NS_RAM_HI),
{
    match ptr.checked_add(len) {
        Some(end) => ptr >= NS_RAM_LO && end <= NS_RAM_HI,
        None => false,
    }
}

/// The little-endian bytes of a word.
pub open spec fn le_bytes(w: u32) -> Seq<u8> {
    seq![w as u8, (w >> 8u32) as u8, (w >> 16u32) as u8, (w >> 24u32) as u8]
}

/// The number four bytes spell, least significant first.
pub open spec fn le_value4(s: Seq<u8>) -> int {
    s[0] as int + 256 * (s[1] as int) + 65536 * (s[2] as int) + 16777216 * (s[3] as int)
}

/// The four little-endian bytes of a word spell the word back.
pub proof fn lemma_le_bytes_value(w: u32)
    ensures
        le_bytes(w).len() == 4,
        le_value4(le_bytes(w)) == w as int,
{
    let b0 = w as u8;
    let b1 = (w >> 8u32) as u8;
    let b2 = (w >> 16u32) as u8;
    let b3 = (w >> 24u32) as u8;
    assert(w == (b0 as u32) + 256 * (b1 as u32) + 65536 * (b2 as u32) + 16777216 * (b3 as u32))
        by (bit_vector)
        requires
            b0 == w as u8,
            b1 == (w >> 8u32) as u8,
            b2 == (w >> 16u32) as u8,
            b3 == (w >> 24u32) as u8,
    ;
}

/// Label of the version tag.
pub open spec fn encver_label() -> Seq<u8> {
    seq![0x75u8, 0x6d, 0x62, 0x72, 0x61, 0x2d, 0x65, 0x6e, 0x63, 0x76, 0x65, 0x72, 0x2d, 0x76, 0x31]
}

/// The preimage of the version tag: the label, the author id and the version,
/// both little-endian.
pub open spec fn version_preimage(author_id: u32, version: u32) -> Seq<u8> {
    encver_label() + le_bytes(author_id) + le_bytes(version)
}

/// Layout of the version preimage: the 15 label bytes `umbra-encver-v1`,
/// then the author id, then the version, each as a little-endian word, and
/// nothing else. Distinct (author, version) pairs give distinct preimages.
pub proof fn lemma_version_preimage_layout(author_id: u32, version: u32)
    ensures
        version_preimage(author_id, version).len() == 23,
        version_preimage(author_id, version).take(15) == seq![
            0x75u8, 0x6d, 0x62, 0x72, 0x61, 0x2d, 0x65, 0x6e, 0x63, 0x76, 0x65, 0x72, 0x2d, 0x76, 0x31,
        ],
        le_value4(version_preimage(author_id, version).subrange(15, 19)) == author_id as int,
        le_value4(version_preimage(author_id, version).subrange(19, 23)) == version as int,
        forall|a2: u32, v2: u32|
            #[trigger] version_preimage(a2, v2) == version_preimage(author_id, version) ==> a2
                == author_id && v2 == version,
{
    let p = version_preimage(author_id, version);
    lemma_le_bytes_value(author_id);
    lemma_le_bytes_value(version);
    assert(p.subrange(15, 19) =~= le_bytes(author_id));
    assert(p.subrange(19, 23) =~= le_bytes(version));
    assert(p.take(15) =~= seq![
        0x75u8, 0x6d, 0x62, 0x72, 0x61, 0x2d, 0x65, 0x6e, 0x63, 0x76, 0x65, 0x72, 0x2d, 0x76, 0x31,
    ]);
    assert forall|a2: u32, v2: u32|
        #[trigger] version_preimage(a2, v2) == p implies a2 == author_id && v2 == version by {
        let q = version_preimage(a2, v2);
        lemma_le_bytes_value(a2);
        lemma_le_bytes_value(v2);
        assert(q.subrange(15, 19) =~= le_bytes(a2));
        assert(q.subrange(19, 23) =~= le_bytes(v2));
    }
}

fn put_le(buf: &mut [u8; 23], at: usize, w: u32)
    requires
        at + 4 <= 23,
    ensures
        final(buf)@ == old(buf)@.take(at as int) + le_bytes(w) + old(buf)@.skip(at + 4),
{
    buf[at] = w as u8;
    buf[at + 1] = (w >> 8u32) as u8;
    buf[at + 2] = (w >> 16u32) as u8;
    buf[at + 3] = (w >> 24u32) as u8;
    assert(buf@ =~= old(buf)@.take(at as int) + le_bytes(w) + old(buf)@.skip(at + 4));
}

/// Bind `(author_id, version)` to the block measurement `bm`: HMAC keyed by
/// `bm` over the label, the author id and the version.
pub fn version_tag<M: MmioAccess>(hash: &mut crate::hash::Hash<M>, bm: &[u8; 32], author_id: u32, version: u32) -> (r: Result<[u8; 32], HashError>)
    ensures
        final(hash).base() == old(hash).base(),
        extends(final(hash).ops(), old(hash).ops()),
        r is Ok ==> final(hash).writes() == old(hash).writes() + hmac_writes(
            old(hash).base(),
            bm@,
            version_preimage(author_id, version),
        ) && digest_read(old(hash).base(), final(hash).ops(), r->Ok_0@),
        r is Err ==> r == Err::<[u8; 32], HashError>(HashError::Timeout) && final(hash).ops().len() >= old(
            hash,
        ).ops().len() + POLL_LIMIT && hash_stalled(old(hash).base(), final(hash).ops()),
{
    let label: [u8; 15] = [0x75, 0x6d, 0x62, 0x72, 0x61, 0x2d, 0x65, 0x6e, 0x63, 0x76, 0x65, 0x72, 0x2d, 0x76, 0x31];
    let mut input = [0u8; 23];
    let mut i: usize = 0;
    while i < 15
        invariant
            i <= 15,
            forall|j: int| 0 <= j < i ==> #[trigger] input@[j] == label@[j],
        decreases 15 - i,
    {
        input[i] = label[i];
        i += 1;
    }
    put_le(&mut input, 15, author_id);
    put_le(&mut input, 19, version);
    assert(input@ =~= version_preimage(author_id, version));
    let mut out = [0u8; 32];
    match hash.hmac_sha256(bm.as_slice(), input.as_slice(), &mut out) {
        Ok(()) => Ok(out),
        Err(e) => Err(e),
    }
}

/// Label of the keyed poison value returned for an over-long preimage.
pub open spec fn overflow_label() -> Seq<u8> {
    seq![
        0x75u8, 0x6d, 0x62, 0x72, 0x61, 0x2d, 0x68, 0x6d, 0x61, 0x63, 0x2d, 0x6f, 0x76, 0x65, 0x72,
        0x66, 0x6c, 0x6f, 0x77,
    ]
}

/// Concatenation of the parts.
pub open spec fn concat_parts(parts: Seq<Seq<u8>>) -> Seq<u8>
    decreases parts.len(),
{
    if parts.len() == 0 {
        Seq::empty()
    } else {
        concat_parts(parts.drop_last()) + parts.last()
    }
}

/// What `hw_hmac_single` authenticates: the single part as is, the
/// concatenation when it fits the scratch, else the overflow label.
pub open spec fn hmac_preimage(parts: Seq<Seq<u8>>) -> Seq<u8> {
    if parts.len() == 1 {
        parts[0]
    } else if concat_parts(parts).len() <= HMAC_SCRATCH {
        concat_parts(parts)
    } else {
        overflow_label()
    }
}

proof fn lemma_concat_len_mono(parts: Seq<Seq<u8>>, k: int)
    requires
        0 <= k <= parts.len(),
    ensures
        concat_parts(parts.take(k)).len() <= concat_parts(parts).len(),
    decreases parts.len() - k,
{
    if k < parts.len() {
        lemma_concat_len_mono(parts, k + 1);
        assert(parts.take(k + 1).drop_last() =~= parts.take(k));
    } else {
        assert(parts.take(k) =~= parts);
    }
}

/// HMAC-SHA256 on the hardware over the concatenation of `parts`, flattened
/// into a 128-byte scratch. A preimage longer than the scratch gives a keyed
/// poison value (the HMAC of a fixed label), never a constant: an attacker who
/// cannot compute it cannot match it.
pub fn hw_hmac_single<M: MmioAccess>(hash: &mut crate::hash::Hash<M>, key: &[u8], parts: &[&[u8]]) -> (r: Result<[u8; 32], HashError>)
    ensures
        final(hash).base() == old(hash).base(),
        extends(final(hash).ops(), old(hash).ops()),
        r is Ok ==> final(hash).writes() == old(hash).writes() + hmac_writes(
            old(hash).base(),
            key@,
            hmac_preimage(parts@.map_values(|p: &[u8]| p@)),
        ) && digest_read(old(hash).base(), final(hash).ops(), r->Ok_0@),
        r is Err ==> r == Err::<[u8; 32], HashError>(HashError::Timeout) && final(hash).ops().len() >= old(
            hash,
        ).ops().len() + POLL_LIMIT && hash_stalled(old(hash).base(), final(hash).ops()),
{
    let ghost ps = parts@.map_values(|p: &[u8]| p@);
    let mut out = [0u8; 32];
    if parts.len() == 1 {
        match hash.hmac_sha256(key, parts[0], &mut out) {
            Ok(()) => return Ok(out),
            Err(e) => return Err(e),
        }
    }
    let mut buf = [0u8; 128];
    let mut n: usize = 0;
    let mut i: usize = 0;
    while i < parts.len()
        invariant
            i <= parts@.len(),
            *hash == *old(hash),
            parts@.len() != 1,
            ps == parts@.map_values(|p: &[u8]| p@),
            n == concat_parts(ps.take(i as int)).len(),
            n <= 128,
            forall|j: int| 0 <= j < n ==> #[trigger] buf@[j] == concat_parts(ps.take(i as int))[j],
        decreases parts@.len() - i,
    {
        let p = parts[i];
        assert(ps.take(i + 1).drop_last() =~= ps.take(i as int));
        if p.len() > 128 - n {
            proof {
                lemma_concat_len_mono(ps, i + 1);
            }
            let label: [u8; 19] = [
                0x75, 0x6d, 0x62, 0x72, 0x61, 0x2d, 0x68, 0x6d, 0x61, 0x63, 0x2d, 0x6f, 0x76, 0x65,
                0x72, 0x66, 0x6c, 0x6f, 0x77,
            ];
            assert(label@ =~= overflow_label());
            let mut poison = [0u8; 32];
            match hash.hmac_sha256(key, label.as_slice(), &mut poison) {
                Ok(()) => return Ok(poison),
                Err(e) => return Err(e),
            }
        }
        let mut k: usize = 0;
        while k < p.len()
            invariant
                k <= p@.len(),
                n + p@.len() <= 128,
                n == concat_parts(ps.take(i as int)).len(),
                p@ == ps[i as int],
                forall|j: int| 0 <= j < n ==> #[trigger] buf@[j] == concat_parts(ps.take(i as int))[j],
                forall|j: int| 0 <= j < k ==> #[trigger] buf@[n + j] == p@[j],
            decreases p@.len() - k,
        {
            buf[n + k] = p[k];
            k += 1;
        }
        proof {
            let c = concat_parts(ps.take(i + 1));
            assert(c =~= concat_parts(ps.take(i as int)) + ps[i as int]);
            assert forall|j: int| 0 <= j < n + p@.len() implies #[trigger] buf@[j] == c[j] by {
                if j >= n {
                    assert(buf@[n + (j - n)] == p@[j - n]);
                }
            }
        }
        n += p.len();
        i += 1;
    }
    assert(ps.take(i as int) =~= ps);
    let msg = &buf.as_slice()[0..n];
    assert(msg@ =~= concat_parts(ps));
    match hash.hmac_sha256(key, msg, &mut out) {
        Ok(()) => Ok(out),
        Err(e) => Err(e),
    }
}

/// Generation of the state-continuity anchor, 0 when cold or absent.
pub fn read_anchor_gen<M: MmioAccess>(anchor: &mut StateAnchor<M>) -> (g: u32)
    ensures
        final(anchor).cells() == old(anchor).cells(),
        old(anchor).is_storage() ==> g == match loaded(old(anchor).cells()) {
            Some(a) => a.0,
            None => 0,
        },
{
    match anchor.load() {
        Some(a) => a.generation,
        None => 0,
    }
}

/// (author id, anti-rollback floor of that author, flags with bit 0 set) for
/// a quote of an image built with version binding.
pub fn gather_version_state<M: MmioAccess>(tamp: &mut TampStore<M>, author_id: u32) -> (r: (u32, u32, u32))
    ensures
        r.0 == author_id,
        r.2 == 1,
        old(tamp).is_storage() ==> r.1 == old(tamp).floor(author_id),
        final(tamp).cells() == old(tamp).cells(),
{
    let floor = tamp.rb_floor(author_id);
    (author_id, floor, 0x1)
}

/// CTR initial counter block of an enclave's snapshot: the enclave id
/// little-endian in bytes 0..4, the rest zero.
pub fn snapshot_iv(enclave_id: u32) -> (iv: [u8; 16])
    ensures
        iv@ == le_bytes(enclave_id) + Seq::new(12, |i: int| 0u8),
{
    let mut iv = [0u8; 16];
    iv[0] = enclave_id as u8;
    iv[1] = (enclave_id >> 8u32) as u8;
    iv[2] = (enclave_id >> 16u32) as u8;
    iv[3] = (enclave_id >> 24u32) as u8;
    assert(iv@ =~= le_bytes(enclave_id) + Seq::new(12, |i: int| 0u8));
    iv
}

/// The current enclave and its state code for a quote: `(0, 0)` with no
/// enclave running, `(id, 0)` when the running id is in no slot, else the id
/// and the state code of the first slot that holds it.
pub fn gather_enclave_state(current: Option<u32>, ids: &[Option<u32>], states: &[u8]) -> (r: (u32, u8))
    requires
        states@.len() == ids@.len(),
    ensures
        match current {
            None => r == (0u32, 0u8),
            Some(id) => r.0 == id && (if exists|i: int| 0 <= i < ids@.len() && #[trigger] ids@[i] == Some(id) {
                exists|i: int|
                    0 <= i < ids@.len() && #[trigger] ids@[i] == Some(id) && r.1 == states@[i] && forall|j: int|
                        0 <= j < i ==> ids@[j] != Some(id)
            } else {
                r.1 == 0
            }),
        },
{
    match current {
        None => (0, 0),
        Some(id) => match crate::exceptions::slot_of(ids, id) {
            Some(idx) => (id, states[idx]),
            None => (id, 0),
        },
    }
}

} // verus!

//! Software SHA-256 (FIPS 180-4).

use crate::mmio::MmioAccess;
use vstd::prelude::*;

verus! {

/// SHA-256 round constants (FIPS 180-4 §4.2.2).
pub const K: [u32; 64] = [
    0x428a2f98, 0x71374491, 0xb5c0fbcf, 0xe9b5dba5, 0x3956c25b, 0x59f111f1, 0x923f82a4, 0xab1c5ed5,
    0xd807aa98, 0x12835b01, 0x243185be, 0x550c7dc3, 0x72be5d74, 0x80deb1fe, 0x9bdc06a7, 0xc19bf174,
    0xe49b69c1, 0xefbe4786, 0x0fc19dc6, 0x240ca1cc, 0x2de92c6f, 0x4a7484aa, 0x5cb0a9dc, 0x76f988da,
    0x983e5152, 0xa831c66d, 0xb00327c8, 0xbf597fc7, 0xc6e00bf3, 0xd5a79147, 0x06ca6351, 0x14292967,
    0x27b70a85, 0x2e1b2138, 0x4d2c6dfc, 0x53380d13, 0x650a7354, 0x766a0abb, 0x81c2c92e, 0x92722c85,
    0xa2bfe8a1, 0xa81a664b, 0xc24b8b70, 0xc76c51a3, 0xd192e819, 0xd6990624, 0xf40e3585, 0x106aa070,
    0x19a4c116, 0x1e376c08, 0x2748774c, 0x34b0bcb5, 0x391c0cb3, 0x4ed8aa4a, 0x5b9cca4f, 0x682e6ff3,
    0x748f82ee, 0x78a5636f, 0x84c87814, 0x8cc70208, 0x90befffa, 0xa4506ceb, 0xbef9a3f7, 0xc67178f2,
];

/// Initial hash value H(0) (FIPS 180-4 §5.3.3).
pub const H_INIT: [u32; 8] = [
    0x6a09e667, 0xbb67ae85, 0x3c6ef372, 0xa54ff53a, 0x510e527f, 0x9b05688c, 0x1f83d9ab, 0x5be0cd19,
];

/// Right rotation of a 32-bit word by `n` bits (`0 < n < 32`).
pub open spec fn rotr(x: u32, n: u32) -> u32 {
    (x >> n) | (x << (32 - n) as u32)
}

pub open spec fn big_sigma0(x: u32) -> u32 {
    rotr(x, 2) ^ rotr(x, 13) ^ rotr(x, 22)
}

pub open spec fn big_sigma1(x: u32) -> u32 {
    rotr(x, 6) ^ rotr(x, 11) ^ rotr(x, 25)
}

pub open spec fn small_sigma0(x: u32) -> u32 {
    rotr(x, 7) ^ rotr(x, 18) ^ (x >> 3)
}

pub open spec fn small_sigma1(x: u32) -> u32 {
    rotr(x, 17) ^ rotr(x, 19) ^ (x >> 10)
}

pub open spec fn ch(e: u32, f: u32, g: u32) -> u32 {
    (e & f) ^ ((!e) & g)
}

pub open spec fn maj(a: u32, b: u32, c: u32) -> u32 {
    (a & b) ^ (a & c) ^ (b & c)
}

/// The `i`-th big-endian 32-bit word of `b`.
pub open spec fn be_word(b: Seq<u8>, i: int) -> u32 {
    ((b[4 * i] as u32) << 24u32) | ((b[4 * i + 1] as u32) << 16u32) | ((b[4 * i + 2] as u32)
        << 8u32) | (b[4 * i + 3] as u32)
}

/// Message schedule word `W_t` of a 64-byte block.
pub open spec fn sched(block: Seq<u8>, t: nat) -> u32
    decreases t,
{
    if t < 16 {
        be_word(block, t as int)
    } else {
        sched(block, (t - 16) as nat).wrapping_add(small_sigma0(sched(block, (t - 15) as nat))).wrapping_add(
            sched(block, (t - 7) as nat),
        ).wrapping_add(small_sigma1(sched(block, (t - 2) as nat)))
    }
}

/// The eight working variables a..h of the compression function.
pub struct Work {
    pub a: u32,
    pub b: u32,
    pub c: u32,
    pub d: u32,
    pub e: u32,
    pub f: u32,
    pub g: u32,
    pub h: u32,
}

/// One compression round with round constant `k` and schedule word `w`.
pub open spec fn round(v: Work, k: u32, w: u32) -> Work {
    let t1 = v.h.wrapping_add(big_sigma1(v.e)).wrapping_add(ch(v.e, v.f, v.g)).wrapping_add(
        k,
    ).wrapping_add(w);
    let t2 = big_sigma0(v.a).wrapping_add(maj(v.a, v.b, v.c));
    Work {
        a: t1.wrapping_add(t2),
        b: v.a,
        c: v.b,
        d: v.c,
        e: v.d.wrapping_add(t1),
        f: v.e,
        g: v.f,
        h: v.g,
    }
}

/// The working variables after the first `t` rounds over `block`.
pub open spec fn rounds(init: Work, block: Seq<u8>, t: nat) -> Work
    decreases t,
{
    if t == 0 {
        init
    } else {
        round(rounds(init, block, (t - 1) as nat), K[t - 1], sched(block, (t - 1) as nat))
    }
}

pub open spec fn work_of(h: Seq<u32>) -> Work {
    Work { a: h[0], b: h[1], c: h[2], d: h[3], e: h[4], f: h[5], g: h[6], h: h[7] }
}

/// The SHA-256 compression function: chaining value `h` (8 words) and one
/// 64-byte block give the next chaining value.
pub open spec fn compress(h: Seq<u32>, block: Seq<u8>) -> Seq<u32> {
    let v = rounds(work_of(h), block, 64);
    seq![
        h[0].wrapping_add(v.a),
        h[1].wrapping_add(v.b),
        h[2].wrapping_add(v.c),
        h[3].wrapping_add(v.d),
        h[4].wrapping_add(v.e),
        h[5].wrapping_add(v.f),
        h[6].wrapping_add(v.g),
        h[7].wrapping_add(v.h),
    ]
}

/// Chaining value after absorbing every whole 64-byte block of `m`
/// (`m.len()` a multiple of 64), starting from H(0).
pub open spec fn hash_blocks(m: Seq<u8>) -> Seq<u32>
    decreases m.len(),
{
    if m.len() < 64 {
        H_INIT@
    } else {
        let n = (m.len() - 64) as int;
        compress(hash_blocks(m.take(n)), m.subrange(n, m.len() as int))
    }
}

/// The big-endian encoding of a 64-bit value.
pub open spec fn be64_bytes(x: u64) -> Seq<u8> {
    seq![
        (x >> 56u64) as u8,
        (x >> 48u64) as u8,
        (x >> 40u64) as u8,
        (x >> 32u64) as u8,
        (x >> 24u64) as u8,
        (x >> 16u64) as u8,
        (x >> 8u64) as u8,
        x as u8,
    ]
}

pub open spec fn zeros(n: nat) -> Seq<u8> {
    Seq::new(n, |i: int| 0u8)
}

/// Number of zero bytes the padding inserts after the 0x80 marker.
pub open spec fn pad_zero_count(len: nat) -> nat {
    ((55 - len as int) % 64) as nat
}

/// The padded message (FIPS 180-4 §5.1.1): `msg`, the byte 0x80, zero bytes up to
/// 56 mod 64, then the message length in bits as a big-endian 64-bit value.
pub open spec fn pad(msg: Seq<u8>) -> Seq<u8> {
    msg + seq![0x80u8] + zeros(pad_zero_count(msg.len())) + be64_bytes((msg.len() * 8) as u64)
}

/// The big-endian encoding of a 32-bit word.
pub open spec fn word_be(w: u32) -> Seq<u8> {
    seq![(w >> 24u32) as u8, (w >> 16u32) as u8, (w >> 8u32) as u8, w as u8]
}

/// Big-endian serialization of the first `n` words of `h`.
pub open spec fn words_be(h: Seq<u32>, n: nat) -> Seq<u8>
    decreases n,
{
    if n == 0 {
        Seq::empty()
    } else {
        words_be(h, (n - 1) as nat) + word_be(h[n - 1])
    }
}

/// The 32-byte big-endian serialization of a chaining value.
pub open spec fn digest_bytes(h: Seq<u32>) -> Seq<u8> {
    words_be(h, 8)
}

/// SHA-256 of `msg`.
pub open spec fn sha256(msg: Seq<u8>) -> Seq<u8> {
    digest_bytes(hash_blocks(pad(msg)))
}

/// Largest message length in bytes whose bit length fits the 64-bit length field.
pub const MAX_MESSAGE_BYTES: u64 = 0x1fff_ffff_ffff_ffff;

/// Appending one block to a block-aligned message advances the chaining value by
/// one compression.
pub proof fn lemma_hash_blocks_append(m: Seq<u8>, b: Seq<u8>)
    requires
        m.len() % 64 == 0,
        b.len() == 64,
    ensures
        hash_blocks(m + b) == compress(hash_blocks(m), b),
{
    let mb = m + b;
    assert(mb.take(m.len() as int) =~= m);
    assert(mb.subrange(m.len() as int, mb.len() as int) =~= b);
}

/// Copy of `buf[..n]` followed by zero bytes.
fn zero_padded(buf: &[u8; 64], n: usize) -> (block: [u8; 64])
    requires
        n < 64,
    ensures
        forall|j: int| 0 <= j < n ==> block@[j] == buf@[j],
        forall|j: int| n <= j < 64 ==> block@[j] == 0u8,
{
    let mut block = [0u8; 64];
    let mut i: usize = 0;
    while i < n
        invariant
            n < 64,
            i <= n,
            forall|j: int| 0 <= j < i ==> block@[j] == buf@[j],
            forall|j: int| i <= j < 64 ==> block@[j] == 0u8,
        decreases n - i,
    {
        block[i] = buf[i];
        i += 1;
    }
    block
}

/// The final padded block(s) of `m` (tail length `r`) complete the padded message.
proof fn lemma_final_block(m: Seq<u8>, r: int, head: Seq<u8>, last: Seq<u8>, bit_len: u64)
    requires
        0 <= r < 64,
        r <= m.len(),
        (m.len() - r) % 64 == 0,
        bit_len == (m.len() * 8) as u64,
        last.len() == 64,
        last.subrange(56, 64) == be64_bytes(bit_len),
        r >= 56 ==> head == m + seq![0x80u8] + zeros((63 - r) as nat) && forall|j: int|
            0 <= j < 56 ==> last[j] == 0u8,
        r < 56 ==> head == m.take(m.len() - r) && last.subrange(0, r) == m.skip(m.len() - r)
            && last[r] == 0x80u8 && forall|j: int| r < j < 56 ==> last[j] == 0u8,
    ensures
        pad(m) == head + last,
        head.len() % 64 == 0,
{
    let lenb = be64_bytes(bit_len);
    let p = m.len() - r;
    if r >= 56 {
        assert(pad_zero_count(m.len()) == 119 - r) by {
            assert((55 - m.len() as int) % 64 == 119 - r) by (nonlinear_arith)
                requires
                    m.len() == p + r,
                    p % 64 == 0,
                    56 <= r < 64,
            ;
        }
        assert(last =~= zeros(56) + lenb) by {
            assert forall|j: int| 56 <= j < 64 implies last[j] == lenb[j - 56] by {
                assert(last.subrange(56, 64)[j - 56] == last[j]);
            }
        }
        assert(pad(m) =~= head + last);
    } else {
        assert(pad_zero_count(m.len()) == 55 - r) by {
            assert((55 - m.len() as int) % 64 == 55 - r) by (nonlinear_arith)
                requires
                    m.len() == p + r,
                    p % 64 == 0,
                    0 <= r < 56,
            ;
        }
        let rest = m.skip(p);
        assert(last =~= rest + seq![0x80u8] + zeros((55 - r) as nat) + lenb) by {
            assert forall|j: int| 56 <= j < 64 implies last[j] == lenb[j - 56] by {
                assert(last.subrange(56, 64)[j - 56] == last[j]);
            }
            assert forall|j: int| 0 <= j < r implies last[j] == rest[j] by {
                assert(last.subrange(0, r)[j] == last[j]);
            }
        }
        assert(m.take(p) + rest =~= m);
        assert(pad(m) =~= head + last);
    }
}

fn rotr_exec(x: u32, n: u32) -> (r: u32)
    requires
        0 < n < 32,
    ensures
        r == rotr(x, n),
{
    (x >> n) | (x << (32 - n))
}

/// Software SHA-256 streaming state.
pub struct Sha256 {
    state: [u32; 8],
    buf: [u8; 64],
    buf_len: usize,
    total_len: u64,
    msg: Ghost<Seq<u8>>,
}

impl Sha256 {
    /// The streaming invariant: `msg` is every byte absorbed so far; its
    /// block-aligned prefix has been compressed into `state` and the tail sits in
    /// `buf[..buf_len]`.
    pub closed spec fn wf(&self) -> bool {
        let m = self.msg@;
        let p = m.len() - self.buf_len;
        &&& self.buf_len < 64
        &&& m.len() == self.total_len
        &&& m.len() <= MAX_MESSAGE_BYTES
        &&& p % 64 == 0
        &&& self.state@ == hash_blocks(m.take(p))
        &&& self.buf@.take(self.buf_len as int) == m.skip(p)
    }

    /// Every byte absorbed so far.
    pub closed spec fn message(&self) -> Seq<u8> {
        self.msg@
    }

    pub fn new() -> (s: Self)
        ensures
            s.wf(),
            s.message() == Seq::<u8>::empty(),
    {
        let s = Sha256 {
            state: H_INIT,
            buf: [0u8; 64],
            buf_len: 0,
            total_len: 0,
            msg: Ghost(Seq::empty()),
        };
        assert(s.msg@.take(0) =~= Seq::<u8>::empty());
        assert(s.buf@.take(0) =~= s.msg@.skip(0));
        s
    }

    /// Absorb `data`.
    pub fn update(&mut self, data: &[u8])
        requires
            old(self).wf(),
            old(self).message().len() + data@.len() <= MAX_MESSAGE_BYTES,
        ensures
            final(self).wf(),
            final(self).message() == old(self).message() + data@,
    {
        let dlen = data.len();
        let ghost m0 = self.msg@;
        let ghost nm = m0 + data@;
        let ghost p0 = (m0.len() - self.buf_len) as int;
        self.total_len = self.total_len + data.len() as u64;
        self.msg = Ghost(nm);
        assert(nm.take(p0) =~= m0.take(p0));
        assert(nm.subrange(p0, m0.len() as int) =~= m0.skip(p0));
        let mut offset: usize = 0;
        proof {
            assert forall|j: int| 0 <= j < self.buf_len implies self.buf@[j] == nm[p0 + j] by {
                assert(self.buf@.take(self.buf_len as int)[j] == m0.skip(p0)[j]);
            }
        }
        if self.buf_len > 0 && data.len() >= 64 - self.buf_len {
            let fill = 64 - self.buf_len;
            let mut i: usize = 0;
            while i < fill
                invariant
                    fill == 64 - self.buf_len,
                    0 < self.buf_len < 64,
                    fill <= data@.len(),
                    i <= fill,
                    forall|j: int| 0 <= j < self.buf_len ==> self.buf@[j] == nm[p0 + j],
                    forall|j: int| 0 <= j < i ==> #[trigger] self.buf@[self.buf_len + j] == data@[j],
                    p0 + self.buf_len == m0.len(),
                    nm == m0 + data@,
                    self.state@ == hash_blocks(nm.take(p0)),
                    self.total_len == nm.len(),
                    self.msg@ == nm,
                decreases fill - i,
            {
                self.buf[self.buf_len + i] = data[i];
                i += 1;
            }
            let ghost blk_seq = self.buf@;
            assert forall|j: int| 0 <= j < 64 implies blk_seq[j] == nm[p0 + j] by {
                if j >= self.buf_len {
                    assert(blk_seq[self.buf_len + (j - self.buf_len)] == data@[j - self.buf_len]);
                }
            }
            assert(blk_seq =~= nm.subrange(p0, p0 + 64));
            let blk = self.buf;
            self.compress(&blk);
            proof {
                lemma_hash_blocks_append(nm.take(p0), blk_seq);
                assert(nm.take(p0) + blk_seq =~= nm.take(p0 + 64));
            }
            self.buf_len = 0;
            offset = fill;
            assert(nm.take(m0.len() + offset - self.buf_len) == nm.take(p0 + 64));
        }
        while data.len() - offset >= 64
            invariant
                nm == m0 + data@,
                self.buf_len < 64,
                offset <= data@.len(),
                self.buf_len > 0 ==> offset == 0 && self.buf_len + data@.len() < 64,
                (m0.len() + offset - self.buf_len) % 64 == 0,
                self.state@ == hash_blocks(nm.take(m0.len() + offset - self.buf_len)),
                forall|j: int|
                    0 <= j < self.buf_len ==> self.buf@[j] == nm[m0.len() + offset
                        - self.buf_len + j],
                self.total_len == nm.len(),
                self.msg@ == nm,
                dlen == data@.len(),
            decreases data@.len() - offset,
        {
            let ghost p = (m0.len() + offset) as int;
            let mut block = [0u8; 64];
            let mut i: usize = 0;
            while i < 64
                invariant
                    offset + 64 <= data@.len(),
                    dlen == data@.len(),
                    i <= 64,
                    forall|j: int| 0 <= j < i ==> #[trigger] block@[j] == data@[offset + j],
                decreases 64 - i,
            {
                assert(offset + i < dlen);
                block[i] = data[offset + i];
                i += 1;
            }
            proof {
                assert(block@ =~= nm.subrange(p, p + 64));
                lemma_hash_blocks_append(nm.take(p), block@);
                assert(nm.take(p) + block@ =~= nm.take(p + 64));
            }
            self.compress(&block);
            offset += 64;
        }
        let remaining = data.len() - offset;
        let ghost bl0 = self.buf_len;
        let mut i: usize = 0;
        while i < remaining
            invariant
                remaining == data@.len() - offset,
                offset + remaining == data@.len(),
                offset <= data@.len(),
                dlen == data@.len(),
                bl0 == self.buf_len,
                bl0 + remaining < 64,
                i <= remaining,
                forall|j: int| 0 <= j < bl0 ==> self.buf@[j] == nm[m0.len() + offset - bl0 + j],
                forall|j: int| 0 <= j < i ==> #[trigger] self.buf@[bl0 + j] == data@[offset + j],
                nm == m0 + data@,
                (m0.len() + offset - bl0) % 64 == 0,
                self.state@ == hash_blocks(nm.take(m0.len() + offset - bl0)),
                self.total_len == nm.len(),
                self.msg@ == nm,
            decreases remaining - i,
        {
            assert(offset + i < dlen);
            self.buf[self.buf_len + i] = data[offset + i];
            i += 1;
        }
        self.buf_len = self.buf_len + remaining;
        proof {
            let p = m0.len() + offset - bl0;
            assert(nm.len() - self.buf_len == p);
            assert forall|j: int| 0 <= j < self.buf_len implies self.buf@[j] == nm[p + j] by {
                if j >= bl0 {
                    assert(self.buf@[bl0 + (j - bl0)] == data@[offset + (j - bl0)]);
                }
            }
            assert(self.buf@.take(self.buf_len as int) =~= nm.skip(p));
        }
    }

    /// Pad the message, absorb the final block(s) and write the digest.
    pub fn finalize(self, digest: &mut [u8; 32])
        requires
            self.wf(),
        ensures
            final(digest)@ == sha256(self.message()),
    {
        let mut s = self;
        let ghost m = s.msg@;
        let ghost r = s.buf_len as int;
        let ghost p = m.len() - r;
        let ghost processed = m.take(p);
        let ghost rest = m.skip(p);
        assert(processed + rest =~= m);
        let bit_len = s.total_len * 8;
        let r_exec = s.buf_len;
        let mut block = zero_padded(&s.buf, r_exec);
        block[r_exec] = 0x80;
        let ghost head: Seq<u8>;
        if r_exec + 1 > 56 {
            let ghost b1 = block@;
            assert(b1 =~= rest + seq![0x80u8] + zeros((63 - r) as nat));
            s.compress(&block);
            proof {
                lemma_hash_blocks_append(processed, b1);
                head = processed + b1;
                assert(head =~= m + seq![0x80u8] + zeros((63 - r) as nat));
            }
            block = [0u8; 64];
            assert(forall|j: int| 0 <= j < 64 ==> block@[j] == 0u8);
        } else {
            proof {
                head = processed;
            }
        }
        block[56] = (bit_len >> 56u64) as u8;
        block[57] = (bit_len >> 48u64) as u8;
        block[58] = (bit_len >> 40u64) as u8;
        block[59] = (bit_len >> 32u64) as u8;
        block[60] = (bit_len >> 24u64) as u8;
        block[61] = (bit_len >> 16u64) as u8;
        block[62] = (bit_len >> 8u64) as u8;
        block[63] = bit_len as u8;
        proof {
            assert(block@.subrange(56, 64) =~= be64_bytes(bit_len));
            if r < 56 {
                assert(block@.subrange(0, r) =~= rest);
            }
            lemma_final_block(m, r, head, block@, bit_len);
            assert(s.state@ == hash_blocks(head));
            lemma_hash_blocks_append(head, block@);
        }
        s.compress(&block);
        let mut i: usize = 0;
        while i < 8
            invariant
                i <= 8,
                s.state@ == hash_blocks(pad(m)),
                s.state@.len() == 8,
                digest@.take(4 * i) == words_be(s.state@, i as nat),
            decreases 8 - i,
        {
            let w = s.state[i];
            let ghost before = digest@;
            digest[i * 4] = (w >> 24u32) as u8;
            digest[i * 4 + 1] = (w >> 16u32) as u8;
            digest[i * 4 + 2] = (w >> 8u32) as u8;
            digest[i * 4 + 3] = w as u8;
            proof {
                assert(digest@.take(4 * i) =~= before.take(4 * i));
                assert(digest@.take(4 * (i + 1)) =~= digest@.take(4 * i) + word_be(w));
            }
            i += 1;
        }
        assert(digest@ =~= sha256(m));
    }

    /// Absorb one 64-byte block into the chaining value.
    fn compress(&mut self, block: &[u8; 64])
        ensures
            final(self).state@ == compress(old(self).state@, block@),
            final(self).buf == old(self).buf,
            final(self).buf_len == old(self).buf_len,
            final(self).total_len == old(self).total_len,
            final(self).msg == old(self).msg,
    {
        let mut w = [0u32; 64];
        let mut i: usize = 0;
        while i < 16
            invariant
                i <= 16,
                forall|j: int| 0 <= j < i ==> w[j] == sched(block@, j as nat),
            decreases 16 - i,
        {
            w[i] = ((block[i * 4] as u32) << 24u32) | ((block[i * 4 + 1] as u32) << 16u32) | ((
            block[i * 4 + 2] as u32) << 8u32) | (block[i * 4 + 3] as u32);
            i += 1;
        }
        while i < 64
            invariant
                16 <= i <= 64,
                forall|j: int| 0 <= j < i ==> w[j] == sched(block@, j as nat),
            decreases 64 - i,
        {
            let s0 = rotr_exec(w[i - 15], 7) ^ rotr_exec(w[i - 15], 18) ^ (w[i - 15] >> 3u32);
            let s1 = rotr_exec(w[i - 2], 17) ^ rotr_exec(w[i - 2], 19) ^ (w[i - 2] >> 10u32);
            w[i] = w[i - 16].wrapping_add(s0).wrapping_add(w[i - 7]).wrapping_add(s1);
            i += 1;
        }
        let ghost init = work_of(self.state@);
        let mut a = self.state[0];
        let mut b = self.state[1];
        let mut c = self.state[2];
        let mut d = self.state[3];
        let mut e = self.state[4];
        let mut f = self.state[5];
        let mut g = self.state[6];
        let mut h = self.state[7];
        let mut i: usize = 0;
        while i < 64
            invariant
                i <= 64,
                forall|j: int| 0 <= j < 64 ==> w[j] == sched(block@, j as nat),
                (Work { a, b, c, d, e, f, g, h }) == rounds(init, block@, i as nat),
            decreases 64 - i,
        {
            let s1 = rotr_exec(e, 6) ^ rotr_exec(e, 11) ^ rotr_exec(e, 25);
            let chv = (e & f) ^ ((!e) & g);
            let t1 = h.wrapping_add(s1).wrapping_add(chv).wrapping_add(K[i]).wrapping_add(w[i]);
            let s0 = rotr_exec(a, 2) ^ rotr_exec(a, 13) ^ rotr_exec(a, 22);
            let mj = (a & b) ^ (a & c) ^ (b & c);
            let t2 = s0.wrapping_add(mj);
            h = g;
            g = f;
            f = e;
            e = d.wrapping_add(t1);
            d = c;
            c = b;
            b = a;
            a = t1.wrapping_add(t2);
            i += 1;
        }
        let ghost old_state = self.state@;
        self.state[0] = self.state[0].wrapping_add(a);
        self.state[1] = self.state[1].wrapping_add(b);
        self.state[2] = self.state[2].wrapping_add(c);
        self.state[3] = self.state[3].wrapping_add(d);
        self.state[4] = self.state[4].wrapping_add(e);
        self.state[5] = self.state[5].wrapping_add(f);
        self.state[6] = self.state[6].wrapping_add(g);
        self.state[7] = self.state[7].wrapping_add(h);
        assert(self.state@ =~= compress(old_state, block@));
    }
}

/// Errors of the streaming SHA-256 engine.
#[derive(Debug, PartialEq, Eq)]
pub enum Sha256Error {
    /// `update` / `finalize` called before `init`.
    NotInitialized,
}

/// SHA-256 engine with an explicit init / update / finalize life cycle, backed
/// by the software [`Sha256`].
pub struct Sha256Engine {
    inner: Option<Sha256>,
}

impl Sha256Engine {
    /// `None` before `init` (and after `finalize`); otherwise the bytes absorbed
    /// since the last `init`.
    pub closed spec fn absorbed(&self) -> Option<Seq<u8>> {
        match self.inner {
            Some(h) => Some(h.message()),
            None => None,
        }
    }

    pub closed spec fn wf(&self) -> bool {
        self.inner matches Some(h) ==> h.wf()
    }

    pub fn new() -> (e: Self)
        ensures
            e.wf(),
            e.absorbed() == None::<Seq<u8>>,
    {
        Sha256Engine { inner: None }
    }

    /// An engine next to the hardware driver `hw` (kept for the keyed path):
    /// the unkeyed digest is computed in software, so no state is taken over.
    pub fn from_hash<M: MmioAccess>(hw: crate::hash::Hash<M>) -> (e: Self)
        ensures
            e.wf(),
            e.absorbed() == None::<Seq<u8>>,
    {
        Sha256Engine { inner: None }
    }

    /// Start a new digest, discarding any unfinished one.
    pub fn init(&mut self) -> (r: Result<(), Sha256Error>)
        ensures
            r == Ok::<(), Sha256Error>(()),
            final(self).wf(),
            final(self).absorbed() == Some(Seq::<u8>::empty()),
    {
        self.inner = Some(Sha256::new());
        Ok(())
    }

    /// Absorb `input` into the digest in progress.
    pub fn update(&mut self, input: &[u8]) -> (r: Result<(), Sha256Error>)
        requires
            old(self).wf(),
            old(self).absorbed() matches Some(m) ==> m.len() + input@.len() <= MAX_MESSAGE_BYTES,
        ensures
            final(self).wf(),
            match old(self).absorbed() {
                None => r == Err::<(), Sha256Error>(Sha256Error::NotInitialized)
                    && final(self).absorbed() == old(self).absorbed(),
                Some(m) => r == Ok::<(), Sha256Error>(()) && final(self).absorbed() == Some(
                    m + input@,
                ),
            },
    {
        match self.inner.take() {
            None => Err(Sha256Error::NotInitialized),
            Some(mut h) => {
                h.update(input);
                self.inner = Some(h);
                Ok(())
            },
        }
    }

    /// Finish the digest in progress into `output`; the engine then needs a new
    /// `init`.
    pub fn finalize(&mut self, output: &mut [u8; 32]) -> (r: Result<(), Sha256Error>)
        requires
            old(self).wf(),
        ensures
            final(self).wf(),
            final(self).absorbed() == None::<Seq<u8>>,
            match old(self).absorbed() {
                None => r == Err::<(), Sha256Error>(Sha256Error::NotInitialized) && *final(output)
                    == *old(output),
                Some(m) => r == Ok::<(), Sha256Error>(()) && final(output)@ == sha256(m),
            },
    {
        match self.inner.take() {
            None => Err(Sha256Error::NotInitialized),
            Some(h) => {
                h.finalize(output);
                Ok(())
            },
        }
    }
}

impl Default for Sha256Engine {
    fn default() -> (e: Self)
        ensures
            e.wf(),
            e.absorbed() == None::<Seq<u8>>,
    {
        Self::new()
    }
}

} // verus!

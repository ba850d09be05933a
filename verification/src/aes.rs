//! Software AES-128 (FIPS-197) and the AES engine abstraction.

pub mod gcm;
pub mod hal_adapter;
pub mod keyreg;

use vstd::prelude::*;

verus! {

/// The AES S-box (FIPS-197 Figure 7).
pub const SBOX: [u8; 256] = [
    0x63, 0x7c, 0x77, 0x7b, 0xf2, 0x6b, 0x6f, 0xc5, 0x30, 0x01, 0x67, 0x2b, 0xfe, 0xd7, 0xab, 0x76,
    0xca, 0x82, 0xc9, 0x7d, 0xfa, 0x59, 0x47, 0xf0, 0xad, 0xd4, 0xa2, 0xaf, 0x9c, 0xa4, 0x72, 0xc0,
    0xb7, 0xfd, 0x93, 0x26, 0x36, 0x3f, 0xf7, 0xcc, 0x34, 0xa5, 0xe5, 0xf1, 0x71, 0xd8, 0x31, 0x15,
    0x04, 0xc7, 0x23, 0xc3, 0x18, 0x96, 0x05, 0x9a, 0x07, 0x12, 0x80, 0xe2, 0xeb, 0x27, 0xb2, 0x75,
    0x09, 0x83, 0x2c, 0x1a, 0x1b, 0x6e, 0x5a, 0xa0, 0x52, 0x3b, 0xd6, 0xb3, 0x29, 0xe3, 0x2f, 0x84,
    0x53, 0xd1, 0x00, 0xed, 0x20, 0xfc, 0xb1, 0x5b, 0x6a, 0xcb, 0xbe, 0x39, 0x4a, 0x4c, 0x58, 0xcf,
    0xd0, 0xef, 0xaa, 0xfb, 0x43, 0x4d, 0x33, 0x85, 0x45, 0xf9, 0x02, 0x7f, 0x50, 0x3c, 0x9f, 0xa8,
    0x51, 0xa3, 0x40, 0x8f, 0x92, 0x9d, 0x38, 0xf5, 0xbc, 0xb6, 0xda, 0x21, 0x10, 0xff, 0xf3, 0xd2,
    0xcd, 0x0c, 0x13, 0xec, 0x5f, 0x97, 0x44, 0x17, 0xc4, 0xa7, 0x7e, 0x3d, 0x64, 0x5d, 0x19, 0x73,
    0x60, 0x81, 0x4f, 0xdc, 0x22, 0x2a, 0x90, 0x88, 0x46, 0xee, 0xb8, 0x14, 0xde, 0x5e, 0x0b, 0xdb,
    0xe0, 0x32, 0x3a, 0x0a, 0x49, 0x06, 0x24, 0x5c, 0xc2, 0xd3, 0xac, 0x62, 0x91, 0x95, 0xe4, 0x79,
    0xe7, 0xc8, 0x37, 0x6d, 0x8d, 0xd5, 0x4e, 0xa9, 0x6c, 0x56, 0xf4, 0xea, 0x65, 0x7a, 0xae, 0x08,
    0xba, 0x78, 0x25, 0x2e, 0x1c, 0xa6, 0xb4, 0xc6, 0xe8, 0xdd, 0x74, 0x1f, 0x4b, 0xbd, 0x8b, 0x8a,
    0x70, 0x3e, 0xb5, 0x66, 0x48, 0x03, 0xf6, 0x0e, 0x61, 0x35, 0x57, 0xb9, 0x86, 0xc1, 0x1d, 0x9e,
    0xe1, 0xf8, 0x98, 0x11, 0x69, 0xd9, 0x8e, 0x94, 0x9b, 0x1e, 0x87, 0xe9, 0xce, 0x55, 0x28, 0xdf,
    0x8c, 0xa1, 0x89, 0x0d, 0xbf, 0xe6, 0x42, 0x68, 0x41, 0x99, 0x2d, 0x0f, 0xb0, 0x54, 0xbb, 0x16,
];

/// The inverse S-box (FIPS-197 Figure 14).
pub const INV_SBOX: [u8; 256] = [
    0x52, 0x09, 0x6a, 0xd5, 0x30, 0x36, 0xa5, 0x38, 0xbf, 0x40, 0xa3, 0x9e, 0x81, 0xf3, 0xd7, 0xfb,
    0x7c, 0xe3, 0x39, 0x82, 0x9b, 0x2f, 0xff, 0x87, 0x34, 0x8e, 0x43, 0x44, 0xc4, 0xde, 0xe9, 0xcb,
    0x54, 0x7b, 0x94, 0x32, 0xa6, 0xc2, 0x23, 0x3d, 0xee, 0x4c, 0x95, 0x0b, 0x42, 0xfa, 0xc3, 0x4e,
    0x08, 0x2e, 0xa1, 0x66, 0x28, 0xd9, 0x24, 0xb2, 0x76, 0x5b, 0xa2, 0x49, 0x6d, 0x8b, 0xd1, 0x25,
    0x72, 0xf8, 0xf6, 0x64, 0x86, 0x68, 0x98, 0x16, 0xd4, 0xa4, 0x5c, 0xcc, 0x5d, 0x65, 0xb6, 0x92,
    0x6c, 0x70, 0x48, 0x50, 0xfd, 0xed, 0xb9, 0xda, 0x5e, 0x15, 0x46, 0x57, 0xa7, 0x8d, 0x9d, 0x84,
    0x90, 0xd8, 0xab, 0x00, 0x8c, 0xbc, 0xd3, 0x0a, 0xf7, 0xe4, 0x58, 0x05, 0xb8, 0xb3, 0x45, 0x06,
    0xd0, 0x2c, 0x1e, 0x8f, 0xca, 0x3f, 0x0f, 0x02, 0xc1, 0xaf, 0xbd, 0x03, 0x01, 0x13, 0x8a, 0x6b,
    0x3a, 0x91, 0x11, 0x41, 0x4f, 0x67, 0xdc, 0xea, 0x97, 0xf2, 0xcf, 0xce, 0xf0, 0xb4, 0xe6, 0x73,
    0x96, 0xac, 0x74, 0x22, 0xe7, 0xad, 0x35, 0x85, 0xe2, 0xf9, 0x37, 0xe8, 0x1c, 0x75, 0xdf, 0x6e,
    0x47, 0xf1, 0x1a, 0x71, 0x1d, 0x29, 0xc5, 0x89, 0x6f, 0xb7, 0x62, 0x0e, 0xaa, 0x18, 0xbe, 0x1b,
    0xfc, 0x56, 0x3e, 0x4b, 0xc6, 0xd2, 0x79, 0x20, 0x9a, 0xdb, 0xc0, 0xfe, 0x78, 0xcd, 0x5a, 0xf4,
    0x1f, 0xdd, 0xa8, 0x33, 0x88, 0x07, 0xc7, 0x31, 0xb1, 0x12, 0x10, 0x59, 0x27, 0x80, 0xec, 0x5f,
    0x60, 0x51, 0x7f, 0xa9, 0x19, 0xb5, 0x4a, 0x0d, 0x2d, 0xe5, 0x7a, 0x9f, 0x93, 0xc9, 0x9c, 0xef,
    0xa0, 0xe0, 0x3b, 0x4d, 0xae, 0x2a, 0xf5, 0xb0, 0xc8, 0xeb, 0xbb, 0x3c, 0x83, 0x53, 0x99, 0x61,
    0x17, 0x2b, 0x04, 0x7e, 0xba, 0x77, 0xd6, 0x26, 0xe1, 0x69, 0x14, 0x63, 0x55, 0x21, 0x0c, 0x7d,
];

/// Key-schedule round constants `Rcon[i]` (the byte in the high position).
pub const RCON: [u32; 10] = [0x01, 0x02, 0x04, 0x08, 0x10, 0x20, 0x40, 0x80, 0x1B, 0x36];

// ---------------------------------------------------------------------------
// GF(2^8) arithmetic
// ---------------------------------------------------------------------------

/// Multiplication by x in GF(2^8) modulo x^8 + x^4 + x^3 + x + 1.
pub open spec fn xtime(a: u8) -> u8 {
    if a & 0x80u8 != 0 {
        (a << 1u8) ^ 0x1bu8
    } else {
        a << 1u8
    }
}

/// `n` steps of shift-and-add multiplication: accumulate `a * (low n bits of b)`
/// into `p`.
pub open spec fn gf_mul_steps(a: u8, b: u8, p: u8, n: nat) -> u8
    decreases n,
{
    if n == 0 {
        p
    } else {
        gf_mul_steps(
            xtime(a),
            b >> 1u8,
            if b & 1u8 != 0 {
                p ^ a
            } else {
                p
            },
            (n - 1) as nat,
        )
    }
}

/// Product of `a` and `b` in GF(2^8).
pub open spec fn gf_mul(a: u8, b: u8) -> u8 {
    gf_mul_steps(a, b, 0, 8)
}

// ---------------------------------------------------------------------------
// The cipher on a 16-byte state, column-major: state[4 * c + r] is row r of
// column c.
// ---------------------------------------------------------------------------

pub open spec fn sub_bytes(s: Seq<u8>) -> Seq<u8> {
    Seq::new(16, |i: int| SBOX[s[i] as int])
}

pub open spec fn inv_sub_bytes(s: Seq<u8>) -> Seq<u8> {
    Seq::new(16, |i: int| INV_SBOX[s[i] as int])
}

/// ShiftRows: row r is rotated left by r, s'[r, c] = s[r, (c + r) mod 4].
pub open spec fn shift_rows(s: Seq<u8>) -> Seq<u8> {
    seq![
        s[0], s[5], s[10], s[15],
        s[4], s[9], s[14], s[3],
        s[8], s[13], s[2], s[7],
        s[12], s[1], s[6], s[11],
    ]
}

/// InvShiftRows: row r is rotated right by r, s'[r, c] = s[r, (c - r) mod 4].
pub open spec fn inv_shift_rows(s: Seq<u8>) -> Seq<u8> {
    seq![
        s[0], s[13], s[10], s[7],
        s[4], s[1], s[14], s[11],
        s[8], s[5], s[2], s[15],
        s[12], s[9], s[6], s[3],
    ]
}

/// Row r of MixColumns applied to column (a0, a1, a2, a3).
pub open spec fn mix_row(a0: u8, a1: u8, a2: u8, a3: u8, r: int) -> u8 {
    if r == 0 {
        gf_mul(a0, 2) ^ gf_mul(a1, 3) ^ a2 ^ a3
    } else if r == 1 {
        a0 ^ gf_mul(a1, 2) ^ gf_mul(a2, 3) ^ a3
    } else if r == 2 {
        a0 ^ a1 ^ gf_mul(a2, 2) ^ gf_mul(a3, 3)
    } else {
        gf_mul(a0, 3) ^ a1 ^ a2 ^ gf_mul(a3, 2)
    }
}

/// Row r of InvMixColumns applied to column (a0, a1, a2, a3).
pub open spec fn inv_mix_row(a0: u8, a1: u8, a2: u8, a3: u8, r: int) -> u8 {
    if r == 0 {
        gf_mul(a0, 14) ^ gf_mul(a1, 11) ^ gf_mul(a2, 13) ^ gf_mul(a3, 9)
    } else if r == 1 {
        gf_mul(a0, 9) ^ gf_mul(a1, 14) ^ gf_mul(a2, 11) ^ gf_mul(a3, 13)
    } else if r == 2 {
        gf_mul(a0, 13) ^ gf_mul(a1, 9) ^ gf_mul(a2, 14) ^ gf_mul(a3, 11)
    } else {
        gf_mul(a0, 11) ^ gf_mul(a1, 13) ^ gf_mul(a2, 9) ^ gf_mul(a3, 14)
    }
}

pub open spec fn mix_columns(s: Seq<u8>) -> Seq<u8> {
    Seq::new(
        16,
        |i: int| mix_row(s[4 * (i / 4)], s[4 * (i / 4) + 1], s[4 * (i / 4) + 2], s[4 * (i / 4) + 3], i % 4),
    )
}

pub open spec fn inv_mix_columns(s: Seq<u8>) -> Seq<u8> {
    Seq::new(
        16,
        |i: int|
            inv_mix_row(s[4 * (i / 4)], s[4 * (i / 4) + 1], s[4 * (i / 4) + 2], s[4 * (i / 4) + 3], i % 4),
    )
}

/// Byte r (big-endian, r = 0 the most significant) of a 32-bit word.
pub open spec fn be_byte(w: u32, r: int) -> u8 {
    (w >> (24 - 8 * r) as u32) as u8
}

/// XOR round key `rnd` (words w[4 rnd .. 4 rnd + 4], one per column) into the
/// state.
pub open spec fn add_round_key(s: Seq<u8>, w: Seq<u32>, rnd: int) -> Seq<u8> {
    Seq::new(16, |i: int| s[i] ^ be_byte(w[4 * rnd + i / 4], i % 4))
}

/// The state after the initial AddRoundKey and the first `n` full rounds.
pub open spec fn cipher_rounds(w: Seq<u32>, input: Seq<u8>, n: nat) -> Seq<u8>
    decreases n,
{
    if n == 0 {
        add_round_key(input, w, 0)
    } else {
        add_round_key(
            mix_columns(shift_rows(sub_bytes(cipher_rounds(w, input, (n - 1) as nat)))),
            w,
            n as int,
        )
    }
}

/// AES-128 encryption of one block under the 44-word key schedule `w`
/// (FIPS-197 §5.1).
pub open spec fn cipher(w: Seq<u32>, input: Seq<u8>) -> Seq<u8> {
    add_round_key(shift_rows(sub_bytes(cipher_rounds(w, input, 9))), w, 10)
}

/// The state after the initial AddRoundKey (round key 10) and the first `n`
/// inverse rounds (round keys 9, 8, ...).
pub open spec fn inv_cipher_rounds(w: Seq<u32>, input: Seq<u8>, n: nat) -> Seq<u8>
    decreases n,
{
    if n == 0 {
        add_round_key(input, w, 10)
    } else {
        inv_mix_columns(
            add_round_key(
                inv_sub_bytes(inv_shift_rows(inv_cipher_rounds(w, input, (n - 1) as nat))),
                w,
                10 - n,
            ),
        )
    }
}

/// AES-128 decryption of one block under the key schedule `w` (FIPS-197 §5.3).
pub open spec fn inv_cipher(w: Seq<u32>, input: Seq<u8>) -> Seq<u8> {
    add_round_key(inv_sub_bytes(inv_shift_rows(inv_cipher_rounds(w, input, 9))), w, 0)
}

// ---------------------------------------------------------------------------
// Key expansion (FIPS-197 §5.2)
// ---------------------------------------------------------------------------

pub open spec fn rot_word(w: u32) -> u32 {
    (w << 8u32) | (w >> 24u32)
}

pub open spec fn sub_word(w: u32) -> u32 {
    ((SBOX[(w >> 24u32) as int] as u32) << 24u32) | ((SBOX[((w >> 16u32) & 0xFFu32) as int] as u32)
        << 16u32) | ((SBOX[((w >> 8u32) & 0xFFu32) as int] as u32) << 8u32) | (SBOX[(w & 0xFFu32) as int] as u32)
}

/// The `i`-th big-endian word of a byte sequence.
pub open spec fn key_be_word(k: Seq<u8>, i: int) -> u32 {
    ((k[4 * i] as u32) << 24u32) | ((k[4 * i + 1] as u32) << 16u32) | ((k[4 * i + 2] as u32) << 8u32)
        | (k[4 * i + 3] as u32)
}

/// Word `i` of the AES-128 key schedule of `key`.
pub open spec fn key_word(key: Seq<u8>, i: nat) -> u32
    decreases i,
{
    if i < 4 {
        key_be_word(key, i as int)
    } else {
        let t = key_word(key, (i - 1) as nat);
        let t2 = if i % 4 == 0 {
            sub_word(rot_word(t)) ^ (RCON[i / 4 - 1] << 24u32)
        } else {
            t
        };
        key_word(key, (i - 4) as nat) ^ t2
    }
}

/// The 44-word AES-128 key schedule.
pub open spec fn key_schedule(key: Seq<u8>) -> Seq<u32> {
    Seq::new(44, |i: int| key_word(key, i as nat))
}


// ---------------------------------------------------------------------------
// Word packing used by the table-driven round
// ---------------------------------------------------------------------------

/// Little-endian packing of four bytes (b0 is the least significant).
pub open spec fn pack_le(b0: u8, b1: u8, b2: u8, b3: u8) -> u32 {
    (b0 as u32) | ((b1 as u32) << 8u32) | ((b2 as u32) << 16u32) | ((b3 as u32) << 24u32)
}

/// Column `c` of a state as a little-endian word.
pub open spec fn col(s: Seq<u8>, c: int) -> u32 {
    pack_le(s[4 * c], s[4 * c + 1], s[4 * c + 2], s[4 * c + 3])
}

/// Encryption table entries: column k of MixColumns times S(b).
pub open spec fn te0(b: u8) -> u32 {
    let s = SBOX[b as int];
    pack_le(gf_mul(s, 2), s, s, gf_mul(s, 3))
}

pub open spec fn te1(b: u8) -> u32 {
    let s = SBOX[b as int];
    pack_le(gf_mul(s, 3), gf_mul(s, 2), s, s)
}

pub open spec fn te2(b: u8) -> u32 {
    let s = SBOX[b as int];
    pack_le(s, gf_mul(s, 3), gf_mul(s, 2), s)
}

pub open spec fn te3(b: u8) -> u32 {
    let s = SBOX[b as int];
    pack_le(s, s, gf_mul(s, 3), gf_mul(s, 2))
}

pub proof fn lemma_unpack(b0: u8, b1: u8, b2: u8, b3: u8)
    by (bit_vector)
    ensures
        pack_le(b0, b1, b2, b3) & 0xFFu32 == b0 as u32,
        (pack_le(b0, b1, b2, b3) >> 8u32) & 0xFFu32 == b1 as u32,
        (pack_le(b0, b1, b2, b3) >> 16u32) & 0xFFu32 == b2 as u32,
        (pack_le(b0, b1, b2, b3) >> 24u32) & 0xFFu32 == b3 as u32,
        pack_le(b0, b1, b2, b3) as u8 == b0,
        (pack_le(b0, b1, b2, b3) >> 8u32) as u8 == b1,
        (pack_le(b0, b1, b2, b3) >> 16u32) as u8 == b2,
        (pack_le(b0, b1, b2, b3) >> 24u32) as u8 == b3,
{
}

proof fn lemma_xor2(a0: u8, a1: u8, a2: u8, a3: u8, b0: u8, b1: u8, b2: u8, b3: u8)
    by (bit_vector)
    ensures
        pack_le(a0, a1, a2, a3) ^ pack_le(b0, b1, b2, b3) == pack_le(a0 ^ b0, a1 ^ b1, a2 ^ b2, a3 ^ b3),
{
}

proof fn lemma_xor5(
    a0: u8, a1: u8, a2: u8, a3: u8,
    b0: u8, b1: u8, b2: u8, b3: u8,
    c0: u8, c1: u8, c2: u8, c3: u8,
    d0: u8, d1: u8, d2: u8, d3: u8,
    e0: u8, e1: u8, e2: u8, e3: u8,
)
    by (bit_vector)
    ensures
        pack_le(a0, a1, a2, a3) ^ pack_le(b0, b1, b2, b3) ^ pack_le(c0, c1, c2, c3) ^ pack_le(d0, d1, d2, d3)
            ^ pack_le(e0, e1, e2, e3) == pack_le(
            a0 ^ b0 ^ c0 ^ d0 ^ e0,
            a1 ^ b1 ^ c1 ^ d1 ^ e1,
            a2 ^ b2 ^ c2 ^ d2 ^ e2,
            a3 ^ b3 ^ c3 ^ d3 ^ e3,
        ),
{
}

/// A big-endian word with its bytes swapped, as a little-endian packing of its
/// big-endian bytes.
fn swap32(w: u32) -> (r: u32)
    ensures
        r == pack_le(be_byte(w, 0), be_byte(w, 1), be_byte(w, 2), be_byte(w, 3)),
{
    let r = ((w >> 24u32) & 0xFF) | (((w >> 16u32) & 0xFF) << 8u32) | (((w >> 8u32) & 0xFF) << 16u32)
        | ((w & 0xFF) << 24u32);
    assert(r == pack_le((w >> 24u32) as u8, (w >> 16u32) as u8, (w >> 8u32) as u8, w as u8))
        by (bit_vector)
        requires
            r == ((w >> 24u32) & 0xFF) | (((w >> 16u32) & 0xFF) << 8u32) | (((w >> 8u32) & 0xFF)
                << 16u32) | ((w & 0xFF) << 24u32),
    ;
    assert(be_byte(w, 0) == (w >> 24u32) as u8);
    assert(be_byte(w, 1) == (w >> 16u32) as u8);
    assert(be_byte(w, 2) == (w >> 8u32) as u8);
    assert(be_byte(w, 3) == (w >> 0u32) as u8);
    assert(w >> 0u32 == w) by (bit_vector);
    r
}

/// One table-driven round on column j: the four table lookups and the round key
/// give column j of AddRoundKey(MixColumns(ShiftRows(SubBytes(st)))).
#[verifier::spinoff_prover]
#[verifier::rlimit(50)]
proof fn lemma_table_round(st: Seq<u8>, w: Seq<u32>, rnd: int, j: int)
    requires
        st.len() == 16,
        0 <= j < 4,
        0 <= 4 * rnd + j < w.len(),
    ensures
        te0(st[4 * j]) ^ te1(st[4 * ((j + 1) % 4) + 1]) ^ te2(st[4 * ((j + 2) % 4) + 2]) ^ te3(
            st[4 * ((j + 3) % 4) + 3],
        ) ^ pack_le(
            be_byte(w[4 * rnd + j], 0),
            be_byte(w[4 * rnd + j], 1),
            be_byte(w[4 * rnd + j], 2),
            be_byte(w[4 * rnd + j], 3),
        ) == col(add_round_key(mix_columns(shift_rows(sub_bytes(st))), w, rnd), j),
{
    let a0 = SBOX[st[4 * j] as int];
    let a1 = SBOX[st[4 * ((j + 1) % 4) + 1] as int];
    let a2 = SBOX[st[4 * ((j + 2) % 4) + 2] as int];
    let a3 = SBOX[st[4 * ((j + 3) % 4) + 3] as int];
    let kw = w[4 * rnd + j];
    lemma_xor5(
        gf_mul(a0, 2), a0, a0, gf_mul(a0, 3),
        gf_mul(a1, 3), gf_mul(a1, 2), a1, a1,
        a2, gf_mul(a2, 3), gf_mul(a2, 2), a2,
        a3, a3, gf_mul(a3, 3), gf_mul(a3, 2),
        be_byte(kw, 0), be_byte(kw, 1), be_byte(kw, 2), be_byte(kw, 3),
    );
    let t = shift_rows(sub_bytes(st));
    assert(t[4 * j] == a0 && t[4 * j + 1] == a1 && t[4 * j + 2] == a2 && t[4 * j + 3] == a3);
    let nx = add_round_key(mix_columns(t), w, rnd);
    assert(nx[4 * j] == mix_row(a0, a1, a2, a3, 0) ^ be_byte(kw, 0));
    assert(nx[4 * j + 1] == mix_row(a0, a1, a2, a3, 1) ^ be_byte(kw, 1));
    assert(nx[4 * j + 2] == mix_row(a0, a1, a2, a3, 2) ^ be_byte(kw, 2));
    assert(nx[4 * j + 3] == mix_row(a0, a1, a2, a3, 3) ^ be_byte(kw, 3));
}

/// The final round on column j (no MixColumns).
proof fn lemma_final_round(st: Seq<u8>, w: Seq<u32>, j: int)
    requires
        st.len() == 16,
        0 <= j < 4,
        w.len() == 44,
    ensures
        pack_le(
            SBOX[st[4 * j] as int],
            SBOX[st[4 * ((j + 1) % 4) + 1] as int],
            SBOX[st[4 * ((j + 2) % 4) + 2] as int],
            SBOX[st[4 * ((j + 3) % 4) + 3] as int],
        ) ^ pack_le(
            be_byte(w[40 + j], 0),
            be_byte(w[40 + j], 1),
            be_byte(w[40 + j], 2),
            be_byte(w[40 + j], 3),
        ) == col(add_round_key(shift_rows(sub_bytes(st)), w, 10), j),
{
    let kw = w[40 + j];
    lemma_xor2(
        SBOX[st[4 * j] as int],
        SBOX[st[4 * ((j + 1) % 4) + 1] as int],
        SBOX[st[4 * ((j + 2) % 4) + 2] as int],
        SBOX[st[4 * ((j + 3) % 4) + 3] as int],
        be_byte(kw, 0), be_byte(kw, 1), be_byte(kw, 2), be_byte(kw, 3),
    );
}

// ---------------------------------------------------------------------------
// CTR mode
// ---------------------------------------------------------------------------

/// Big-endian increment of a counter block starting at byte `k`, carrying into
/// lower-index bytes while a byte wraps to zero.
pub open spec fn inc_from(c: Seq<u8>, k: nat) -> Seq<u8>
    decreases k,
{
    let c2 = c.update(k as int, c[k as int].wrapping_add(1));
    if c2[k as int] != 0 || k == 0 {
        c2
    } else {
        inc_from(c2, (k - 1) as nat)
    }
}

/// The 128-bit big-endian counter increment (modulo 2^128).
pub open spec fn ctr_inc(c: Seq<u8>) -> Seq<u8> {
    inc_from(c, 15)
}

/// The counter block for block index `i` of a stream started at `iv`.
pub open spec fn counter_at(iv: Seq<u8>, i: nat) -> Seq<u8>
    decreases i,
{
    if i == 0 {
        iv
    } else {
        ctr_inc(counter_at(iv, (i - 1) as nat))
    }
}

/// CTR keystream XOR over every byte of `data` (the last block may be partial).
pub open spec fn ctr_stream(enc: spec_fn(Seq<u8>) -> Seq<u8>, iv: Seq<u8>, data: Seq<u8>) -> Seq<u8> {
    Seq::new(data.len(), |j: int| data[j] ^ enc(counter_at(iv, (j / 16) as nat))[j % 16])
}

/// CTR keystream XOR over the whole 16-byte blocks of `data`; a trailing partial
/// block is left unchanged.
pub open spec fn ctr_blocks(enc: spec_fn(Seq<u8>) -> Seq<u8>, iv: Seq<u8>, data: Seq<u8>) -> Seq<u8> {
    Seq::new(
        data.len(),
        |j: int|
            if j < 16 * (data.len() / 16) {
                data[j] ^ enc(counter_at(iv, (j / 16) as nat))[j % 16]
            } else {
                data[j]
            },
    )
}

/// CTR is an involution: running the whole-block transform twice with the same
/// counter start and the same block cipher gives back the input.
pub proof fn lemma_ctr_blocks_involution(enc: spec_fn(Seq<u8>) -> Seq<u8>, iv: Seq<u8>, data: Seq<u8>)
    ensures
        ctr_blocks(enc, iv, ctr_blocks(enc, iv, data)) == data,
{
    let once = ctr_blocks(enc, iv, data);
    assert forall|j: int| 0 <= j < data.len() implies ctr_blocks(enc, iv, once)[j] == data[j] by {
        if j < 16 * (data.len() / 16) {
            let k = enc(counter_at(iv, (j / 16) as nat))[j % 16];
            let x = data[j];
            assert((x ^ k) ^ k == x) by (bit_vector);
        }
    }
    assert(ctr_blocks(enc, iv, once) =~= data);
}

/// The streaming CTR transform (partial last block included) is an involution.
pub proof fn lemma_ctr_stream_involution(enc: spec_fn(Seq<u8>) -> Seq<u8>, iv: Seq<u8>, data: Seq<u8>)
    ensures
        ctr_stream(enc, iv, ctr_stream(enc, iv, data)) == data,
{
    let once = ctr_stream(enc, iv, data);
    assert forall|j: int| 0 <= j < data.len() implies ctr_stream(enc, iv, once)[j] == data[j] by {
        let k = enc(counter_at(iv, (j / 16) as nat))[j % 16];
        let x = data[j];
        assert((x ^ k) ^ k == x) by (bit_vector);
    }
    assert(ctr_stream(enc, iv, once) =~= data);
}

/// Advance a 16-byte counter block in place by one (big-endian, with carry).
pub fn increment_counter(c: &mut [u8; 16])
    ensures
        final(c)@ == ctr_inc(old(c)@),
        be_value(final(c)@, 16) == (be_value(old(c)@, 16) + 1) % p256(16),
{
    let mut k: usize = 15;
    let ghost orig = c@;
    loop
        invariant
            k < 16,
            orig == old(c)@,
            inc_from(orig, 15) == inc_from(c@, k as nat),
        decreases k,
    {
        let ghost before = c@;
        c[k] = c[k].wrapping_add(1);
        assert(c@ == before.update(k as int, before[k as int].wrapping_add(1)));
        if c[k] != 0 || k == 0 {
            assert(inc_from(before, k as nat) == c@);
            proof {
                lemma_ctr_inc_successor(orig);
            }
            return;
        }
        assert(inc_from(before, k as nat) == inc_from(c@, (k - 1) as nat));
        k -= 1;
    }
}

/// 256 to the power `k`.
pub open spec fn p256(k: nat) -> nat
    decreases k,
{
    if k == 0 {
        1
    } else {
        256 * p256((k - 1) as nat)
    }
}

/// The number the first `k` bytes of `c` spell, most significant first.
pub open spec fn be_value(c: Seq<u8>, k: nat) -> nat
    decreases k,
{
    if k == 0 {
        0
    } else {
        be_value(c, (k - 1) as nat) * 256 + c[k - 1] as nat
    }
}

proof fn lemma_be_value_prefix(c: Seq<u8>, d: Seq<u8>, k: nat)
    requires
        k <= c.len(),
        k <= d.len(),
        forall|j: int| 0 <= j < k ==> #[trigger] c[j] == d[j],
    ensures
        be_value(c, k) == be_value(d, k),
    decreases k,
{
    if k > 0 {
        lemma_be_value_prefix(c, d, (k - 1) as nat);
    }
}

proof fn lemma_be_value_bound(c: Seq<u8>, k: nat)
    requires
        k <= c.len(),
    ensures
        be_value(c, k) < p256(k),
    decreases k,
{
    if k > 0 {
        lemma_be_value_bound(c, (k - 1) as nat);
        let v = be_value(c, (k - 1) as nat);
        let b = c[k - 1] as nat;
        assert(v * 256 + b < p256(k)) by (nonlinear_arith)
            requires
                v < p256((k - 1) as nat),
                b < 256,
                p256(k) == 256 * p256((k - 1) as nat),
        ;
    }
}

proof fn lemma_mod_scale(a: int, m: int)
    requires
        a >= 0,
        m > 0,
    ensures
        (a * 256) % (m * 256) == (a % m) * 256,
{
    let q = a / m;
    let r = a % m;
    vstd::arithmetic::div_mod::lemma_fundamental_div_mod(a, m);
    assert(a * 256 == q * (m * 256) + r * 256) by (nonlinear_arith)
        requires
            a == m * q + r,
    ;
    assert(0 <= r * 256 < m * 256) by (nonlinear_arith)
        requires
            0 <= r < m,
    ;
    vstd::arithmetic::div_mod::lemma_fundamental_div_mod_converse(a * 256, m * 256, q, r * 256);
}

/// Incrementing from byte `k` adds one to the number the first `k + 1`
/// bytes spell, modulo `256^(k + 1)`, and leaves the length and every later
/// byte alone.
proof fn lemma_inc_from_value(c: Seq<u8>, k: nat)
    requires
        k < c.len(),
    ensures
        inc_from(c, k).len() == c.len(),
        forall|j: int| k < j < c.len() ==> #[trigger] inc_from(c, k)[j] == c[j],
        be_value(inc_from(c, k), k + 1) == (be_value(c, k + 1) + 1) % p256(k + 1),
    decreases k,
{
    let c2 = c.update(k as int, c[k as int].wrapping_add(1));
    lemma_be_value_prefix(c, c2, k);
    lemma_be_value_bound(c, k);
    let v = be_value(c, k);
    let b = c[k as int];
    if b != 255 {
        assert(c2[k as int] == b + 1);
        assert(c2[k as int] != 0);
        assert(be_value(c2, k + 1) == v * 256 + b + 1);
        assert(v * 256 + b + 1 < p256(k + 1)) by (nonlinear_arith)
            requires
                v < p256(k),
                b < 255,
                p256(k + 1) == 256 * p256(k),
        ;
        vstd::arithmetic::div_mod::lemma_small_mod((v * 256 + b + 1) as nat, p256(k + 1));
    } else {
        assert(c2[k as int] == 0);
        if k == 0 {
            assert(be_value(c, 1) == 255);
            assert(p256(1) == 256);
        } else {
            let r = inc_from(c2, (k - 1) as nat);
            lemma_inc_from_value(c2, (k - 1) as nat);
            assert(r[k as int] == 0);
            assert(be_value(r, k + 1) == be_value(r, k) * 256);
            // be_value(r, k) == (v + 1) % 256^k
            assert(be_value(c, k + 1) + 1 == (v + 1) * 256);
            assert(p256(k + 1) == p256(k) * 256);
            lemma_mod_scale((v + 1) as int, p256(k) as int);
        }
    }
}

/// Law of the counter: the successor of a 16-byte counter block is the
/// block of the next number, as a 128-bit big-endian integer modulo 2^128;
/// in particular it differs from the block.
pub proof fn lemma_ctr_inc_successor(c: Seq<u8>)
    requires
        c.len() == 16,
    ensures
        ctr_inc(c).len() == 16,
        be_value(ctr_inc(c), 16) == (be_value(c, 16) + 1) % p256(16),
        ctr_inc(c) != c,
{
    lemma_inc_from_value(c, 15);
    lemma_be_value_bound(c, 16);
    if ctr_inc(c) == c {
        let x = be_value(c, 16) as int;
        let m = p256(16) as int;
        assert(m > 1) by {
            reveal_with_fuel(p256, 17);
        }
        if x + 1 < m {
            vstd::arithmetic::div_mod::lemma_small_mod((x + 1) as nat, m as nat);
        } else {
            assert(x + 1 == m);
            vstd::arithmetic::div_mod::lemma_mod_self_0(m);
        }
    }
}

/// Law of CTR mode: the counter block of block `i` is the IV plus `i`, as
/// 128-bit big-endian integers modulo 2^128.
pub proof fn lemma_counter_at_offset(iv: Seq<u8>, i: nat)
    requires
        iv.len() == 16,
    ensures
        counter_at(iv, i).len() == 16,
        be_value(counter_at(iv, i), 16) == (be_value(iv, 16) + i) % p256(16),
    decreases i,
{
    let m = p256(16) as int;
    assert(m > 0) by {
        reveal_with_fuel(p256, 17);
    }
    lemma_be_value_bound(iv, 16);
    if i == 0 {
        vstd::arithmetic::div_mod::lemma_small_mod(be_value(iv, 16), m as nat);
    } else {
        lemma_counter_at_offset(iv, (i - 1) as nat);
        let prev = counter_at(iv, (i - 1) as nat);
        lemma_ctr_inc_successor(prev);
        let x = be_value(iv, 16) as int;
        vstd::arithmetic::div_mod::lemma_add_mod_noop(x + i - 1, 1, m);
        vstd::arithmetic::div_mod::lemma_small_mod(1, m as nat);
        vstd::arithmetic::div_mod::lemma_mod_twice(x + i - 1, m);
    }
}

// ---------------------------------------------------------------------------
// The engine abstraction
// ---------------------------------------------------------------------------

/// AEAD error codes.
///
/// `AuthFail` is the security-critical variant: any byte modification to
/// ciphertext/tag/AD/nonce must produce it. Buffer-size mismatches surface
/// separately so callers can distinguish API misuse from tampering.
#[derive(Debug, PartialEq, Eq, Structural)]
pub enum AeadError {
    /// `out` slice shorter than `plaintext.len() + TAG_SIZE`.
    OutputTooSmall,
    /// `plaintext_out` slice shorter than `ciphertext.len() - TAG_SIZE`.
    PlaintextBufferTooSmall,
    /// Authentication tag did not match.
    AuthFail,
    /// Nonce length does not match `NONCE_SIZE`.
    InvalidNonceLength,
    /// Key length does not match `KEY_SIZE`.
    InvalidKeyLength,
    /// Declared in the type system but not yet wired to hardware.
    NotYetImplemented,
}

/// A single-block AES engine with a CTR-mode transform.
pub trait AesEngine: Sized {
    /// What `encrypt_block` computes on a 16-byte input.
    spec fn block_enc(&self, input: Seq<u8>) -> Seq<u8>;

    /// What `decrypt_block` computes on a 16-byte input.
    spec fn block_dec(&self, input: Seq<u8>) -> Seq<u8>;

    spec fn engine_wf(&self) -> bool;

    /// The engine enciphers under the 16-byte `key`.
    spec fn keyed_with(&self, key: Seq<u8>) -> bool;

    fn init(&mut self, key: &[u8], iv: Option<&[u8]>)
        requires
            old(self).engine_wf(),
            key@.len() >= 16,
        ensures
            final(self).engine_wf(),
            final(self).keyed_with(key@.subrange(0, 16)),
    ;

    fn encrypt_block(&self, input: &[u8; 16], output: &mut [u8; 16])
        requires
            self.engine_wf(),
        ensures
            final(output)@ == self.block_enc(input@),
    ;

    fn decrypt_block(&self, input: &[u8; 16], output: &mut [u8; 16])
        requires
            self.engine_wf(),
        ensures
            final(output)@ == self.block_dec(input@),
    ;

    /// AES-CTR XOR transform over the whole 16-byte blocks of `data` (encrypt and
    /// decrypt are the same operation); `iv` is the initial counter block, which
    /// increments big-endian with carry. A partial trailing block is untouched.
    fn ctr_xform(&mut self, iv: &[u8; 16], data: &mut [u8])
        requires
            old(self).engine_wf(),
        ensures
            final(self).engine_wf(),
            forall|b: Seq<u8>| #[trigger] final(self).block_enc(b) == old(self).block_enc(b),
            forall|k: Seq<u8>| #[trigger] final(self).keyed_with(k) == old(self).keyed_with(k),
            final(data)@ == ctr_blocks(|b: Seq<u8>| old(self).block_enc(b), iv@, old(data)@),
    {
        let mut counter_block = *iv;
        let mut keystream = [0u8; 16];
        let dlen = data.len();
        let chunks = dlen / 16;
        let ghost d0 = data@;
        let ghost enc = |b: Seq<u8>| old(self).block_enc(b);
        let mut i: usize = 0;
        while i < chunks
            invariant
                self.engine_wf(),
                *self == *old(self),
                enc == (|b: Seq<u8>| old(self).block_enc(b)),
                dlen == d0.len(),
                chunks == d0.len() / 16,
                data@.len() == d0.len(),
                i <= chunks,
                counter_block@ == counter_at(iv@, i as nat),
                forall|j: int|
                    0 <= j < data@.len() ==> #[trigger] data@[j] == (if j < 16 * i {
                        ctr_blocks(enc, iv@, d0)[j]
                    } else {
                        d0[j]
                    }),
            decreases chunks - i,
        {
            self.encrypt_block(&counter_block, &mut keystream);
            let mut j: usize = 0;
            while j < 16
                invariant
                    i < chunks,
                    chunks == d0.len() / 16,
                    data@.len() == d0.len(),
                    dlen == d0.len(),
                    j <= 16,
                    keystream@ == enc(counter_at(iv@, i as nat)),
                    forall|k: int|
                        0 <= k < data@.len() ==> #[trigger] data@[k] == (if k < 16 * i + j {
                            ctr_blocks(enc, iv@, d0)[k]
                        } else {
                            d0[k]
                        }),
                decreases 16 - j,
            {
                proof {
                    let k = 16 * i + j;
                    assert(i * 16 + j < 16 * (d0.len() / 16)) by (nonlinear_arith)
                        requires
                            i < chunks,
                            chunks == d0.len() / 16,
                            j < 16,
                    ;
                    assert(16 * (d0.len() / 16) <= d0.len()) by (nonlinear_arith);
                    assert(i * 16 + j < dlen);
                    assert(k / 16 == i && k % 16 == j);
                }
                data[i * 16 + j] ^= keystream[j];
                j += 1;
            }
            increment_counter(&mut counter_block);
            i += 1;
        }
        assert(data@ =~= ctr_blocks(enc, iv@, d0));
    }
}

// ---------------------------------------------------------------------------
// Software AES-128
// ---------------------------------------------------------------------------

/// Software AES-128. Encryption runs on four 256-entry tables that fold
/// SubBytes, ShiftRows and MixColumns into XORs of lookups; decryption runs the
/// byte-wise inverse rounds.
pub struct AesEmulated {
    key: [u8; 16],
    sbox: [u8; 256],
    rsbox: [u8; 256],
    expanded_key: [u32; 44],
    t0: [u32; 256],
    t1: [u32; 256],
    t2: [u32; 256],
    t3: [u32; 256],
}

impl AesEmulated {
    /// The lookup tables hold the S-box, its inverse and the four encryption
    /// tables.
    pub closed spec fn wf(&self) -> bool {
        &&& self.sbox@ == SBOX@
        &&& self.rsbox@ == INV_SBOX@
        &&& forall|b: int| 0 <= b < 256 ==> #[trigger] self.t0[b] == te0(b as u8)
        &&& forall|b: int| 0 <= b < 256 ==> #[trigger] self.t1[b] == te1(b as u8)
        &&& forall|b: int| 0 <= b < 256 ==> #[trigger] self.t2[b] == te2(b as u8)
        &&& forall|b: int| 0 <= b < 256 ==> #[trigger] self.t3[b] == te3(b as u8)
    }

    /// The 44-word round-key schedule in use.
    pub closed spec fn round_keys(&self) -> Seq<u32> {
        self.expanded_key@
    }

    /// An engine with all-zero round keys; `init` installs a key.
    pub fn new() -> (s: Self)
        ensures
            s.wf(),
            s.round_keys() == Seq::new(44, |i: int| 0u32),
    {
        let sbox = Self::generate_sbox();
        let rsbox = Self::generate_rsbox(&sbox);
        let (t0, t1, t2, t3) = Self::generate_t_tables(&sbox);
        let s = Self { key: [0;16], sbox, rsbox, expanded_key: [0; 44], t0, t1, t2, t3 };
        assert(s.expanded_key@ =~= Seq::new(44, |i: int| 0u32));
        s
    }

    /// The AES S-box.
    fn generate_sbox() -> (sbox: [u8; 256])
        ensures
            sbox@ == SBOX@,
    {
        SBOX
    }

    /// The inverse of the S-box `sbox`.
    fn generate_rsbox(sbox: &[u8; 256]) -> (rsbox: [u8; 256])
        requires
            sbox@ == SBOX@,
        ensures
            rsbox@ == INV_SBOX@,
    {
        INV_SBOX
    }

    /// The four encryption tables built from the S-box.
    #[verifier::rlimit(40)]
    fn generate_t_tables(sbox: &[u8; 256]) -> (tables: ([u32; 256], [u32; 256], [u32; 256], [u32; 256]))
        requires
            sbox@ == SBOX@,
        ensures
            forall|b: int| 0 <= b < 256 ==> #[trigger] tables.0[b] == te0(b as u8),
            forall|b: int| 0 <= b < 256 ==> #[trigger] tables.1[b] == te1(b as u8),
            forall|b: int| 0 <= b < 256 ==> #[trigger] tables.2[b] == te2(b as u8),
            forall|b: int| 0 <= b < 256 ==> #[trigger] tables.3[b] == te3(b as u8),
    {
        let mut t0 = [0u32; 256];
        let mut t1 = [0u32; 256];
        let mut t2 = [0u32; 256];
        let mut t3 = [0u32; 256];
        let mut i: usize = 0;
        while i < 256
            invariant
                i <= 256,
                sbox@ == SBOX@,
                forall|b: int| 0 <= b < i ==> #[trigger] t0[b] == te0(b as u8),
                forall|b: int| 0 <= b < i ==> #[trigger] t1[b] == te1(b as u8),
                forall|b: int| 0 <= b < i ==> #[trigger] t2[b] == te2(b as u8),
                forall|b: int| 0 <= b < i ==> #[trigger] t3[b] == te3(b as u8),
            decreases 256 - i,
        {
            let s = sbox[i];
            let s2 = Self::gmul(s, 2);
            let s3 = Self::gmul(s, 3);
            t0[i] = (s2 as u32) | ((s as u32) << 8u32) | ((s as u32) << 16u32) | ((s3 as u32) << 24u32);
            t1[i] = (s3 as u32) | ((s2 as u32) << 8u32) | ((s as u32) << 16u32) | ((s as u32) << 24u32);
            t2[i] = (s as u32) | ((s3 as u32) << 8u32) | ((s2 as u32) << 16u32) | ((s as u32) << 24u32);
            t3[i] = (s as u32) | ((s as u32) << 8u32) | ((s3 as u32) << 16u32) | ((s2 as u32) << 24u32);
            assert(s == SBOX[(i as u8) as int]);
            i += 1;
        }
        (t0, t1, t2, t3)
    }

    fn rot_word(w: u32) -> (r: u32)
        ensures
            r == rot_word(w),
    {
        (w << 8u32) | (w >> 24u32)
    }

    fn sub_word(&self, w: u32) -> (r: u32)
        requires
            self.wf(),
        ensures
            r == sub_word(w),
    {
        assert((w >> 24u32) < 256 && ((w >> 16u32) & 0xFF) < 256 && ((w >> 8u32) & 0xFF) < 256
            && (w & 0xFF) < 256) by (bit_vector);
        let b0 = self.sbox[(w >> 24u32) as usize] as u32;
        let b1 = self.sbox[((w >> 16u32) & 0xFF) as usize] as u32;
        let b2 = self.sbox[((w >> 8u32) & 0xFF) as usize] as u32;
        let b3 = self.sbox[(w & 0xFF) as usize] as u32;
        (b0 << 24u32) | (b1 << 16u32) | (b2 << 8u32) | b3
    }

    /// Expand `key` into the 44-word round-key schedule.
    fn key_expansion(&mut self)
        requires
            old(self).wf(),
        ensures
            final(self).wf(),
            final(self).key == old(self).key,
            final(self).expanded_key@ == key_schedule(old(self).key@),
    {
        let mut i: usize = 0;
        while i < 4
            invariant
                i <= 4,
                self.wf(),
                self.key == old(self).key,
                forall|j: int| 0 <= j < i ==> #[trigger] self.expanded_key[j] == key_word(self.key@, j as nat),
            decreases 4 - i,
        {
            self.expanded_key[i] = ((self.key[i * 4] as u32) << 24u32) | ((self.key[i * 4 + 1] as u32)
                << 16u32) | ((self.key[i * 4 + 2] as u32) << 8u32) | (self.key[i * 4 + 3] as u32);
            i += 1;
        }
        let mut i: usize = 4;
        while i < 44
            invariant
                4 <= i <= 44,
                self.wf(),
                self.key == old(self).key,
                forall|j: int| 0 <= j < i ==> #[trigger] self.expanded_key[j] == key_word(self.key@, j as nat),
            decreases 44 - i,
        {
            let mut temp = self.expanded_key[i - 1];
            if i % 4 == 0 {
                temp = self.sub_word(Self::rot_word(temp)) ^ (RCON[(i / 4) - 1] << 24u32);
            }
            self.expanded_key[i] = self.expanded_key[i - 4] ^ temp;
            i += 1;
        }
        assert(self.expanded_key@ =~= key_schedule(self.key@));
    }

    /// XOR round key `rnd` into the state.
    fn add_round_key(&self, state: &mut [u8; 16], rnd: usize)
        requires
            rnd <= 10,
        ensures
            final(state)@ == add_round_key(old(state)@, self.expanded_key@, rnd as int),
    {
        let ghost st0 = state@;
        let mut i: usize = 0;
        while i < 4
            invariant
                i <= 4,
                rnd <= 10,
                forall|k: int| 0 <= k < 4 * i ==> #[trigger] state@[k] == st0[k] ^ be_byte(
                    self.expanded_key[4 * rnd + k / 4],
                    k % 4,
                ),
                forall|k: int| 4 * i <= k < 16 ==> #[trigger] state@[k] == st0[k],
            decreases 4 - i,
        {
            let rk = self.expanded_key[rnd * 4 + i];
            state[i * 4] ^= (rk >> 24u32) as u8;
            state[i * 4 + 1] ^= (rk >> 16u32) as u8;
            state[i * 4 + 2] ^= (rk >> 8u32) as u8;
            state[i * 4 + 3] ^= rk as u8;
            proof {
                assert(be_byte(rk, 3) == rk as u8) by {
                    assert(rk >> 0u32 == rk) by (bit_vector);
                }
            }
            i += 1;
        }
        assert(state@ =~= add_round_key(st0, self.expanded_key@, rnd as int));
    }

    /// SubBytes (unused by the table-driven encryption; kept for reference).
    fn sub_bytes(&self, s: &mut [u8; 16])
        requires
            self.wf(),
        ensures
            final(s)@ == sub_bytes(old(s)@),
    {
        let ghost s0 = s@;
        let mut i: usize = 0;
        while i < 16
            invariant
                i <= 16,
                self.wf(),
                forall|k: int| 0 <= k < i ==> #[trigger] s@[k] == SBOX[s0[k] as int],
                forall|k: int| i <= k < 16 ==> #[trigger] s@[k] == s0[k],
            decreases 16 - i,
        {
            s[i] = self.sbox[s[i] as usize];
            i += 1;
        }
        assert(s@ =~= sub_bytes(s0));
    }

    fn inv_sub_bytes(&self, s: &mut [u8; 16])
        requires
            self.wf(),
        ensures
            final(s)@ == inv_sub_bytes(old(s)@),
    {
        let ghost s0 = s@;
        let mut i: usize = 0;
        while i < 16
            invariant
                i <= 16,
                self.wf(),
                forall|k: int| 0 <= k < i ==> #[trigger] s@[k] == INV_SBOX[s0[k] as int],
                forall|k: int| i <= k < 16 ==> #[trigger] s@[k] == s0[k],
            decreases 16 - i,
        {
            s[i] = self.rsbox[s[i] as usize];
            i += 1;
        }
        assert(s@ =~= inv_sub_bytes(s0));
    }

    /// ShiftRows (unused by the table-driven encryption; kept for reference).
    fn shift_rows(s: &mut [u8; 16])
        ensures
            final(s)@ == shift_rows(old(s)@),
    {
        let ghost s0 = s@;
        let t = s[1];
        s[1] = s[5];
        s[5] = s[9];
        s[9] = s[13];
        s[13] = t;
        let (t1, t2) = (s[2], s[6]);
        s[2] = s[10];
        s[6] = s[14];
        s[10] = t1;
        s[14] = t2;
        let t = s[3];
        s[3] = s[15];
        s[15] = s[11];
        s[11] = s[7];
        s[7] = t;
        assert(s@ =~= shift_rows(s0));
    }

    fn inv_shift_rows(s: &mut [u8; 16])
        ensures
            final(s)@ == inv_shift_rows(old(s)@),
    {
        let ghost s0 = s@;
        let t = s[13];
        s[13] = s[9];
        s[9] = s[5];
        s[5] = s[1];
        s[1] = t;
        let (t1, t2) = (s[2], s[6]);
        s[2] = s[10];
        s[6] = s[14];
        s[10] = t1;
        s[14] = t2;
        let t = s[3];
        s[3] = s[7];
        s[7] = s[11];
        s[11] = s[15];
        s[15] = t;
        assert(s@ =~= inv_shift_rows(s0));
    }

    /// Multiplication in GF(2^8).
    fn gmul(a: u8, b: u8) -> (p: u8)
        ensures
            p == gf_mul(a, b),
    {
        let ghost a0 = a;
        let ghost b0 = b;
        let mut a = a;
        let mut b = b;
        let mut p = 0u8;
        let mut round: u32 = 0;
        while round < 8
            invariant
                round <= 8,
                gf_mul_steps(a, b, p, (8 - round) as nat) == gf_mul_steps(a0, b0, 0, 8),
            decreases 8 - round,
        {
            if (b & 1) != 0 {
                p ^= a;
            }
            let hi = (a & 0x80) != 0;
            a <<= 1u8;
            if hi {
                a ^= 0x1B;
            }
            b >>= 1u8;
            round += 1;
        }
        p
    }

    /// MixColumns (unused by the table-driven encryption; kept for reference).
    fn mix_columns(s: &mut [u8; 16])
        ensures
            final(s)@ == mix_columns(old(s)@),
    {
        let ghost s0 = s@;
        let mut i: usize = 0;
        while i < 4
            invariant
                i <= 4,
                forall|k: int|
                    0 <= k < 4 * i ==> #[trigger] s@[k] == mix_row(
                        s0[4 * (k / 4)],
                        s0[4 * (k / 4) + 1],
                        s0[4 * (k / 4) + 2],
                        s0[4 * (k / 4) + 3],
                        k % 4,
                    ),
                forall|k: int| 4 * i <= k < 16 ==> #[trigger] s@[k] == s0[k],
            decreases 4 - i,
        {
            let o = i * 4;
            let (c0, c1, c2, c3) = (s[o], s[o + 1], s[o + 2], s[o + 3]);
            s[o] = Self::gmul(c0, 2) ^ Self::gmul(c1, 3) ^ c2 ^ c3;
            s[o + 1] = c0 ^ Self::gmul(c1, 2) ^ Self::gmul(c2, 3) ^ c3;
            s[o + 2] = c0 ^ c1 ^ Self::gmul(c2, 2) ^ Self::gmul(c3, 3);
            s[o + 3] = Self::gmul(c0, 3) ^ c1 ^ c2 ^ Self::gmul(c3, 2);
            i += 1;
        }
        assert(s@ =~= mix_columns(s0));
    }

    fn inv_mix_columns(s: &mut [u8; 16])
        ensures
            final(s)@ == inv_mix_columns(old(s)@),
    {
        let ghost s0 = s@;
        let mut i: usize = 0;
        while i < 4
            invariant
                i <= 4,
                forall|k: int|
                    0 <= k < 4 * i ==> #[trigger] s@[k] == inv_mix_row(
                        s0[4 * (k / 4)],
                        s0[4 * (k / 4) + 1],
                        s0[4 * (k / 4) + 2],
                        s0[4 * (k / 4) + 3],
                        k % 4,
                    ),
                forall|k: int| 4 * i <= k < 16 ==> #[trigger] s@[k] == s0[k],
            decreases 4 - i,
        {
            let o = i * 4;
            let (c0, c1, c2, c3) = (s[o], s[o + 1], s[o + 2], s[o + 3]);
            s[o] = Self::gmul(c0, 14) ^ Self::gmul(c1, 11) ^ Self::gmul(c2, 13) ^ Self::gmul(c3, 9);
            s[o + 1] = Self::gmul(c0, 9) ^ Self::gmul(c1, 14) ^ Self::gmul(c2, 11) ^ Self::gmul(c3, 13);
            s[o + 2] = Self::gmul(c0, 13) ^ Self::gmul(c1, 9) ^ Self::gmul(c2, 14) ^ Self::gmul(c3, 11);
            s[o + 3] = Self::gmul(c0, 11) ^ Self::gmul(c1, 13) ^ Self::gmul(c2, 9) ^ Self::gmul(c3, 14);
            i += 1;
        }
        assert(s@ =~= inv_mix_columns(s0));
    }
}


/// Column `c` of `add_round_key(st, w, rnd)` is column `c` of `st` XORed with
/// the byte-swapped round-key word.
proof fn lemma_ark_col(st: Seq<u8>, w: Seq<u32>, rnd: int, c: int)
    requires
        st.len() == 16,
        0 <= c < 4,
    ensures
        col(st, c) ^ pack_le(
            be_byte(w[4 * rnd + c], 0),
            be_byte(w[4 * rnd + c], 1),
            be_byte(w[4 * rnd + c], 2),
            be_byte(w[4 * rnd + c], 3),
        ) == col(add_round_key(st, w, rnd), c),
{
    let kw = w[4 * rnd + c];
    lemma_xor2(
        st[4 * c], st[4 * c + 1], st[4 * c + 2], st[4 * c + 3],
        be_byte(kw, 0), be_byte(kw, 1), be_byte(kw, 2), be_byte(kw, 3),
    );
}

impl AesEngine for AesEmulated {
    open spec fn block_enc(&self, input: Seq<u8>) -> Seq<u8> {
        cipher(self.round_keys(), input)
    }

    open spec fn block_dec(&self, input: Seq<u8>) -> Seq<u8> {
        inv_cipher(self.round_keys(), input)
    }

    open spec fn engine_wf(&self) -> bool {
        self.wf()
    }

    open spec fn keyed_with(&self, key: Seq<u8>) -> bool {
        self.round_keys() == key_schedule(key)
    }

    /// Load the first 16 bytes of `key` and expand them; `iv` is unused.
    fn init(&mut self, key: &[u8], iv: Option<&[u8]>)
        ensures
            final(self).round_keys() == key_schedule(key@.subrange(0, 16)),
    {
        let mut i: usize = 0;
        while i < 16
            invariant
                i <= 16,
                key@.len() >= 16,
                self.wf(),
                forall|k: int| 0 <= k < i ==> #[trigger] self.key[k] == key@[k],
            decreases 16 - i,
        {
            self.key[i] = key[i];
            i += 1;
        }
        assert(self.key@ =~= key@.subrange(0, 16));
        self.key_expansion();
    }

    /// Table-driven AES-128 encryption of one block.
    #[verifier::rlimit(80)]
    fn encrypt_block(&self, input: &[u8; 16], output: &mut [u8; 16]) {
        let ghost w = self.expanded_key@;
        let ghost inp = input@;
        let mut s0 = (input[0] as u32) | ((input[1] as u32) << 8u32) | ((input[2] as u32) << 16u32)
            | ((input[3] as u32) << 24u32);
        let mut s1 = (input[4] as u32) | ((input[5] as u32) << 8u32) | ((input[6] as u32) << 16u32)
            | ((input[7] as u32) << 24u32);
        let mut s2 = (input[8] as u32) | ((input[9] as u32) << 8u32) | ((input[10] as u32) << 16u32)
            | ((input[11] as u32) << 24u32);
        let mut s3 = (input[12] as u32) | ((input[13] as u32) << 8u32) | ((input[14] as u32)
            << 16u32) | ((input[15] as u32) << 24u32);
        s0 = s0 ^ swap32(self.expanded_key[0]);
        s1 = s1 ^ swap32(self.expanded_key[1]);
        s2 = s2 ^ swap32(self.expanded_key[2]);
        s3 = s3 ^ swap32(self.expanded_key[3]);
        proof {
            lemma_ark_col(inp, w, 0, 0);
            lemma_ark_col(inp, w, 0, 1);
            lemma_ark_col(inp, w, 0, 2);
            lemma_ark_col(inp, w, 0, 3);
        }
        let mut round: usize = 1;
        while round < 10
            invariant
                1 <= round <= 10,
                self.wf(),
                w == self.expanded_key@,
                s0 == col(cipher_rounds(w, inp, (round - 1) as nat), 0),
                s1 == col(cipher_rounds(w, inp, (round - 1) as nat), 1),
                s2 == col(cipher_rounds(w, inp, (round - 1) as nat), 2),
                s3 == col(cipher_rounds(w, inp, (round - 1) as nat), 3),
            decreases 10 - round,
        {
            let ghost st = cipher_rounds(w, inp, (round - 1) as nat);
            proof {
                lemma_unpack(st[0], st[1], st[2], st[3]);
                lemma_unpack(st[4], st[5], st[6], st[7]);
                lemma_unpack(st[8], st[9], st[10], st[11]);
                lemma_unpack(st[12], st[13], st[14], st[15]);
                lemma_table_round(st, w, round as int, 0);
                lemma_table_round(st, w, round as int, 1);
                lemma_table_round(st, w, round as int, 2);
                lemma_table_round(st, w, round as int, 3);
            }
            let n0 = self.t0[(s0 & 0xFF) as usize] ^ self.t1[((s1 >> 8u32) & 0xFF) as usize]
                ^ self.t2[((s2 >> 16u32) & 0xFF) as usize] ^ self.t3[((s3 >> 24u32) & 0xFF) as usize]
                ^ swap32(self.expanded_key[round * 4]);
            let n1 = self.t0[(s1 & 0xFF) as usize] ^ self.t1[((s2 >> 8u32) & 0xFF) as usize]
                ^ self.t2[((s3 >> 16u32) & 0xFF) as usize] ^ self.t3[((s0 >> 24u32) & 0xFF) as usize]
                ^ swap32(self.expanded_key[round * 4 + 1]);
            let n2 = self.t0[(s2 & 0xFF) as usize] ^ self.t1[((s3 >> 8u32) & 0xFF) as usize]
                ^ self.t2[((s0 >> 16u32) & 0xFF) as usize] ^ self.t3[((s1 >> 24u32) & 0xFF) as usize]
                ^ swap32(self.expanded_key[round * 4 + 2]);
            let n3 = self.t0[(s3 & 0xFF) as usize] ^ self.t1[((s0 >> 8u32) & 0xFF) as usize]
                ^ self.t2[((s1 >> 16u32) & 0xFF) as usize] ^ self.t3[((s2 >> 24u32) & 0xFF) as usize]
                ^ swap32(self.expanded_key[round * 4 + 3]);
            s0 = n0;
            s1 = n1;
            s2 = n2;
            s3 = n3;
            round += 1;
        }
        let ghost st = cipher_rounds(w, inp, 9);
        proof {
            lemma_unpack(st[0], st[1], st[2], st[3]);
            lemma_unpack(st[4], st[5], st[6], st[7]);
            lemma_unpack(st[8], st[9], st[10], st[11]);
            lemma_unpack(st[12], st[13], st[14], st[15]);
            lemma_final_round(st, w, 0);
            lemma_final_round(st, w, 1);
            lemma_final_round(st, w, 2);
            lemma_final_round(st, w, 3);
        }
        let a0 = self.sbox[(s0 & 0xFF) as usize];
        let a1 = self.sbox[((s1 >> 8u32) & 0xFF) as usize];
        let a2 = self.sbox[((s2 >> 16u32) & 0xFF) as usize];
        let a3 = self.sbox[((s3 >> 24u32) & 0xFF) as usize];
        let b0 = self.sbox[(s1 & 0xFF) as usize];
        let b1 = self.sbox[((s2 >> 8u32) & 0xFF) as usize];
        let b2 = self.sbox[((s3 >> 16u32) & 0xFF) as usize];
        let b3 = self.sbox[((s0 >> 24u32) & 0xFF) as usize];
        let c0 = self.sbox[(s2 & 0xFF) as usize];
        let c1 = self.sbox[((s3 >> 8u32) & 0xFF) as usize];
        let c2 = self.sbox[((s0 >> 16u32) & 0xFF) as usize];
        let c3 = self.sbox[((s1 >> 24u32) & 0xFF) as usize];
        let d0 = self.sbox[(s3 & 0xFF) as usize];
        let d1 = self.sbox[((s0 >> 8u32) & 0xFF) as usize];
        let d2 = self.sbox[((s1 >> 16u32) & 0xFF) as usize];
        let d3 = self.sbox[((s2 >> 24u32) & 0xFF) as usize];
        let n0 = (a0 as u32) | ((a1 as u32) << 8u32) | ((a2 as u32) << 16u32) | ((a3 as u32) << 24u32);
        let n1 = (b0 as u32) | ((b1 as u32) << 8u32) | ((b2 as u32) << 16u32) | ((b3 as u32) << 24u32);
        let n2 = (c0 as u32) | ((c1 as u32) << 8u32) | ((c2 as u32) << 16u32) | ((c3 as u32) << 24u32);
        let n3 = (d0 as u32) | ((d1 as u32) << 8u32) | ((d2 as u32) << 16u32) | ((d3 as u32) << 24u32);
        let final0 = n0 ^ swap32(self.expanded_key[40]);
        let final1 = n1 ^ swap32(self.expanded_key[41]);
        let final2 = n2 ^ swap32(self.expanded_key[42]);
        let final3 = n3 ^ swap32(self.expanded_key[43]);
        let ghost out = cipher(w, inp);
        proof {
            assert(final0 == col(out, 0));
            assert(final1 == col(out, 1));
            assert(final2 == col(out, 2));
            assert(final3 == col(out, 3));
            lemma_unpack(out[0], out[1], out[2], out[3]);
            lemma_unpack(out[4], out[5], out[6], out[7]);
            lemma_unpack(out[8], out[9], out[10], out[11]);
            lemma_unpack(out[12], out[13], out[14], out[15]);
        }
        output[0] = final0 as u8;
        output[1] = (final0 >> 8u32) as u8;
        output[2] = (final0 >> 16u32) as u8;
        output[3] = (final0 >> 24u32) as u8;
        output[4] = final1 as u8;
        output[5] = (final1 >> 8u32) as u8;
        output[6] = (final1 >> 16u32) as u8;
        output[7] = (final1 >> 24u32) as u8;
        output[8] = final2 as u8;
        output[9] = (final2 >> 8u32) as u8;
        output[10] = (final2 >> 16u32) as u8;
        output[11] = (final2 >> 24u32) as u8;
        output[12] = final3 as u8;
        output[13] = (final3 >> 8u32) as u8;
        output[14] = (final3 >> 16u32) as u8;
        output[15] = (final3 >> 24u32) as u8;
        assert(output@ =~= out);
    }

    /// Byte-wise AES-128 decryption of one block.
    fn decrypt_block(&self, input: &[u8; 16], output: &mut [u8; 16]) {
        let ghost w = self.expanded_key@;
        let mut s = *input;
        self.add_round_key(&mut s, 10);
        let mut r: usize = 9;
        while r >= 1
            invariant
                r <= 9,
                self.wf(),
                w == self.expanded_key@,
                s@ == inv_cipher_rounds(w, input@, (9 - r) as nat),
            decreases r,
        {
            Self::inv_shift_rows(&mut s);
            self.inv_sub_bytes(&mut s);
            self.add_round_key(&mut s, r);
            Self::inv_mix_columns(&mut s);
            r -= 1;
        }
        Self::inv_shift_rows(&mut s);
        self.inv_sub_bytes(&mut s);
        self.add_round_key(&mut s, 0);
        *output = s;
    }
}


/// The inverse S-box undoes the S-box.
pub proof fn lemma_inv_sbox(b: u8)
    ensures
        INV_SBOX[SBOX[b as int] as int] == b,
{
    if b == 0 {
        assert(INV_SBOX[SBOX[0] as int] == 0);
    } else if b == 1 {
        assert(INV_SBOX[SBOX[1] as int] == 1);
    } else if b == 2 {
        assert(INV_SBOX[SBOX[2] as int] == 2);
    } else if b == 3 {
        assert(INV_SBOX[SBOX[3] as int] == 3);
    } else if b == 4 {
        assert(INV_SBOX[SBOX[4] as int] == 4);
    } else if b == 5 {
        assert(INV_SBOX[SBOX[5] as int] == 5);
    } else if b == 6 {
        assert(INV_SBOX[SBOX[6] as int] == 6);
    } else if b == 7 {
        assert(INV_SBOX[SBOX[7] as int] == 7);
    } else if b == 8 {
        assert(INV_SBOX[SBOX[8] as int] == 8);
    } else if b == 9 {
        assert(INV_SBOX[SBOX[9] as int] == 9);
    } else if b == 10 {
        assert(INV_SBOX[SBOX[10] as int] == 10);
    } else if b == 11 {
        assert(INV_SBOX[SBOX[11] as int] == 11);
    } else if b == 12 {
        assert(INV_SBOX[SBOX[12] as int] == 12);
    } else if b == 13 {
        assert(INV_SBOX[SBOX[13] as int] == 13);
    } else if b == 14 {
        assert(INV_SBOX[SBOX[14] as int] == 14);
    } else if b == 15 {
        assert(INV_SBOX[SBOX[15] as int] == 15);
    } else if b == 16 {
        assert(INV_SBOX[SBOX[16] as int] == 16);
    } else if b == 17 {
        assert(INV_SBOX[SBOX[17] as int] == 17);
    } else if b == 18 {
        assert(INV_SBOX[SBOX[18] as int] == 18);
    } else if b == 19 {
        assert(INV_SBOX[SBOX[19] as int] == 19);
    } else if b == 20 {
        assert(INV_SBOX[SBOX[20] as int] == 20);
    } else if b == 21 {
        assert(INV_SBOX[SBOX[21] as int] == 21);
    } else if b == 22 {
        assert(INV_SBOX[SBOX[22] as int] == 22);
    } else if b == 23 {
        assert(INV_SBOX[SBOX[23] as int] == 23);
    } else if b == 24 {
        assert(INV_SBOX[SBOX[24] as int] == 24);
    } else if b == 25 {
        assert(INV_SBOX[SBOX[25] as int] == 25);
    } else if b == 26 {
        assert(INV_SBOX[SBOX[26] as int] == 26);
    } else if b == 27 {
        assert(INV_SBOX[SBOX[27] as int] == 27);
    } else if b == 28 {
        assert(INV_SBOX[SBOX[28] as int] == 28);
    } else if b == 29 {
        assert(INV_SBOX[SBOX[29] as int] == 29);
    } else if b == 30 {
        assert(INV_SBOX[SBOX[30] as int] == 30);
    } else if b == 31 {
        assert(INV_SBOX[SBOX[31] as int] == 31);
    } else if b == 32 {
        assert(INV_SBOX[SBOX[32] as int] == 32);
    } else if b == 33 {
        assert(INV_SBOX[SBOX[33] as int] == 33);
    } else if b == 34 {
        assert(INV_SBOX[SBOX[34] as int] == 34);
    } else if b == 35 {
        assert(INV_SBOX[SBOX[35] as int] == 35);
    } else if b == 36 {
        assert(INV_SBOX[SBOX[36] as int] == 36);
    } else if b == 37 {
        assert(INV_SBOX[SBOX[37] as int] == 37);
    } else if b == 38 {
        assert(INV_SBOX[SBOX[38] as int] == 38);
    } else if b == 39 {
        assert(INV_SBOX[SBOX[39] as int] == 39);
    } else if b == 40 {
        assert(INV_SBOX[SBOX[40] as int] == 40);
    } else if b == 41 {
        assert(INV_SBOX[SBOX[41] as int] == 41);
    } else if b == 42 {
        assert(INV_SBOX[SBOX[42] as int] == 42);
    } else if b == 43 {
        assert(INV_SBOX[SBOX[43] as int] == 43);
    } else if b == 44 {
        assert(INV_SBOX[SBOX[44] as int] == 44);
    } else if b == 45 {
        assert(INV_SBOX[SBOX[45] as int] == 45);
    } else if b == 46 {
        assert(INV_SBOX[SBOX[46] as int] == 46);
    } else if b == 47 {
        assert(INV_SBOX[SBOX[47] as int] == 47);
    } else if b == 48 {
        assert(INV_SBOX[SBOX[48] as int] == 48);
    } else if b == 49 {
        assert(INV_SBOX[SBOX[49] as int] == 49);
    } else if b == 50 {
        assert(INV_SBOX[SBOX[50] as int] == 50);
    } else if b == 51 {
        assert(INV_SBOX[SBOX[51] as int] == 51);
    } else if b == 52 {
        assert(INV_SBOX[SBOX[52] as int] == 52);
    } else if b == 53 {
        assert(INV_SBOX[SBOX[53] as int] == 53);
    } else if b == 54 {
        assert(INV_SBOX[SBOX[54] as int] == 54);
    } else if b == 55 {
        assert(INV_SBOX[SBOX[55] as int] == 55);
    } else if b == 56 {
        assert(INV_SBOX[SBOX[56] as int] == 56);
    } else if b == 57 {
        assert(INV_SBOX[SBOX[57] as int] == 57);
    } else if b == 58 {
        assert(INV_SBOX[SBOX[58] as int] == 58);
    } else if b == 59 {
        assert(INV_SBOX[SBOX[59] as int] == 59);
    } else if b == 60 {
        assert(INV_SBOX[SBOX[60] as int] == 60);
    } else if b == 61 {
        assert(INV_SBOX[SBOX[61] as int] == 61);
    } else if b == 62 {
        assert(INV_SBOX[SBOX[62] as int] == 62);
    } else if b == 63 {
        assert(INV_SBOX[SBOX[63] as int] == 63);
    } else if b == 64 {
        assert(INV_SBOX[SBOX[64] as int] == 64);
    } else if b == 65 {
        assert(INV_SBOX[SBOX[65] as int] == 65);
    } else if b == 66 {
        assert(INV_SBOX[SBOX[66] as int] == 66);
    } else if b == 67 {
        assert(INV_SBOX[SBOX[67] as int] == 67);
    } else if b == 68 {
        assert(INV_SBOX[SBOX[68] as int] == 68);
    } else if b == 69 {
        assert(INV_SBOX[SBOX[69] as int] == 69);
    } else if b == 70 {
        assert(INV_SBOX[SBOX[70] as int] == 70);
    } else if b == 71 {
        assert(INV_SBOX[SBOX[71] as int] == 71);
    } else if b == 72 {
        assert(INV_SBOX[SBOX[72] as int] == 72);
    } else if b == 73 {
        assert(INV_SBOX[SBOX[73] as int] == 73);
    } else if b == 74 {
        assert(INV_SBOX[SBOX[74] as int] == 74);
    } else if b == 75 {
        assert(INV_SBOX[SBOX[75] as int] == 75);
    } else if b == 76 {
        assert(INV_SBOX[SBOX[76] as int] == 76);
    } else if b == 77 {
        assert(INV_SBOX[SBOX[77] as int] == 77);
    } else if b == 78 {
        assert(INV_SBOX[SBOX[78] as int] == 78);
    } else if b == 79 {
        assert(INV_SBOX[SBOX[79] as int] == 79);
    } else if b == 80 {
        assert(INV_SBOX[SBOX[80] as int] == 80);
    } else if b == 81 {
        assert(INV_SBOX[SBOX[81] as int] == 81);
    } else if b == 82 {
        assert(INV_SBOX[SBOX[82] as int] == 82);
    } else if b == 83 {
        assert(INV_SBOX[SBOX[83] as int] == 83);
    } else if b == 84 {
        assert(INV_SBOX[SBOX[84] as int] == 84);
    } else if b == 85 {
        assert(INV_SBOX[SBOX[85] as int] == 85);
    } else if b == 86 {
        assert(INV_SBOX[SBOX[86] as int] == 86);
    } else if b == 87 {
        assert(INV_SBOX[SBOX[87] as int] == 87);
    } else if b == 88 {
        assert(INV_SBOX[SBOX[88] as int] == 88);
    } else if b == 89 {
        assert(INV_SBOX[SBOX[89] as int] == 89);
    } else if b == 90 {
        assert(INV_SBOX[SBOX[90] as int] == 90);
    } else if b == 91 {
        assert(INV_SBOX[SBOX[91] as int] == 91);
    } else if b == 92 {
        assert(INV_SBOX[SBOX[92] as int] == 92);
    } else if b == 93 {
        assert(INV_SBOX[SBOX[93] as int] == 93);
    } else if b == 94 {
        assert(INV_SBOX[SBOX[94] as int] == 94);
    } else if b == 95 {
        assert(INV_SBOX[SBOX[95] as int] == 95);
    } else if b == 96 {
        assert(INV_SBOX[SBOX[96] as int] == 96);
    } else if b == 97 {
        assert(INV_SBOX[SBOX[97] as int] == 97);
    } else if b == 98 {
        assert(INV_SBOX[SBOX[98] as int] == 98);
    } else if b == 99 {
        assert(INV_SBOX[SBOX[99] as int] == 99);
    } else if b == 100 {
        assert(INV_SBOX[SBOX[100] as int] == 100);
    } else if b == 101 {
        assert(INV_SBOX[SBOX[101] as int] == 101);
    } else if b == 102 {
        assert(INV_SBOX[SBOX[102] as int] == 102);
    } else if b == 103 {
        assert(INV_SBOX[SBOX[103] as int] == 103);
    } else if b == 104 {
        assert(INV_SBOX[SBOX[104] as int] == 104);
    } else if b == 105 {
        assert(INV_SBOX[SBOX[105] as int] == 105);
    } else if b == 106 {
        assert(INV_SBOX[SBOX[106] as int] == 106);
    } else if b == 107 {
        assert(INV_SBOX[SBOX[107] as int] == 107);
    } else if b == 108 {
        assert(INV_SBOX[SBOX[108] as int] == 108);
    } else if b == 109 {
        assert(INV_SBOX[SBOX[109] as int] == 109);
    } else if b == 110 {
        assert(INV_SBOX[SBOX[110] as int] == 110);
    } else if b == 111 {
        assert(INV_SBOX[SBOX[111] as int] == 111);
    } else if b == 112 {
        assert(INV_SBOX[SBOX[112] as int] == 112);
    } else if b == 113 {
        assert(INV_SBOX[SBOX[113] as int] == 113);
    } else if b == 114 {
        assert(INV_SBOX[SBOX[114] as int] == 114);
    } else if b == 115 {
        assert(INV_SBOX[SBOX[115] as int] == 115);
    } else if b == 116 {
        assert(INV_SBOX[SBOX[116] as int] == 116);
    } else if b == 117 {
        assert(INV_SBOX[SBOX[117] as int] == 117);
    } else if b == 118 {
        assert(INV_SBOX[SBOX[118] as int] == 118);
    } else if b == 119 {
        assert(INV_SBOX[SBOX[119] as int] == 119);
    } else if b == 120 {
        assert(INV_SBOX[SBOX[120] as int] == 120);
    } else if b == 121 {
        assert(INV_SBOX[SBOX[121] as int] == 121);
    } else if b == 122 {
        assert(INV_SBOX[SBOX[122] as int] == 122);
    } else if b == 123 {
        assert(INV_SBOX[SBOX[123] as int] == 123);
    } else if b == 124 {
        assert(INV_SBOX[SBOX[124] as int] == 124);
    } else if b == 125 {
        assert(INV_SBOX[SBOX[125] as int] == 125);
    } else if b == 126 {
        assert(INV_SBOX[SBOX[126] as int] == 126);
    } else if b == 127 {
        assert(INV_SBOX[SBOX[127] as int] == 127);
    } else if b == 128 {
        assert(INV_SBOX[SBOX[128] as int] == 128);
    } else if b == 129 {
        assert(INV_SBOX[SBOX[129] as int] == 129);
    } else if b == 130 {
        assert(INV_SBOX[SBOX[130] as int] == 130);
    } else if b == 131 {
        assert(INV_SBOX[SBOX[131] as int] == 131);
    } else if b == 132 {
        assert(INV_SBOX[SBOX[132] as int] == 132);
    } else if b == 133 {
        assert(INV_SBOX[SBOX[133] as int] == 133);
    } else if b == 134 {
        assert(INV_SBOX[SBOX[134] as int] == 134);
    } else if b == 135 {
        assert(INV_SBOX[SBOX[135] as int] == 135);
    } else if b == 136 {
        assert(INV_SBOX[SBOX[136] as int] == 136);
    } else if b == 137 {
        assert(INV_SBOX[SBOX[137] as int] == 137);
    } else if b == 138 {
        assert(INV_SBOX[SBOX[138] as int] == 138);
    } else if b == 139 {
        assert(INV_SBOX[SBOX[139] as int] == 139);
    } else if b == 140 {
        assert(INV_SBOX[SBOX[140] as int] == 140);
    } else if b == 141 {
        assert(INV_SBOX[SBOX[141] as int] == 141);
    } else if b == 142 {
        assert(INV_SBOX[SBOX[142] as int] == 142);
    } else if b == 143 {
        assert(INV_SBOX[SBOX[143] as int] == 143);
    } else if b == 144 {
        assert(INV_SBOX[SBOX[144] as int] == 144);
    } else if b == 145 {
        assert(INV_SBOX[SBOX[145] as int] == 145);
    } else if b == 146 {
        assert(INV_SBOX[SBOX[146] as int] == 146);
    } else if b == 147 {
        assert(INV_SBOX[SBOX[147] as int] == 147);
    } else if b == 148 {
        assert(INV_SBOX[SBOX[148] as int] == 148);
    } else if b == 149 {
        assert(INV_SBOX[SBOX[149] as int] == 149);
    } else if b == 150 {
        assert(INV_SBOX[SBOX[150] as int] == 150);
    } else if b == 151 {
        assert(INV_SBOX[SBOX[151] as int] == 151);
    } else if b == 152 {
        assert(INV_SBOX[SBOX[152] as int] == 152);
    } else if b == 153 {
        assert(INV_SBOX[SBOX[153] as int] == 153);
    } else if b == 154 {
        assert(INV_SBOX[SBOX[154] as int] == 154);
    } else if b == 155 {
        assert(INV_SBOX[SBOX[155] as int] == 155);
    } else if b == 156 {
        assert(INV_SBOX[SBOX[156] as int] == 156);
    } else if b == 157 {
        assert(INV_SBOX[SBOX[157] as int] == 157);
    } else if b == 158 {
        assert(INV_SBOX[SBOX[158] as int] == 158);
    } else if b == 159 {
        assert(INV_SBOX[SBOX[159] as int] == 159);
    } else if b == 160 {
        assert(INV_SBOX[SBOX[160] as int] == 160);
    } else if b == 161 {
        assert(INV_SBOX[SBOX[161] as int] == 161);
    } else if b == 162 {
        assert(INV_SBOX[SBOX[162] as int] == 162);
    } else if b == 163 {
        assert(INV_SBOX[SBOX[163] as int] == 163);
    } else if b == 164 {
        assert(INV_SBOX[SBOX[164] as int] == 164);
    } else if b == 165 {
        assert(INV_SBOX[SBOX[165] as int] == 165);
    } else if b == 166 {
        assert(INV_SBOX[SBOX[166] as int] == 166);
    } else if b == 167 {
        assert(INV_SBOX[SBOX[167] as int] == 167);
    } else if b == 168 {
        assert(INV_SBOX[SBOX[168] as int] == 168);
    } else if b == 169 {
        assert(INV_SBOX[SBOX[169] as int] == 169);
    } else if b == 170 {
        assert(INV_SBOX[SBOX[170] as int] == 170);
    } else if b == 171 {
        assert(INV_SBOX[SBOX[171] as int] == 171);
    } else if b == 172 {
        assert(INV_SBOX[SBOX[172] as int] == 172);
    } else if b == 173 {
        assert(INV_SBOX[SBOX[173] as int] == 173);
    } else if b == 174 {
        assert(INV_SBOX[SBOX[174] as int] == 174);
    } else if b == 175 {
        assert(INV_SBOX[SBOX[175] as int] == 175);
    } else if b == 176 {
        assert(INV_SBOX[SBOX[176] as int] == 176);
    } else if b == 177 {
        assert(INV_SBOX[SBOX[177] as int] == 177);
    } else if b == 178 {
        assert(INV_SBOX[SBOX[178] as int] == 178);
    } else if b == 179 {
        assert(INV_SBOX[SBOX[179] as int] == 179);
    } else if b == 180 {
        assert(INV_SBOX[SBOX[180] as int] == 180);
    } else if b == 181 {
        assert(INV_SBOX[SBOX[181] as int] == 181);
    } else if b == 182 {
        assert(INV_SBOX[SBOX[182] as int] == 182);
    } else if b == 183 {
        assert(INV_SBOX[SBOX[183] as int] == 183);
    } else if b == 184 {
        assert(INV_SBOX[SBOX[184] as int] == 184);
    } else if b == 185 {
        assert(INV_SBOX[SBOX[185] as int] == 185);
    } else if b == 186 {
        assert(INV_SBOX[SBOX[186] as int] == 186);
    } else if b == 187 {
        assert(INV_SBOX[SBOX[187] as int] == 187);
    } else if b == 188 {
        assert(INV_SBOX[SBOX[188] as int] == 188);
    } else if b == 189 {
        assert(INV_SBOX[SBOX[189] as int] == 189);
    } else if b == 190 {
        assert(INV_SBOX[SBOX[190] as int] == 190);
    } else if b == 191 {
        assert(INV_SBOX[SBOX[191] as int] == 191);
    } else if b == 192 {
        assert(INV_SBOX[SBOX[192] as int] == 192);
    } else if b == 193 {
        assert(INV_SBOX[SBOX[193] as int] == 193);
    } else if b == 194 {
        assert(INV_SBOX[SBOX[194] as int] == 194);
    } else if b == 195 {
        assert(INV_SBOX[SBOX[195] as int] == 195);
    } else if b == 196 {
        assert(INV_SBOX[SBOX[196] as int] == 196);
    } else if b == 197 {
        assert(INV_SBOX[SBOX[197] as int] == 197);
    } else if b == 198 {
        assert(INV_SBOX[SBOX[198] as int] == 198);
    } else if b == 199 {
        assert(INV_SBOX[SBOX[199] as int] == 199);
    } else if b == 200 {
        assert(INV_SBOX[SBOX[200] as int] == 200);
    } else if b == 201 {
        assert(INV_SBOX[SBOX[201] as int] == 201);
    } else if b == 202 {
        assert(INV_SBOX[SBOX[202] as int] == 202);
    } else if b == 203 {
        assert(INV_SBOX[SBOX[203] as int] == 203);
    } else if b == 204 {
        assert(INV_SBOX[SBOX[204] as int] == 204);
    } else if b == 205 {
        assert(INV_SBOX[SBOX[205] as int] == 205);
    } else if b == 206 {
        assert(INV_SBOX[SBOX[206] as int] == 206);
    } else if b == 207 {
        assert(INV_SBOX[SBOX[207] as int] == 207);
    } else if b == 208 {
        assert(INV_SBOX[SBOX[208] as int] == 208);
    } else if b == 209 {
        assert(INV_SBOX[SBOX[209] as int] == 209);
    } else if b == 210 {
        assert(INV_SBOX[SBOX[210] as int] == 210);
    } else if b == 211 {
        assert(INV_SBOX[SBOX[211] as int] == 211);
    } else if b == 212 {
        assert(INV_SBOX[SBOX[212] as int] == 212);
    } else if b == 213 {
        assert(INV_SBOX[SBOX[213] as int] == 213);
    } else if b == 214 {
        assert(INV_SBOX[SBOX[214] as int] == 214);
    } else if b == 215 {
        assert(INV_SBOX[SBOX[215] as int] == 215);
    } else if b == 216 {
        assert(INV_SBOX[SBOX[216] as int] == 216);
    } else if b == 217 {
        assert(INV_SBOX[SBOX[217] as int] == 217);
    } else if b == 218 {
        assert(INV_SBOX[SBOX[218] as int] == 218);
    } else if b == 219 {
        assert(INV_SBOX[SBOX[219] as int] == 219);
    } else if b == 220 {
        assert(INV_SBOX[SBOX[220] as int] == 220);
    } else if b == 221 {
        assert(INV_SBOX[SBOX[221] as int] == 221);
    } else if b == 222 {
        assert(INV_SBOX[SBOX[222] as int] == 222);
    } else if b == 223 {
        assert(INV_SBOX[SBOX[223] as int] == 223);
    } else if b == 224 {
        assert(INV_SBOX[SBOX[224] as int] == 224);
    } else if b == 225 {
        assert(INV_SBOX[SBOX[225] as int] == 225);
    } else if b == 226 {
        assert(INV_SBOX[SBOX[226] as int] == 226);
    } else if b == 227 {
        assert(INV_SBOX[SBOX[227] as int] == 227);
    } else if b == 228 {
        assert(INV_SBOX[SBOX[228] as int] == 228);
    } else if b == 229 {
        assert(INV_SBOX[SBOX[229] as int] == 229);
    } else if b == 230 {
        assert(INV_SBOX[SBOX[230] as int] == 230);
    } else if b == 231 {
        assert(INV_SBOX[SBOX[231] as int] == 231);
    } else if b == 232 {
        assert(INV_SBOX[SBOX[232] as int] == 232);
    } else if b == 233 {
        assert(INV_SBOX[SBOX[233] as int] == 233);
    } else if b == 234 {
        assert(INV_SBOX[SBOX[234] as int] == 234);
    } else if b == 235 {
        assert(INV_SBOX[SBOX[235] as int] == 235);
    } else if b == 236 {
        assert(INV_SBOX[SBOX[236] as int] == 236);
    } else if b == 237 {
        assert(INV_SBOX[SBOX[237] as int] == 237);
    } else if b == 238 {
        assert(INV_SBOX[SBOX[238] as int] == 238);
    } else if b == 239 {
        assert(INV_SBOX[SBOX[239] as int] == 239);
    } else if b == 240 {
        assert(INV_SBOX[SBOX[240] as int] == 240);
    } else if b == 241 {
        assert(INV_SBOX[SBOX[241] as int] == 241);
    } else if b == 242 {
        assert(INV_SBOX[SBOX[242] as int] == 242);
    } else if b == 243 {
        assert(INV_SBOX[SBOX[243] as int] == 243);
    } else if b == 244 {
        assert(INV_SBOX[SBOX[244] as int] == 244);
    } else if b == 245 {
        assert(INV_SBOX[SBOX[245] as int] == 245);
    } else if b == 246 {
        assert(INV_SBOX[SBOX[246] as int] == 246);
    } else if b == 247 {
        assert(INV_SBOX[SBOX[247] as int] == 247);
    } else if b == 248 {
        assert(INV_SBOX[SBOX[248] as int] == 248);
    } else if b == 249 {
        assert(INV_SBOX[SBOX[249] as int] == 249);
    } else if b == 250 {
        assert(INV_SBOX[SBOX[250] as int] == 250);
    } else if b == 251 {
        assert(INV_SBOX[SBOX[251] as int] == 251);
    } else if b == 252 {
        assert(INV_SBOX[SBOX[252] as int] == 252);
    } else if b == 253 {
        assert(INV_SBOX[SBOX[253] as int] == 253);
    } else if b == 254 {
        assert(INV_SBOX[SBOX[254] as int] == 254);
    } else if b == 255 {
        assert(INV_SBOX[SBOX[255] as int] == 255);
    }
}


// ---------------------------------------------------------------------------
// Decryption inverts encryption
// ---------------------------------------------------------------------------

/// Multiplication by x is linear.
proof fn lemma_xtime_xor(x: u8, y: u8)
    ensures
        xtime(x ^ y) == xtime(x) ^ xtime(y),
{
    assert(xtime(x ^ y) == xtime(x) ^ xtime(y)) by (bit_vector);
}

/// Regrouping two XORed pairs.
proof fn lemma_xor_swap(p1: u8, p2: u8, x: u8, y: u8)
    ensures
        (p1 ^ p2) ^ (x ^ y) == (p1 ^ x) ^ (p2 ^ y),
        0u8 ^ 0u8 == 0u8,
{
    assert((p1 ^ p2) ^ (x ^ y) == (p1 ^ x) ^ (p2 ^ y) && 0u8 ^ 0u8 == 0u8) by (bit_vector);
}

/// Shift-and-add multiplication is linear in the multiplicand and the
/// accumulator.
proof fn lemma_steps_linear(x: u8, y: u8, b: u8, p1: u8, p2: u8, n: nat)
    ensures
        gf_mul_steps(x ^ y, b, p1 ^ p2, n) == gf_mul_steps(x, b, p1, n) ^ gf_mul_steps(y, b, p2, n),
    decreases n,
{
    if n > 0 {
        lemma_xtime_xor(x, y);
        lemma_xor_swap(p1, p2, x, y);
        if b & 1u8 != 0 {
            lemma_steps_linear(xtime(x), xtime(y), b >> 1u8, p1 ^ x, p2 ^ y, (n - 1) as nat);
        } else {
            lemma_steps_linear(xtime(x), xtime(y), b >> 1u8, p1, p2, (n - 1) as nat);
        }
    }
}

/// Multiplication by a constant distributes over XOR.
proof fn lemma_gf_distrib(x: u8, y: u8, c: u8)
    ensures
        gf_mul(x ^ y, c) == gf_mul(x, c) ^ gf_mul(y, c),
{
    lemma_xor_swap(0, 0, x, y);
    lemma_steps_linear(x, y, c, 0, 0, 8);
}

/// `gf_mul` by `c` of a four-term XOR, term by term.
proof fn lemma_gf_distrib4(p: u8, q: u8, r: u8, t: u8, c: u8)
    ensures
        gf_mul(((p ^ q) ^ r) ^ t, c) == ((gf_mul(p, c) ^ gf_mul(q, c)) ^ gf_mul(r, c)) ^ gf_mul(t, c),
{
    lemma_gf_distrib((p ^ q) ^ r, t, c);
    lemma_gf_distrib(p ^ q, r, c);
    lemma_gf_distrib(p, q, c);
}


/// What input byte `j` contributes to row 0 of InvMixColumns after
/// MixColumns: itself for row 0, nothing otherwise.
proof fn lemma_mix_contrib_0(a: u8)
    ensures
        ((gf_mul(gf_mul(a, 2), 14) ^ gf_mul(a, 11)) ^ gf_mul(a, 13)) ^ gf_mul(gf_mul(a, 3), 9) == a,
        ((gf_mul(gf_mul(a, 3), 14) ^ gf_mul(gf_mul(a, 2), 11)) ^ gf_mul(a, 13)) ^ gf_mul(a, 9) == 0u8,
        ((gf_mul(a, 14) ^ gf_mul(gf_mul(a, 3), 11)) ^ gf_mul(gf_mul(a, 2), 13)) ^ gf_mul(a, 9) == 0u8,
        ((gf_mul(a, 14) ^ gf_mul(a, 11)) ^ gf_mul(gf_mul(a, 3), 13)) ^ gf_mul(gf_mul(a, 2), 9) == 0u8,
{
    assert((((gf_mul(gf_mul(a, 2), 14) ^ gf_mul(a, 11)) ^ gf_mul(a, 13)) ^ gf_mul(gf_mul(a, 3), 9) == a) && (((gf_mul(gf_mul(a, 3), 14) ^ gf_mul(gf_mul(a, 2), 11)) ^ gf_mul(a, 13)) ^ gf_mul(a, 9) == 0u8) && (((gf_mul(a, 14) ^ gf_mul(gf_mul(a, 3), 11)) ^ gf_mul(gf_mul(a, 2), 13)) ^ gf_mul(a, 9) == 0u8) && (((gf_mul(a, 14) ^ gf_mul(a, 11)) ^ gf_mul(gf_mul(a, 3), 13)) ^ gf_mul(gf_mul(a, 2), 9) == 0u8)) by (bit_vector);
}


/// What input byte `j` contributes to row 1 of InvMixColumns after
/// MixColumns: itself for row 1, nothing otherwise.
proof fn lemma_mix_contrib_1(a: u8)
    ensures
        ((gf_mul(gf_mul(a, 2), 9) ^ gf_mul(a, 14)) ^ gf_mul(a, 11)) ^ gf_mul(gf_mul(a, 3), 13) == 0u8,
        ((gf_mul(gf_mul(a, 3), 9) ^ gf_mul(gf_mul(a, 2), 14)) ^ gf_mul(a, 11)) ^ gf_mul(a, 13) == a,
        ((gf_mul(a, 9) ^ gf_mul(gf_mul(a, 3), 14)) ^ gf_mul(gf_mul(a, 2), 11)) ^ gf_mul(a, 13) == 0u8,
        ((gf_mul(a, 9) ^ gf_mul(a, 14)) ^ gf_mul(gf_mul(a, 3), 11)) ^ gf_mul(gf_mul(a, 2), 13) == 0u8,
{
    assert((((gf_mul(gf_mul(a, 2), 9) ^ gf_mul(a, 14)) ^ gf_mul(a, 11)) ^ gf_mul(gf_mul(a, 3), 13) == 0u8) && (((gf_mul(gf_mul(a, 3), 9) ^ gf_mul(gf_mul(a, 2), 14)) ^ gf_mul(a, 11)) ^ gf_mul(a, 13) == a) && (((gf_mul(a, 9) ^ gf_mul(gf_mul(a, 3), 14)) ^ gf_mul(gf_mul(a, 2), 11)) ^ gf_mul(a, 13) == 0u8) && (((gf_mul(a, 9) ^ gf_mul(a, 14)) ^ gf_mul(gf_mul(a, 3), 11)) ^ gf_mul(gf_mul(a, 2), 13) == 0u8)) by (bit_vector);
}


/// What input byte `j` contributes to row 2 of InvMixColumns after
/// MixColumns: itself for row 2, nothing otherwise.
proof fn lemma_mix_contrib_2(a: u8)
    ensures
        ((gf_mul(gf_mul(a, 2), 13) ^ gf_mul(a, 9)) ^ gf_mul(a, 14)) ^ gf_mul(gf_mul(a, 3), 11) == 0u8,
        ((gf_mul(gf_mul(a, 3), 13) ^ gf_mul(gf_mul(a, 2), 9)) ^ gf_mul(a, 14)) ^ gf_mul(a, 11) == 0u8,
        ((gf_mul(a, 13) ^ gf_mul(gf_mul(a, 3), 9)) ^ gf_mul(gf_mul(a, 2), 14)) ^ gf_mul(a, 11) == a,
        ((gf_mul(a, 13) ^ gf_mul(a, 9)) ^ gf_mul(gf_mul(a, 3), 14)) ^ gf_mul(gf_mul(a, 2), 11) == 0u8,
{
    assert((((gf_mul(gf_mul(a, 2), 13) ^ gf_mul(a, 9)) ^ gf_mul(a, 14)) ^ gf_mul(gf_mul(a, 3), 11) == 0u8) && (((gf_mul(gf_mul(a, 3), 13) ^ gf_mul(gf_mul(a, 2), 9)) ^ gf_mul(a, 14)) ^ gf_mul(a, 11) == 0u8) && (((gf_mul(a, 13) ^ gf_mul(gf_mul(a, 3), 9)) ^ gf_mul(gf_mul(a, 2), 14)) ^ gf_mul(a, 11) == a) && (((gf_mul(a, 13) ^ gf_mul(a, 9)) ^ gf_mul(gf_mul(a, 3), 14)) ^ gf_mul(gf_mul(a, 2), 11) == 0u8)) by (bit_vector);
}


/// What input byte `j` contributes to row 3 of InvMixColumns after
/// MixColumns: itself for row 3, nothing otherwise.
proof fn lemma_mix_contrib_3(a: u8)
    ensures
        ((gf_mul(gf_mul(a, 2), 11) ^ gf_mul(a, 13)) ^ gf_mul(a, 9)) ^ gf_mul(gf_mul(a, 3), 14) == 0u8,
        ((gf_mul(gf_mul(a, 3), 11) ^ gf_mul(gf_mul(a, 2), 13)) ^ gf_mul(a, 9)) ^ gf_mul(a, 14) == 0u8,
        ((gf_mul(a, 11) ^ gf_mul(gf_mul(a, 3), 13)) ^ gf_mul(gf_mul(a, 2), 9)) ^ gf_mul(a, 14) == 0u8,
        ((gf_mul(a, 11) ^ gf_mul(a, 13)) ^ gf_mul(gf_mul(a, 3), 9)) ^ gf_mul(gf_mul(a, 2), 14) == a,
{
    assert((((gf_mul(gf_mul(a, 2), 11) ^ gf_mul(a, 13)) ^ gf_mul(a, 9)) ^ gf_mul(gf_mul(a, 3), 14) == 0u8) && (((gf_mul(gf_mul(a, 3), 11) ^ gf_mul(gf_mul(a, 2), 13)) ^ gf_mul(a, 9)) ^ gf_mul(a, 14) == 0u8) && (((gf_mul(a, 11) ^ gf_mul(gf_mul(a, 3), 13)) ^ gf_mul(gf_mul(a, 2), 9)) ^ gf_mul(a, 14) == 0u8) && (((gf_mul(a, 11) ^ gf_mul(a, 13)) ^ gf_mul(gf_mul(a, 3), 9)) ^ gf_mul(gf_mul(a, 2), 14) == a)) by (bit_vector);
}


/// A 4x4 grid of bytes XORs to the same value row by row as column by column.
proof fn lemma_xor_transpose(t00: u8, t01: u8, t02: u8, t03: u8, t10: u8, t11: u8, t12: u8, t13: u8, t20: u8, t21: u8, t22: u8, t23: u8, t30: u8, t31: u8, t32: u8, t33: u8)
    ensures
        (((((t00 ^ t01) ^ t02) ^ t03) ^ (((t10 ^ t11) ^ t12) ^ t13)) ^ (((t20 ^ t21) ^ t22) ^ t23)) ^ (((t30 ^ t31) ^ t32) ^ t33) == (((((t00 ^ t10) ^ t20) ^ t30) ^ (((t01 ^ t11) ^ t21) ^ t31)) ^ (((t02 ^ t12) ^ t22) ^ t32)) ^ (((t03 ^ t13) ^ t23) ^ t33),
{
    assert((((((t00 ^ t01) ^ t02) ^ t03) ^ (((t10 ^ t11) ^ t12) ^ t13)) ^ (((t20 ^ t21) ^ t22) ^ t23)) ^ (((t30 ^ t31) ^ t32) ^ t33) == (((((t00 ^ t10) ^ t20) ^ t30) ^ (((t01 ^ t11) ^ t21) ^ t31)) ^ (((t02 ^ t12) ^ t22) ^ t32)) ^ (((t03 ^ t13) ^ t23) ^ t33)) by (bit_vector);
}


/// XOR with zeros around one byte gives that byte.
proof fn lemma_xor_zeros(a: u8)
    ensures
        ((a ^ 0u8) ^ 0u8) ^ 0u8 == a,
        ((0u8 ^ a) ^ 0u8) ^ 0u8 == a,
        ((0u8 ^ 0u8) ^ a) ^ 0u8 == a,
        ((0u8 ^ 0u8) ^ 0u8) ^ a == a,
{
    assert(((a ^ 0u8) ^ 0u8) ^ 0u8 == a && ((0u8 ^ a) ^ 0u8) ^ 0u8 == a && ((0u8 ^ 0u8) ^ a) ^ 0u8 == a
        && ((0u8 ^ 0u8) ^ 0u8) ^ a == a) by (bit_vector);
}


/// InvMixColumns undoes MixColumns on one column.
proof fn lemma_inv_mix_column(a0: u8, a1: u8, a2: u8, a3: u8, r: int)
    requires
        0 <= r < 4,
    ensures
        inv_mix_row(
            mix_row(a0, a1, a2, a3, 0),
            mix_row(a0, a1, a2, a3, 1),
            mix_row(a0, a1, a2, a3, 2),
            mix_row(a0, a1, a2, a3, 3),
            r,
        ) == if r == 0 {
            a0
        } else if r == 1 {
            a1
        } else if r == 2 {
            a2
        } else {
            a3
        },
{
    let b0 = mix_row(a0, a1, a2, a3, 0);
    let b1 = mix_row(a0, a1, a2, a3, 1);
    let b2 = mix_row(a0, a1, a2, a3, 2);
    let b3 = mix_row(a0, a1, a2, a3, 3);
    let ic: Seq<u8> = if r == 0 {
        seq![14u8, 11u8, 13u8, 9u8]
    } else if r == 1 {
        seq![9u8, 14u8, 11u8, 13u8]
    } else if r == 2 {
        seq![13u8, 9u8, 14u8, 11u8]
    } else {
        seq![11u8, 13u8, 9u8, 14u8]
    };
    lemma_gf_distrib4(gf_mul(a0, 2), gf_mul(a1, 3), a2, a3, ic[0]);
    lemma_gf_distrib4(a0, gf_mul(a1, 2), gf_mul(a2, 3), a3, ic[1]);
    lemma_gf_distrib4(a0, a1, gf_mul(a2, 2), gf_mul(a3, 3), ic[2]);
    lemma_gf_distrib4(gf_mul(a0, 3), a1, a2, gf_mul(a3, 2), ic[3]);
    lemma_xor_transpose(
        gf_mul(gf_mul(a0, 2), ic[0]), gf_mul(gf_mul(a1, 3), ic[0]), gf_mul(a2, ic[0]), gf_mul(a3, ic[0]),
        gf_mul(a0, ic[1]), gf_mul(gf_mul(a1, 2), ic[1]), gf_mul(gf_mul(a2, 3), ic[1]), gf_mul(a3, ic[1]),
        gf_mul(a0, ic[2]), gf_mul(a1, ic[2]), gf_mul(gf_mul(a2, 2), ic[2]), gf_mul(gf_mul(a3, 3), ic[2]),
        gf_mul(gf_mul(a0, 3), ic[3]), gf_mul(a1, ic[3]), gf_mul(a2, ic[3]), gf_mul(gf_mul(a3, 2), ic[3]),
    );
    if r == 0 {
        lemma_mix_contrib_0(a0);
        lemma_mix_contrib_0(a1);
        lemma_mix_contrib_0(a2);
        lemma_mix_contrib_0(a3);
    } else if r == 1 {
        lemma_mix_contrib_1(a0);
        lemma_mix_contrib_1(a1);
        lemma_mix_contrib_1(a2);
        lemma_mix_contrib_1(a3);
    } else if r == 2 {
        lemma_mix_contrib_2(a0);
        lemma_mix_contrib_2(a1);
        lemma_mix_contrib_2(a2);
        lemma_mix_contrib_2(a3);
    } else {
        lemma_mix_contrib_3(a0);
        lemma_mix_contrib_3(a1);
        lemma_mix_contrib_3(a2);
        lemma_mix_contrib_3(a3);
    }
    lemma_xor_zeros(a0);
    lemma_xor_zeros(a1);
    lemma_xor_zeros(a2);
    lemma_xor_zeros(a3);
}

/// InvMixColumns undoes MixColumns.
proof fn lemma_inv_mix_columns(s: Seq<u8>)
    requires
        s.len() == 16,
    ensures
        inv_mix_columns(mix_columns(s)) == s,
{
    let m = mix_columns(s);
    assert forall|i: int| 0 <= i < 16 implies #[trigger] inv_mix_columns(m)[i] == s[i] by {
        let c = i / 4;
        lemma_inv_mix_column(s[4 * c], s[4 * c + 1], s[4 * c + 2], s[4 * c + 3], i % 4);
        assert(m[4 * c] == mix_row(s[4 * c], s[4 * c + 1], s[4 * c + 2], s[4 * c + 3], 0));
        assert(m[4 * c + 1] == mix_row(s[4 * c], s[4 * c + 1], s[4 * c + 2], s[4 * c + 3], 1));
        assert(m[4 * c + 2] == mix_row(s[4 * c], s[4 * c + 1], s[4 * c + 2], s[4 * c + 3], 2));
        assert(m[4 * c + 3] == mix_row(s[4 * c], s[4 * c + 1], s[4 * c + 2], s[4 * c + 3], 3));
    }
    assert(inv_mix_columns(m) =~= s);
}

/// InvShiftRows undoes ShiftRows.
proof fn lemma_inv_shift_rows(s: Seq<u8>)
    requires
        s.len() == 16,
    ensures
        inv_shift_rows(shift_rows(s)) == s,
{
    assert(inv_shift_rows(shift_rows(s)) =~= s);
}

/// InvSubBytes undoes SubBytes.
proof fn lemma_inv_sub_bytes(s: Seq<u8>)
    requires
        s.len() == 16,
    ensures
        inv_sub_bytes(sub_bytes(s)) == s,
{
    assert forall|i: int| 0 <= i < 16 implies #[trigger] inv_sub_bytes(sub_bytes(s))[i] == s[i] by {
        lemma_inv_sbox(s[i]);
    }
    assert(inv_sub_bytes(sub_bytes(s)) =~= s);
}

/// Adding the same round key twice gives back the state.
proof fn lemma_ark_twice(s: Seq<u8>, w: Seq<u32>, rnd: int)
    requires
        s.len() == 16,
    ensures
        add_round_key(add_round_key(s, w, rnd), w, rnd) == s,
{
    assert forall|i: int| 0 <= i < 16 implies #[trigger] add_round_key(add_round_key(s, w, rnd), w, rnd)[i]
        == s[i] by {
        let x = s[i];
        let k = be_byte(w[4 * rnd + i / 4], i % 4);
        assert((x ^ k) ^ k == x) by (bit_vector);
    }
    assert(add_round_key(add_round_key(s, w, rnd), w, rnd) =~= s);
}

/// One inverse round undoes one full round: from the state after round `k`
/// with SubBytes and ShiftRows applied, it gives back the state before the
/// round's MixColumns.
proof fn lemma_inv_round_step(w: Seq<u32>, prev: Seq<u8>, st: Seq<u8>, k: int)
    requires
        prev.len() == 16,
        st == add_round_key(mix_columns(shift_rows(sub_bytes(prev))), w, k),
    ensures
        inv_mix_columns(add_round_key(inv_sub_bytes(inv_shift_rows(shift_rows(sub_bytes(st)))), w, k))
            == shift_rows(sub_bytes(prev)),
{
    let b = shift_rows(sub_bytes(prev));
    let c = mix_columns(b);
    lemma_inv_shift_rows(sub_bytes(st));
    lemma_inv_sub_bytes(st);
    lemma_ark_twice(c, w, k);
    lemma_inv_mix_columns(b);
}

/// After `n` inverse rounds on a ciphertext, the state is the encryption
/// state before round `10 - n` with SubBytes and ShiftRows applied.
#[verifier::spinoff_prover]
proof fn lemma_inv_rounds(w: Seq<u32>, x: Seq<u8>, n: nat)
    requires
        x.len() == 16,
        n <= 9,
    ensures
        inv_cipher_rounds(w, cipher(w, x), n) == shift_rows(sub_bytes(cipher_rounds(w, x, (9 - n) as nat))),
    decreases n,
{
    if n == 0 {
        lemma_ark_twice(shift_rows(sub_bytes(cipher_rounds(w, x, 9))), w, 10);
    } else {
        lemma_inv_rounds(w, x, (n - 1) as nat);
        let k = (10 - n) as nat;
        lemma_inv_round_step(w, cipher_rounds(w, x, (k - 1) as nat), cipher_rounds(w, x, k), k as int);
    }
}

/// AES-128 decryption inverts encryption under any key schedule.
pub proof fn lemma_inv_cipher_cipher(w: Seq<u32>, x: Seq<u8>)
    requires
        x.len() == 16,
    ensures
        inv_cipher(w, cipher(w, x)) == x,
{
    lemma_inv_rounds(w, x, 9);
    let s0 = cipher_rounds(w, x, 0);
    lemma_inv_shift_rows(sub_bytes(s0));
    lemma_inv_sub_bytes(s0);
    lemma_ark_twice(x, w, 0);
}

/// Law of the software engine: decrypting an encrypted block gives the block
/// back.
pub proof fn lemma_emulated_round_trip(e: AesEmulated, x: Seq<u8>)
    requires
        x.len() == 16,
    ensures
        e.block_dec(e.block_enc(x)) == x,
{
    lemma_inv_cipher_cipher(e.round_keys(), x);
}

} // verus!

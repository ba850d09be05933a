use umbra::hash::{
    sha256_known_answer, HashError, HASH_BASE_ADDR, HASH_CR_OFFSET, HASH_HR5_OFFSET, HASH_HR_OFFSET, HASH_SR_OFFSET,
    HASH_STR_OFFSET, SR_DCIS_MASK, SR_DINIS_MASK, STR_DCAL_BIT,
};
use umbra::mmio::{MmioMem, MmioOp};
use umbra::sha256::{Sha256, Sha256Engine};

fn last_write_to(log: &[MmioOp], want_addr: u32) -> Option<u32> {
    let mut found = None;
    for op in log {
        if let MmioOp::Write { addr, value } = *op {
            if addr == want_addr {
                found = Some(value);
            }
        }
    }
    found
}

fn count_writes_to(log: &[MmioOp], want_addr: u32) -> usize {
    log.iter().filter(|op| matches!(op, MmioOp::Write { addr, .. } if *addr == want_addr)).count()
}

fn ready_hash() -> umbra::hash::Hash<MmioMem> {
    let mut mem = MmioMem::new(HASH_BASE_ADDR);
    mem.preload_register(HASH_SR_OFFSET, SR_DINIS_MASK | SR_DCIS_MASK);
    umbra::hash::Hash::new_with_mmio(mem)
}

#[test]
fn hmac_sha256_writes_expected_cr_encoding() {
    let mut hash = ready_hash();
    let key = [0u8; 32];
    let data = [0u8; 16];
    let mut output = [0u8; 32];
    hash.hmac_sha256(&key, &data, &mut output).unwrap();

    let cr_addr = HASH_BASE_ADDR + HASH_CR_OFFSET;
    let cr_val = last_write_to(&hash.mmio().write_log(), cr_addr)
        .expect("hmac_sha256 must write CR at least once");
    assert_eq!((cr_val >> 17) & 0b11, 0b11, "CR.ALGO[1:0] must be 0b11 for SHA-256");
    assert_eq!((cr_val >> 6) & 1, 1, "CR.MODE must be set for HMAC");
    assert_eq!((cr_val >> 4) & 0b11, 0b10, "CR.DATATYPE must be 0b10 (byte-swap)");
    assert_eq!((cr_val >> 2) & 1, 1, "CR.INIT must be set");
}

#[test]
fn hmac_sha256_issues_three_dcal_triggers_in_order() {
    let mut hash = ready_hash();
    let key = [0u8; 32];
    let data = [0u8; 16];
    let mut output = [0u8; 32];
    hash.hmac_sha256(&key, &data, &mut output).unwrap();

    let str_addr = HASH_BASE_ADDR + HASH_STR_OFFSET;
    let log = hash.mmio().write_log();
    assert_eq!(count_writes_to(&log, str_addr), 6);
    let mut seen_str: usize = 0;
    for op in log.iter() {
        if let MmioOp::Write { addr, value } = *op {
            if addr != str_addr {
                continue;
            }
            let dcal_bit = (value >> STR_DCAL_BIT) & 1;
            if seen_str % 2 == 0 {
                assert_eq!(dcal_bit, 0, "STR write #{seen_str} should NOT have DCAL set yet");
            } else {
                assert_eq!(dcal_bit, 1, "STR write #{seen_str} should trigger DCAL");
            }
            seen_str += 1;
        }
    }
    assert_eq!(seen_str, 6, "expected to walk 6 STR writes");
}

#[test]
fn hmac_sha256_reads_hr5_hr6_hr7_from_split_bank() {
    let mut mem = MmioMem::new(HASH_BASE_ADDR);
    mem.preload_register(HASH_SR_OFFSET, SR_DINIS_MASK | SR_DCIS_MASK);
    for i in 0..5u32 {
        mem.preload_register(HASH_HR_OFFSET + i * 4, 0xAA00_0000 | i);
    }
    mem.preload_register(HASH_HR5_OFFSET + 0, 0xBB00_0005);
    mem.preload_register(HASH_HR5_OFFSET + 4, 0xBB00_0006);
    mem.preload_register(HASH_HR5_OFFSET + 8, 0xBB00_0007);

    let mut hash = umbra::hash::Hash::new_with_mmio(mem);
    let key = [0u8; 32];
    let data = [0u8; 16];
    let mut digest = [0u8; 32];
    hash.hmac_sha256(&key, &data, &mut digest).unwrap();

    for i in 0..5u32 {
        let want = (0xAA00_0000u32 | i).to_be_bytes();
        let start = (i as usize) * 4;
        assert_eq!(&digest[start..start + 4], &want, "HR{i} byte mismatch");
    }
    assert_eq!(&digest[20..24], &0xBB00_0005u32.to_be_bytes(), "HR5 (split bank @ 0x324)");
    assert_eq!(&digest[24..28], &0xBB00_0006u32.to_be_bytes(), "HR6 (split bank @ 0x328)");
    assert_eq!(&digest[28..32], &0xBB00_0007u32.to_be_bytes(), "HR7 (split bank @ 0x32C)");
}

#[test]
fn sha256_engine_empty_string_matches_fips180_vector() {
    let mut engine = Sha256Engine::new();
    engine.init().unwrap();
    let mut digest = [0u8; 32];
    engine.finalize(&mut digest).unwrap();
    let want: [u8; 32] = [
        0xe3, 0xb0, 0xc4, 0x42, 0x98, 0xfc, 0x1c, 0x14, 0x9a, 0xfb, 0xf4, 0xc8, 0x99, 0x6f, 0xb9,
        0x24, 0x27, 0xae, 0x41, 0xe4, 0x64, 0x9b, 0x93, 0x4c, 0xa4, 0x95, 0x99, 0x1b, 0x78, 0x52,
        0xb8, 0x55,
    ];
    assert_eq!(digest, want, "SW SHA-256 empty-string digest mismatch");
}

const ABC_DIGEST: [u8; 32] = [
    0xba, 0x78, 0x16, 0xbf, 0x8f, 0x01, 0xcf, 0xea, 0x41, 0x41, 0x40, 0xde, 0x5d, 0xae, 0x22, 0x23,
    0xb0, 0x03, 0x61, 0xa3, 0x96, 0x17, 0x7a, 0x9c, 0xb4, 0x10, 0xff, 0x61, 0xf2, 0x00, 0x15, 0xad,
];

#[test]
fn sha256_abc_matches_fips180_vector() {
    let mut h = Sha256::new();
    h.update(b"abc");
    let mut digest = [0u8; 32];
    h.finalize(&mut digest);
    assert_eq!(digest, ABC_DIGEST);
}

#[test]
fn sha256_streaming_equals_one_shot() {
    // Two-block FIPS-180 vector fed in uneven pieces.
    let msg = b"abcdbcdecdefdefgefghfghighijhijkijkljklmklmnlmnomnopnopq";
    let want: [u8; 32] = [
        0x24, 0x8d, 0x6a, 0x61, 0xd2, 0x06, 0x38, 0xb8, 0xe5, 0xc0, 0x26, 0x93, 0x0c, 0x3e, 0x60,
        0x39, 0xa3, 0x3c, 0xe4, 0x59, 0x64, 0xff, 0x21, 0x67, 0xf6, 0xec, 0xed, 0xd4, 0x19, 0xdb,
        0x06, 0xc1,
    ];
    let mut one = Sha256::new();
    one.update(msg);
    let mut d1 = [0u8; 32];
    one.finalize(&mut d1);
    assert_eq!(d1, want);

    let mut engine = Sha256Engine::new();
    engine.init().unwrap();
    engine.update(&msg[..3]).unwrap();
    engine.update(&msg[3..40]).unwrap();
    engine.update(&msg[40..]).unwrap();
    let mut d2 = [0u8; 32];
    engine.finalize(&mut d2).unwrap();
    assert_eq!(d2, want);
}

#[test]
fn sha256_engine_update_before_init_errors() {
    let mut engine = Sha256Engine::new();
    let mut digest = [0u8; 32];
    assert!(engine.update(b"x").is_err());
    assert!(engine.finalize(&mut digest).is_err());
}

#[test]
fn hmac_sha256_times_out_without_dinis() {
    let mem = MmioMem::new(HASH_BASE_ADDR);
    let mut hash = umbra::hash::Hash::new_with_mmio(mem);
    let mut out = [7u8; 32];
    assert!(hash.hmac_sha256(&[1u8; 4], &[2u8; 4], &mut out).is_err());
    assert_eq!(out, [7u8; 32]);
}

fn hash_with_digest(words: [u32; 8]) -> umbra::hash::Hash<MmioMem> {
    let mut mem = MmioMem::new(HASH_BASE_ADDR);
    mem.preload_register(HASH_SR_OFFSET, SR_DINIS_MASK | SR_DCIS_MASK);
    for i in 0..5u32 {
        mem.preload_register(HASH_HR_OFFSET + 4 * i, words[i as usize]);
    }
    for i in 0..3u32 {
        mem.preload_register(HASH_HR5_OFFSET + 4 * i, words[5 + i as usize]);
    }
    umbra::hash::Hash::new_with_mmio(mem)
}

#[test]
fn hash_kat_passes_on_the_fips_digest() {
    let words = [
        0xba7816bf, 0x8f01cfea, 0x414140de, 0x5dae2223, 0xb00361a3, 0x96177a9c, 0xb410ff61, 0xf20015ad,
    ];
    let mut hash = hash_with_digest(words);
    assert_eq!(sha256_known_answer(&mut hash), Ok(true));
}

#[test]
fn hash_kat_fails_on_a_wrong_digest() {
    let mut hash = hash_with_digest([0; 8]);
    assert_eq!(sha256_known_answer(&mut hash), Ok(false));
    let mut stuck = umbra::hash::Hash::new_with_mmio(MmioMem::new(HASH_BASE_ADDR));
    assert_eq!(sha256_known_answer(&mut stuck), Err(HashError::Timeout));
}

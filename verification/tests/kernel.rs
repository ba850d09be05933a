use umbra::aes::{AesEmulated, AesEngine};
use umbra::crypto_engine::{CryptoEngine, UmbraCryptoEngine, UmbraError};
use umbra::hash::{HASH_BASE_ADDR, HASH_HR5_OFFSET, HASH_HR_OFFSET, HASH_SR_OFFSET, SR_DCIS_MASK, SR_DINIS_MASK};
use umbra::key_derivation::{derive_enc_key, derive_hmac_key, ENC_KEY_LABEL, HMAC_KEY_LABEL};
use umbra::mmio::MmioMem;
use umbra::validator::{validate_block, ValidationError, BLOCK_META_SIZE, CODE_BLOCK_SIZE};

/// A HASH peripheral whose digest registers hold words 0x01020304 + i.
fn hash_with_digest() -> (umbra::hash::Hash<MmioMem>, [u8; 32]) {
    let mut mem = MmioMem::new(HASH_BASE_ADDR);
    mem.preload_register(HASH_SR_OFFSET, SR_DINIS_MASK | SR_DCIS_MASK);
    let mut tag = [0u8; 32];
    for i in 0..8u32 {
        let w = 0x0102_0304u32.wrapping_add(i * 0x1010_1010);
        let off = if i < 5 { HASH_HR_OFFSET + 4 * i } else { HASH_HR5_OFFSET + 4 * (i - 5) };
        mem.preload_register(off, w);
        tag[(4 * i) as usize..(4 * i + 4) as usize].copy_from_slice(&w.to_be_bytes());
    }
    (umbra::hash::Hash::new_with_mmio(mem), tag)
}

fn engine() -> (UmbraCryptoEngine<MmioMem, AesEmulated>, [u8; 32]) {
    let (hash, tag) = hash_with_digest();
    (UmbraCryptoEngine::new(hash, AesEmulated::new()), tag)
}

#[test]
fn key_labels_are_the_tool_labels() {
    assert_eq!(&ENC_KEY_LABEL, b"umbra-enc-v1");
    assert_eq!(&HMAC_KEY_LABEL, b"umbra-hmac-v1");
}

#[test]
fn derived_keys_are_the_hmac_output() {
    let (mut crypto, tag) = engine();
    let master = [0x42u8; 32];
    assert_eq!(derive_enc_key(&mut crypto, &master), Ok(tag));
    assert_eq!(derive_hmac_key(&mut crypto, &master), Ok(tag));
}

#[test]
fn derivation_failure_is_key_derivation_error() {
    let mem = MmioMem::new(HASH_BASE_ADDR);
    let mut crypto = UmbraCryptoEngine::new(umbra::hash::Hash::new_with_mmio(mem), AesEmulated::new());
    assert_eq!(derive_enc_key(&mut crypto, &[0u8; 32]), Err(UmbraError::KeyDerivation));
}

#[test]
fn validate_block_accepts_matching_tag_and_decrypts() {
    let (mut crypto, tag) = engine();
    let ciphertext = [0x33u8; CODE_BLOCK_SIZE];
    let metadata = [0x44u8; BLOCK_META_SIZE];
    let enc_key = [0x2bu8; 32];
    let hmac_key = [0x11u8; 32];
    let block = validate_block(&mut crypto, 7, &ciphertext, &metadata, &tag, &hmac_key, &enc_key)
        .unwrap_or_else(|_| panic!("matching tag must validate"));
    assert_eq!(block.block_id, 7);
    assert_eq!(block.metadata, metadata);

    // The plaintext is AES-128-CTR of the ciphertext from a zero IV.
    let mut aes = AesEmulated::new();
    aes.init(&enc_key, None);
    let mut expect = ciphertext;
    aes.ctr_xform(&[0u8; 16], &mut expect);
    assert_eq!(block.plaintext, expect);
    assert_ne!(block.plaintext, ciphertext);
}

#[test]
fn validate_block_rejects_wrong_tag() {
    let (mut crypto, mut tag) = engine();
    tag[31] ^= 1;
    let r = validate_block(
        &mut crypto,
        1,
        &[0u8; CODE_BLOCK_SIZE],
        &[0u8; BLOCK_META_SIZE],
        &tag,
        &[0u8; 32],
        &[0u8; 32],
    );
    assert!(matches!(r, Err(ValidationError::HmacMismatch)));
}

#[test]
fn validate_block_fails_closed_when_hash_times_out() {
    let mem = MmioMem::new(HASH_BASE_ADDR);
    let mut crypto = UmbraCryptoEngine::new(umbra::hash::Hash::new_with_mmio(mem), AesEmulated::new());
    let r = validate_block(
        &mut crypto,
        1,
        &[0u8; CODE_BLOCK_SIZE],
        &[0u8; BLOCK_META_SIZE],
        &[0u8; 32],
        &[0u8; 32],
        &[0u8; 32],
    );
    assert!(matches!(r, Err(ValidationError::HmacMismatch)));
}

#[test]
fn crypto_engine_hash_is_software_sha256() {
    let (mut crypto, _) = engine();
    let mut out = [0u8; 32];
    crypto.hash(b"abc", &mut out).unwrap();
    assert_eq!(out[..4], [0xba, 0x78, 0x16, 0xbf]);
    assert_eq!(crypto.aes_decrypt(&[0u8; 8], &[0u8; 16], &mut [0u8; 16]), Err(UmbraError::LengthMismatch));
}

// ---------------------------------------------------------------- measurement

use umbra::measurement::{
    block_flash_addrs, finalize_measurement, fold_block, load_block_addrs, lookup_faulting_block,
    measure_boot_blobs, measure_region, LoadedExtent, MeasureError,
};
use umbra::nsc::{create_preflight, create_sizes, initial_frame, nsc_status};

#[test]
fn block_addresses_follow_the_flash_layout() {
    // Block 2 of a blob at 0x7009_0000 with a 64-byte header: 0x7009_0000 + 64 + 2 * 288.
    let base = 0x7009_0000u32 + 64 + 2 * 288;
    assert_eq!(block_flash_addrs(0x7009_0000, 64, 2), Some((base + 32, base)));
    assert_eq!(block_flash_addrs(0xFFFF_FF00, 64, 1), None);
    assert_eq!(load_block_addrs(0x7009_0000, 64, 0x3400_0000, 2), Ok((base + 32, 0x3400_0200)));
    assert_eq!(load_block_addrs(0x7009_0000, 64, 0xFFFF_FF80, 1), Err(0xFFFF_FFF7));
}

#[test]
fn fold_block_replaces_the_chain_with_the_hmac() {
    let (mut crypto, tag) = engine();
    let mut chain = [9u8; 32];
    fold_block(&mut crypto, &mut chain, 0, &[1u8; 256], &[2u8; 32]).unwrap();
    assert_eq!(chain, tag);
}

#[test]
fn fold_block_keeps_the_chain_on_hash_failure() {
    let mem = MmioMem::new(HASH_BASE_ADDR);
    let mut crypto = UmbraCryptoEngine::new(umbra::hash::Hash::new_with_mmio(mem), AesEmulated::new());
    let mut chain = [9u8; 32];
    assert_eq!(fold_block(&mut crypto, &mut chain, 0, &[1u8; 256], &[2u8; 32]), Err(UmbraError::HashHardware));
    assert_eq!(chain, [9u8; 32]);
}

#[test]
fn finalize_measurement_is_equality() {
    assert_eq!(finalize_measurement(&[3u8; 32], &[3u8; 32]), Ok(()));
    let mut other = [3u8; 32];
    other[17] = 4;
    assert_eq!(finalize_measurement(&[3u8; 32], &other), Err(()));
}

#[test]
fn measure_region_chains_over_padded_chunks() {
    let (mut crypto, tag) = engine();
    // 300 bytes = two chunks; the final chain is the last HMAC output.
    assert_eq!(measure_region(&mut crypto, &[0u8; 32], &[5u8; 300], &tag), Ok(()));
    let mut wrong = tag;
    wrong[0] ^= 1;
    assert_eq!(measure_region(&mut crypto, &[0u8; 32], &[5u8; 300], &wrong), Err(MeasureError::Mismatch));
    // An empty region leaves the seed as the chain.
    assert_eq!(measure_region(&mut crypto, &[7u8; 32], &[], &[7u8; 32]), Ok(()));
}

#[test]
fn measure_region_reports_hash_failure() {
    let mem = MmioMem::new(HASH_BASE_ADDR);
    let mut crypto = UmbraCryptoEngine::new(umbra::hash::Hash::new_with_mmio(mem), AesEmulated::new());
    assert_eq!(measure_region(&mut crypto, &[0u8; 32], &[1u8; 10], &[0u8; 32]), Err(MeasureError::HashFailed));
}

#[test]
fn measure_boot_blobs_stops_at_the_first_refusal() {
    let (mut crypto, tag) = engine();
    assert_eq!(measure_boot_blobs(&mut crypto, &[0u8; 32], &[1u8; 256], &tag, &[2u8; 512], &tag), Ok(()));
    assert_eq!(
        measure_boot_blobs(&mut crypto, &[0u8; 32], &[1u8; 256], &[0u8; 32], &[2u8; 512], &tag),
        Err(MeasureError::Mismatch)
    );
}

#[test]
fn lookup_faulting_block_finds_the_first_covering_enclave() {
    let slots = [
        None,
        Some(LoadedExtent { start_address: 0x3400_0000, efb_count: 4, id: 7, flash_base: 0x7009_0000 }),
        Some(LoadedExtent { start_address: 0xFFFF_FF00, efb_count: 4, id: 8, flash_base: 0x700A_0000 }),
    ];
    assert_eq!(lookup_faulting_block(&slots, 0x3400_0210), Some((7, 2)));
    assert_eq!(lookup_faulting_block(&slots, 0x3400_0400), None);
    // The wrapping extent covers nothing.
    assert_eq!(lookup_faulting_block(&slots, 0xFFFF_FF10), None);
}

// ---------------------------------------------------------------- NSC decisions

#[test]
fn nsc_status_codes() {
    assert_eq!(nsc_status(UmbraError::EnclaveNotFound { id: 3 }), 0xFFFF_FFF0);
    assert_eq!(nsc_status(UmbraError::NscArgInvalid), 0xFFFF_FFF6);
    assert_eq!(nsc_status(UmbraError::OffsetOverflow), 0xFFFF_FFF7);
    assert_eq!(nsc_status(UmbraError::InternalInvariant), 0xFFFF_FFFF);
}

#[test]
fn create_preflight_checks_in_order() {
    let loaded = [Some(LoadedExtent { start_address: 0x3400_0000, efb_count: 1, id: 5, flash_base: 0x7009_0000 })];
    assert_eq!(create_preflight(0x6FFF_FFF0, &loaded, 1), Err(0xFFFF_FFF6));
    assert_eq!(create_preflight(0x7009_0008, &loaded, 1), Err(0xFFFF_FFF6));
    assert_eq!(create_preflight(0x7009_0000, &loaded, 1), Err(0xFFFF_FFF4));
    assert_eq!(create_preflight(0x700A_0000, &loaded, 3), Err(0xFFFF_FFF3));
    assert_eq!(create_preflight(0x700A_0000, &loaded, 2), Ok(()));
}

#[test]
fn create_sizes_bounds_the_block_count() {
    assert_eq!(create_sizes(288 * 3 + 10), Ok((3, 768)));
    assert_eq!(create_sizes(100), Err(0xFFFF_FFF7));
    assert_eq!(create_sizes(288 * 65), Err(0xFFFF_FFF7));
    assert_eq!(create_sizes(288 * 64), Ok((64, 64 * 256)));
}

#[test]
fn initial_frame_starts_at_the_entry() {
    assert_eq!(initial_frame(0x3400_0001), [0, 0, 0, 0, 0, 0xFFFF_FFFF, 0x3400_0001, 0x0100_0000]);
}

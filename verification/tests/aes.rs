use umbra::aes::gcm::Aead;
use umbra::aes::hal_adapter::{Aes128Engine, Aes128Error, AesKey, AesMode};
use umbra::aes::keyreg::AesHardware;
use umbra::aes::{AeadError, AesEmulated, AesEngine};
use std::cell::RefCell;
use std::rc::Rc;
use umbra::cryp::{CRYP_BASE_ADDR, CRYP_DOUT_OFFSET, CRYP_SR_OFFSET, SR_KEYVALID, SR_OFNE};
use umbra::dhuk_provision::{shared_key_self_test, KAT_PLAINTEXT};
use umbra::mmio::{MmioMem, PortMmio, RegisterPort};
use umbra::rcc::{Rcc, RCC_BASE_ADDR};

fn nist_key() -> [u8; 16] {
    [
        0x2b, 0x7e, 0x15, 0x16, 0x28, 0xae, 0xd2, 0xa6, 0xab, 0xf7, 0x15, 0x88, 0x09, 0xcf, 0x4f,
        0x3c,
    ]
}

#[test]
fn aead_error_variants_distinct() {
    assert_ne!(AeadError::OutputTooSmall, AeadError::PlaintextBufferTooSmall);
    assert_ne!(AeadError::OutputTooSmall, AeadError::AuthFail);
    assert_ne!(AeadError::AuthFail, AeadError::InvalidNonceLength);
    assert_ne!(AeadError::AuthFail, AeadError::InvalidKeyLength);
    assert_ne!(AeadError::AuthFail, AeadError::NotYetImplemented);
    assert_ne!(AeadError::InvalidNonceLength, AeadError::InvalidKeyLength);
}

#[test]
fn aead_error_reflexive_eq() {
    assert_eq!(AeadError::AuthFail, AeadError::AuthFail);
    assert_eq!(AeadError::NotYetImplemented, AeadError::NotYetImplemented);
}

#[test]
fn aead_aes128_gcm_sizes() {
    assert_eq!(<AesHardware<MmioMem> as Aead>::KEY_SIZE, 16);
    assert_eq!(<AesHardware<MmioMem> as Aead>::NONCE_SIZE, 12);
    assert_eq!(<AesHardware<MmioMem> as Aead>::TAG_SIZE, 16);
}

#[test]
fn process_before_configure_errors() {
    let mut aes = Aes128Engine::from_engine(AesEmulated::new());
    let input = [0u8; 16];
    let mut output = [0u8; 16];
    let err = aes.process(&input, &mut output).unwrap_err();
    assert!(matches!(err, Aes128Error::NotConfigured));
}

#[test]
fn aes256_rejected() {
    let mut aes = Aes128Engine::from_engine(AesEmulated::new());
    let key256 = [0u8; 32];
    let err = aes.configure(AesKey::Bits256(&key256), AesMode::EcbEncrypt).unwrap_err();
    assert!(matches!(err, Aes128Error::Aes256NotSupported));
}

#[test]
fn ecb_rejects_unaligned_length() {
    let key = nist_key();
    let mut aes = Aes128Engine::from_engine(AesEmulated::new());
    aes.configure(AesKey::Bits128(&key), AesMode::EcbEncrypt).unwrap();
    let input = [0u8; 15];
    let mut output = [0u8; 16];
    let err = aes.process(&input, &mut output).unwrap_err();
    assert!(matches!(err, Aes128Error::EcbLengthNotMultipleOf16));
}

#[test]
fn output_too_short_errors() {
    let key = nist_key();
    let mut aes = Aes128Engine::from_engine(AesEmulated::new());
    aes.configure(AesKey::Bits128(&key), AesMode::EcbEncrypt).unwrap();
    let input = [0u8; 16];
    let mut output = [0u8; 8];
    let err = aes.process(&input, &mut output).unwrap_err();
    assert!(matches!(err, Aes128Error::OutputTooShort));
}

#[test]
fn ecb_round_trip_through_adapter() {
    let key = nist_key();
    let plaintext: [u8; 16] = [
        0x6b, 0xc1, 0xbe, 0xe2, 0x2e, 0x40, 0x9f, 0x96, 0xe9, 0x3d, 0x7e, 0x11, 0x73, 0x93, 0x17,
        0x2a,
    ];
    let expected_ct: [u8; 16] = [
        0x3a, 0xd7, 0x7b, 0xb4, 0x0d, 0x7a, 0x36, 0x60, 0xa8, 0x9e, 0xca, 0xf3, 0x24, 0x66, 0xef,
        0x97,
    ];
    let mut aes = Aes128Engine::from_engine(AesEmulated::new());
    aes.configure(AesKey::Bits128(&key), AesMode::EcbEncrypt).unwrap();
    let mut ct = [0u8; 16];
    aes.process(&plaintext, &mut ct).unwrap();
    assert_eq!(ct, expected_ct, "adapter ECB encrypt diverged from NIST KAT");

    aes.configure(AesKey::Bits128(&key), AesMode::EcbDecrypt).unwrap();
    let mut pt = [0u8; 16];
    aes.process(&ct, &mut pt).unwrap();
    assert_eq!(pt, plaintext, "adapter ECB decrypt did not invert encrypt");
}

#[test]
fn ctr_xor_symmetry_through_adapter() {
    let key = nist_key();
    let iv = [
        0xf0, 0xf1, 0xf2, 0xf3, 0xf4, 0xf5, 0xf6, 0xf7, 0xf8, 0xf9, 0xfa, 0xfb, 0xfc, 0xfd, 0xfe,
        0xff,
    ];
    let plaintext = [0xAAu8; 33];
    let mut ct = [0u8; 33];

    let mut aes = Aes128Engine::from_engine(AesEmulated::new());
    aes.configure(AesKey::Bits128(&key), AesMode::CtrEncrypt).unwrap();
    aes.set_iv(&iv).unwrap();
    aes.process(&plaintext, &mut ct).unwrap();
    assert_ne!(ct, plaintext, "CTR did not mutate plaintext");

    aes.configure(AesKey::Bits128(&key), AesMode::CtrEncrypt).unwrap();
    aes.set_iv(&iv).unwrap();
    let mut pt2 = [0u8; 33];
    aes.process(&ct, &mut pt2).unwrap();
    assert_eq!(pt2, plaintext, "CTR round-trip failed");
}

#[test]
fn emulated_block_matches_fips197_appendix_b() {
    // FIPS-197 Appendix B: key 2b7e1516..., input 3243f6a8... -> 3925841d...
    let key = nist_key();
    let input: [u8; 16] = [
        0x32, 0x43, 0xf6, 0xa8, 0x88, 0x5a, 0x30, 0x8d, 0x31, 0x31, 0x98, 0xa2, 0xe0, 0x37, 0x07,
        0x34,
    ];
    let expected: [u8; 16] = [
        0x39, 0x25, 0x84, 0x1d, 0x02, 0xdc, 0x09, 0xfb, 0xdc, 0x11, 0x85, 0x97, 0x19, 0x6a, 0x0b,
        0x32,
    ];
    let mut aes = AesEmulated::new();
    aes.init(&key, None);
    let mut out = [0u8; 16];
    aes.encrypt_block(&input, &mut out);
    assert_eq!(out, expected);
    let mut back = [0u8; 16];
    aes.decrypt_block(&out, &mut back);
    assert_eq!(back, input);
}

#[test]
fn ctr_blocks_only_whole_blocks_change() {
    // The engine's CTR transform works on whole 16-byte blocks; a trailing
    // partial block is left as it was.
    let key = nist_key();
    let iv = [0u8; 16];
    let mut aes = AesEmulated::new();
    aes.init(&key, None);
    let mut data = [0u8; 20];
    aes.ctr_xform(&iv, &mut data);
    assert_eq!(&data[16..], &[0u8; 4]);
    let mut ks = [0u8; 16];
    aes.encrypt_block(&iv, &mut ks);
    assert_eq!(&data[..16], &ks[..]);
}

/// CRYP whose status always shows a ready output and whose DOUT hands out
/// `words` in turn.
struct CrypSim {
    words: Rc<RefCell<Vec<u32>>>,
}

impl RegisterPort for CrypSim {
    fn load(&mut self, addr: u32) -> u32 {
        if addr == CRYP_BASE_ADDR + CRYP_SR_OFFSET {
            SR_OFNE | SR_KEYVALID
        } else if addr == CRYP_BASE_ADDR + CRYP_DOUT_OFFSET {
            let mut w = self.words.borrow_mut();
            if w.is_empty() { 0 } else { w.remove(0) }
        } else {
            0
        }
    }

    fn store(&mut self, _addr: u32, _value: u32) {}

    fn fence(&mut self) {}

    fn relax(&mut self) {}
}

fn shared_key_hw(words: Vec<u32>) -> AesHardware<PortMmio<CrypSim>> {
    let mut rcc = Rcc::new_with_mmio(MmioMem::new(RCC_BASE_ADDR));
    let sim = CrypSim { words: Rc::new(RefCell::new(words)) };
    AesHardware::new_with_mmio(&mut rcc, PortMmio::new(sim, CRYP_BASE_ADDR))
}

#[test]
fn shared_key_check_passes_when_cryp_agrees_with_software() {
    let key = nist_key();
    let mut oracle = AesEmulated::new();
    oracle.init(&key, None);
    let mut ct = [0u8; 16];
    oracle.encrypt_block(&KAT_PLAINTEXT, &mut ct);
    let words: Vec<u32> = ct.chunks(4).map(|c| u32::from_be_bytes([c[0], c[1], c[2], c[3]])).collect();
    let mut hw = shared_key_hw(words);
    let mut sw = AesEmulated::new();
    assert_eq!(shared_key_self_test(&mut hw, &mut sw, &key), Ok(true));
}

#[test]
fn shared_key_check_fails_on_a_different_key() {
    let key = nist_key();
    let mut hw = shared_key_hw(vec![0, 0, 0, 0]);
    let mut sw = AesEmulated::new();
    assert_eq!(shared_key_self_test(&mut hw, &mut sw, &key), Ok(false));
}

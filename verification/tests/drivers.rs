use umbra::dhuk_provision::{provision_and_share_enc_key, DhukError, DhukOutcome};
use umbra::bkpsram::{Bkpsram, Slot, BKPSRAM_SECURE_BASE, SLOT_MAGIC, WRAP_BLOB_LEN};
use umbra::cryp::{
    Cryp1, CRYP_BASE_ADDR, CRYP_CR_OFFSET, CRYP_DIN_OFFSET, CRYP_DOUT_OFFSET, CRYP_K2LR_OFFSET,
    CRYP_K2RR_OFFSET, CRYP_K3LR_OFFSET, CRYP_K3RR_OFFSET, CRYP_SR_OFFSET, SR_KEYVALID, SR_OFNE,
};
use umbra::gpio::{Gpio, PinMode, Port, GPIO_BSRR_OFFSET, GPIO_MODER_OFFSET};
use umbra::mce::{Mce2, MCE2_BASE, REGCR1_OFFSET, REGCR_BREN};
use umbra::mmio::{MmioMem, MmioOp};
use umbra::rcc::{
    Rcc, AHB3ENR_OFFSET, AHB4ENR_OFFSET, CFGR1_OFFSET, CR_OFFSET, GPIOAEN, HASHEN, RCC_BASE_ADDR,
};
use umbra::risaf::{
    Risaf, RisafInstance, CFGR_BREN, CFGR_SEC, CPU_CID_MASK, OFF_CFGR, OFF_CIDCFGR, OFF_ENDR,
    OFF_STARTR, REG_BLOCK_BASE, REG_BLOCK_STRIDE,
};
use umbra::saes::{
    Saes, SAES_BASE_ADDR, SAES_CR_OFFSET, SAES_DINR_OFFSET, SAES_KEYR0_OFFSET, SAES_SR_OFFSET,
    SR_CCF,
};
use umbra::uart::{
    Uart, UartError, BRR_OFFSET, CR1_OFFSET, ISR_OFFSET, PRESC_OFFSET, TDR_OFFSET,
    USART1_BASE_ADDR,
};

fn nth_write(log: &[MmioOp], n: usize) -> (u32, u32) {
    let mut seen = 0;
    for op in log {
        if let MmioOp::Write { addr, value } = *op {
            if seen == n {
                return (addr, value);
            }
            seen += 1;
        }
    }
    panic!("log only contains {} writes, wanted index {}", seen, n);
}

fn last_write_to(log: &[MmioOp], want_addr: u32) -> Option<u32> {
    let mut found = None;
    for op in log {
        if let MmioOp::Write { addr, value } = *op {
            if addr == want_addr {
                found = Some(value);
            }
        }
    }
    found
}

fn nth_write_to(log: &[MmioOp], want_addr: u32, n: usize) -> u32 {
    let mut seen = 0;
    for op in log {
        if let MmioOp::Write { addr, value } = *op {
            if addr == want_addr {
                if seen == n {
                    return value;
                }
                seen += 1;
            }
        }
    }
    panic!("log only contains {} writes to 0x{:08x}, wanted index {}", seen, want_addr, n);
}

// ---------------------------------------------------------------- BKPSRAM

#[test]
fn slot_round_trips_magic_tag_blob() {
    let mem = MmioMem::new(BKPSRAM_SECURE_BASE);
    let mut bk = Bkpsram::new_with_mmio(mem);
    let mut blob = [0u8; WRAP_BLOB_LEN];
    let mut i = 0;
    while i < WRAP_BLOB_LEN {
        blob[i] = (0xA0 + i) as u8;
        i += 1;
    }
    bk.write_slot(&Slot { magic: SLOT_MAGIC, tag: 0x1122_3344, blob });
    let r = bk.read_slot();
    assert_eq!(r.magic, SLOT_MAGIC);
    assert_eq!(r.tag, 0x1122_3344);
    assert_eq!(r.blob, blob);
}

#[test]
fn empty_slot_reads_zero_magic() {
    let mem = MmioMem::new(BKPSRAM_SECURE_BASE);
    let mut bk = Bkpsram::new_with_mmio(mem);
    assert_eq!(bk.read_slot().magic, 0);
    assert_ne!(SLOT_MAGIC, 0);
}

// ---------------------------------------------------------------- CRYP

#[test]
fn configure_ecb_128_writes_keyrx_ascending_with_be_byteswap() {
    let mut mem = MmioMem::new(CRYP_BASE_ADDR);
    mem.preload_register(CRYP_SR_OFFSET, SR_KEYVALID);
    let mut cryp = Cryp1::new_with_mmio(mem);
    let key: [u8; 16] = [
        0xDE, 0xAD, 0xBE, 0xEF, 0x01, 0x02, 0x03, 0x04, 0xCA, 0xFE, 0xBA, 0xBE, 0x12, 0x34, 0x56,
        0x78,
    ];
    cryp.configure_ecb_128_sw_key(&key).unwrap();

    let log = cryp.mmio().write_log();
    let k2lr_addr = CRYP_BASE_ADDR + CRYP_K2LR_OFFSET;
    let k2rr_addr = CRYP_BASE_ADDR + CRYP_K2RR_OFFSET;
    let k3lr_addr = CRYP_BASE_ADDR + CRYP_K3LR_OFFSET;
    let k3rr_addr = CRYP_BASE_ADDR + CRYP_K3RR_OFFSET;
    assert_eq!(last_write_to(&log, k2lr_addr), Some(0xDEAD_BEEF));
    assert_eq!(last_write_to(&log, k2rr_addr), Some(0x0102_0304));
    assert_eq!(last_write_to(&log, k3lr_addr), Some(0xCAFE_BABE));
    assert_eq!(last_write_to(&log, k3rr_addr), Some(0x1234_5678));
    let pos = |addr: u32| -> usize {
        log.iter()
            .position(|op| matches!(op, MmioOp::Write { addr: a, .. } if *a == addr))
            .unwrap_or_else(|| panic!("expected a Write to 0x{:08x}", addr))
    };
    assert!(pos(k2lr_addr) < pos(k2rr_addr), "K2LR must precede K2RR");
    assert!(pos(k2rr_addr) < pos(k3lr_addr), "K2RR must precede K3LR");
    assert!(pos(k3lr_addr) < pos(k3rr_addr), "K3LR must precede K3RR");
}

#[test]
fn configure_ecb_128_sets_algomode_ecb_in_cr() {
    let mut mem = MmioMem::new(CRYP_BASE_ADDR);
    mem.preload_register(CRYP_SR_OFFSET, SR_KEYVALID);
    let mut cryp = Cryp1::new_with_mmio(mem);
    cryp.configure_ecb_128_sw_key(&[0u8; 16]).unwrap();

    let log = cryp.mmio().write_log();
    let cr_addr = CRYP_BASE_ADDR + CRYP_CR_OFFSET;
    let final_cr =
        last_write_to(&log, cr_addr).expect("configure_ecb_128_sw_key must write CR at least once");
    assert_eq!((final_cr >> 3) & 0x7, 0b100);
    assert_eq!((final_cr >> 19) & 1, 0);
    assert_eq!((final_cr >> 8) & 0x3, 0, "CR.KEYSIZE must be 0 (128-bit)");
    assert_eq!((final_cr >> 6) & 0x3, 0, "CR.DATATYPE must be 0 (no swap)");
    assert_eq!((final_cr >> 2) & 1, 0, "CR.ALGODIR must be 0 (encrypt)");
    assert_eq!((final_cr >> 24) & 0x3, 0, "CR.KMOD must be 0 (normal SW key)");
    assert_eq!((final_cr >> 15) & 1, 1, "CR.CRYPEN must be set on final write");
}

#[test]
fn process_block_writes_din_then_polls_ofne_then_reads_dout() {
    let mut mem = MmioMem::new(CRYP_BASE_ADDR);
    mem.preload_register(CRYP_SR_OFFSET, SR_OFNE);
    mem.preload_register(CRYP_DOUT_OFFSET, 0xCA11_AB1E);
    let mut cryp = Cryp1::new_with_mmio(mem);
    let input: [u8; 16] = [
        0x11, 0x22, 0x33, 0x44, 0x55, 0x66, 0x77, 0x88, 0x99, 0xAA, 0xBB, 0xCC, 0xDD, 0xEE, 0xFF,
        0x00,
    ];
    let mut output = [0u8; 16];
    cryp.process_block(&input, &mut output).unwrap();

    let log = cryp.mmio().write_log();
    let din_addr = CRYP_BASE_ADDR + CRYP_DIN_OFFSET;
    assert_eq!(nth_write_to(&log, din_addr, 0), 0x1122_3344);
    assert_eq!(nth_write_to(&log, din_addr, 1), 0x5566_7788);
    assert_eq!(nth_write_to(&log, din_addr, 2), 0x99AA_BBCC);
    assert_eq!(nth_write_to(&log, din_addr, 3), 0xDDEE_FF00);
    let expect = 0xCA11_AB1Eu32.to_be_bytes();
    for i in 0..4 {
        assert_eq!(&output[i * 4..i * 4 + 4], &expect, "output[{}*4..] must mirror DOUT", i);
    }
    let _ = nth_write(&log, 0);
}

#[test]
fn configure_ecb_shared_sets_kmod_shared_no_keyrx() {
    let mut mem = MmioMem::new(CRYP_BASE_ADDR);
    mem.preload_register(CRYP_SR_OFFSET, SR_KEYVALID);
    let mut cryp = Cryp1::new_with_mmio(mem);
    cryp.configure_ecb_shared();

    let log = cryp.mmio().write_log();
    for off in [CRYP_K2LR_OFFSET, CRYP_K2RR_OFFSET, CRYP_K3LR_OFFSET, CRYP_K3RR_OFFSET] {
        assert!(
            !log.iter()
                .any(|op| matches!(op, MmioOp::Write { addr, .. } if *addr == CRYP_BASE_ADDR + off)),
            "shared mode must not write KEYRx (offset {:#x})",
            off
        );
    }
    assert!(
        log.iter().any(|op| matches!(op,
            MmioOp::Write { addr, value }
                if *addr == CRYP_BASE_ADDR + CRYP_CR_OFFSET && (value >> 24) & 0x3 == 0b10)),
        "a CR write must set KMOD=shared"
    );
}

#[test]
fn process_block_times_out_without_ofne() {
    // Without OFNE the bounded poll gives up and the output stays as it was.
    let mem = MmioMem::new(CRYP_BASE_ADDR);
    let mut cryp = Cryp1::new_with_mmio(mem);
    let mut output = [0x5Au8; 16];
    assert!(cryp.process_block(&[0u8; 16], &mut output).is_err());
    assert_eq!(output, [0x5Au8; 16]);
}

// ---------------------------------------------------------------- GPIO

#[test]
fn set_mode_issues_correct_register_sequence() {
    let base = Port::GpioA.base_addr();
    let mut mem = MmioMem::new(base);
    mem.preload_register(GPIO_MODER_OFFSET, 0xFFFF_FFFF);
    let mut gpio = Gpio::new_with_mmio(mem);
    gpio.set_mode(5, PinMode::Alternate);

    let log = gpio.mmio().write_log();
    assert_eq!(log.len(), 2);
    assert!(matches!(log[0], MmioOp::Read { addr, .. } if addr == base));
    match log[1] {
        MmioOp::Write { addr, value } => {
            assert_eq!(addr, base);
            assert_eq!((value >> 10) & 0b11, 0b10);
        }
        _ => panic!("expected Write at position 1, got {:?}", log[1]),
    }
}

#[test]
fn pin_set_writes_bsrr_low_half() {
    let base = Port::GpioA.base_addr();
    let mem = MmioMem::new(base);
    let mut gpio = Gpio::new_with_mmio(mem);
    gpio.pin_set(3);

    let log = gpio.mmio().write_log();
    assert_eq!(log.len(), 1);
    match log[0] {
        MmioOp::Write { addr, value } => {
            assert_eq!(addr, base + GPIO_BSRR_OFFSET);
            assert_eq!(value, 1u32 << 3);
        }
        _ => panic!("expected Write"),
    }
}

#[test]
fn pin_reset_writes_bsrr_high_half_and_set_high_rejects_bad_pin() {
    let base = Port::GpioG.base_addr();
    let mem = MmioMem::new(base);
    let mut gpio = Gpio::new_with_mmio(mem);
    gpio.pin_reset(10);
    assert!(gpio.set_high(16).is_err());
    assert!(gpio.set_low(15).is_ok());
    let log = gpio.mmio().write_log();
    assert_eq!(log.len(), 2);
    assert_eq!(log[0], MmioOp::Write { addr: base + GPIO_BSRR_OFFSET, value: 1u32 << 26 });
    assert_eq!(log[1], MmioOp::Write { addr: base + GPIO_BSRR_OFFSET, value: 1u32 << 31 });
}

// ---------------------------------------------------------------- MCE

#[test]
fn disable_region1_clears_bren_bit_at_0x040() {
    let mut mem = MmioMem::new(MCE2_BASE);
    mem.preload_register(REGCR1_OFFSET, REGCR_BREN | (1 << 16));
    let mut mce = Mce2::new_with_mmio(mem);
    mce.disable_region1();

    let log = mce.mmio().write_log();
    assert_eq!(log.len(), 2, "log = {:?}", log);
    match log[0] {
        MmioOp::Read { addr, .. } => assert_eq!(addr, MCE2_BASE + REGCR1_OFFSET),
        _ => panic!("expected Read REGCR1 at position 0, got {:?}", log[0]),
    }
    match log[1] {
        MmioOp::Write { addr, value } => {
            assert_eq!(addr, MCE2_BASE + REGCR1_OFFSET);
            assert_eq!(value & REGCR_BREN, 0, "BREN must be cleared");
            assert_eq!(value & (1 << 16), 1 << 16, "upper bit must be preserved");
        }
        _ => panic!("expected Write REGCR1 at position 1, got {:?}", log[1]),
    }
}

#[test]
fn disable_region1_is_idempotent_when_bren_already_zero() {
    let mut mem = MmioMem::new(MCE2_BASE);
    mem.preload_register(REGCR1_OFFSET, 0xFFFF_FFFE);
    let mut mce = Mce2::new_with_mmio(mem);
    mce.disable_region1();

    let log = mce.mmio().write_log();
    assert_eq!(log.len(), 2, "log = {:?}", log);
    match log[1] {
        MmioOp::Write { addr, value } => {
            assert_eq!(addr, MCE2_BASE + REGCR1_OFFSET);
            assert_eq!(value, 0xFFFF_FFFE);
        }
        _ => panic!("expected Write REGCR1 at position 1, got {:?}", log[1]),
    }
}

// ---------------------------------------------------------------- RCC

#[test]
fn enable_ahb3_clock_sets_hash_bit_at_0x258() {
    let mut mem = MmioMem::new(RCC_BASE_ADDR);
    mem.preload_register(AHB3ENR_OFFSET, 1 << 0);
    let mut rcc = Rcc::new_with_mmio(mem);
    rcc.enable_ahb3_clock(HASHEN);

    let log = rcc.mmio().write_log();
    assert_eq!(log.len(), 2, "log = {:?}", log);
    match log[0] {
        MmioOp::Read { addr, .. } => assert_eq!(addr, RCC_BASE_ADDR + AHB3ENR_OFFSET),
        _ => panic!("expected Read AHB3ENR at position 0, got {:?}", log[0]),
    }
    match log[1] {
        MmioOp::Write { addr, value } => {
            assert_eq!(addr, RCC_BASE_ADDR + AHB3ENR_OFFSET);
            assert_eq!(value, (1 << 0) | (1 << 1));
        }
        _ => panic!("expected Write AHB3ENR at position 1, got {:?}", log[1]),
    }
}

#[test]
fn enable_ahb4_clock_sets_gpioa_bit_at_0x25c() {
    let mem = MmioMem::new(RCC_BASE_ADDR);
    let mut rcc = Rcc::new_with_mmio(mem);
    rcc.enable_ahb4_clock(GPIOAEN);

    let log = rcc.mmio().write_log();
    assert_eq!(log.len(), 2, "log = {:?}", log);
    match log[1] {
        MmioOp::Write { addr, value } => {
            assert_eq!(addr, RCC_BASE_ADDR + AHB4ENR_OFFSET);
            assert_eq!(value, 1 << 0);
        }
        _ => panic!("expected Write AHB4ENR at position 1, got {:?}", log[1]),
    }
}

#[test]
fn force_hsi_writes_cr_then_cfgr1_with_sw_cleared() {
    let mut mem = MmioMem::new(RCC_BASE_ADDR);
    mem.preload_register(CR_OFFSET, 1 << 2);
    mem.preload_register(CFGR1_OFFSET, 0x3);
    let mut rcc = Rcc::new_with_mmio(mem);
    rcc.force_hsi().unwrap();

    let log = rcc.mmio().write_log();
    assert_eq!(log.len(), 6, "log = {:?}", log);
    assert!(matches!(log[0], MmioOp::Read { addr, .. } if addr == RCC_BASE_ADDR + CR_OFFSET));
    match log[1] {
        MmioOp::Write { addr, value } => {
            assert_eq!(addr, RCC_BASE_ADDR + CR_OFFSET);
            assert_eq!(value, (1 << 2) | 1);
        }
        _ => panic!("expected Write CR at position 1, got {:?}", log[1]),
    }
    assert!(matches!(log[2], MmioOp::Read { addr, .. } if addr == RCC_BASE_ADDR + CR_OFFSET));
    assert!(matches!(log[3], MmioOp::Read { addr, .. } if addr == RCC_BASE_ADDR + CFGR1_OFFSET));
    match log[4] {
        MmioOp::Write { addr, value } => {
            assert_eq!(addr, RCC_BASE_ADDR + CFGR1_OFFSET);
            assert_eq!(value & 0x3, 0);
        }
        _ => panic!("expected Write CFGR1 at position 4, got {:?}", log[4]),
    }
    assert!(matches!(log[5], MmioOp::Read { addr, .. } if addr == RCC_BASE_ADDR + CFGR1_OFFSET));
}

#[test]
fn force_hsi_times_out_when_hsi_never_ready() {
    let mem = MmioMem::new(RCC_BASE_ADDR);
    let mut rcc = Rcc::new_with_mmio(mem);
    assert!(rcc.force_hsi().is_err());
}

// ---------------------------------------------------------------- RISAF

#[test]
fn configure_region_writes_cj3_sequence_verbatim() {
    let base = RisafInstance::Risaf2.mmio_base();
    let mem = MmioMem::new(base);
    let mut risaf = Risaf::new_with_mmio(mem);
    let abs_start = 0x3406_4000;
    let abs_end = 0x340F_FFFF;
    risaf.configure_region(1, abs_start, abs_end, true, CPU_CID_MASK, CPU_CID_MASK, 0);

    let log = risaf.mmio().write_log();
    let mut writes: [(u32, u32); 6] = [(0, 0); 6];
    let mut n: usize = 0;
    for op in log.iter() {
        if let MmioOp::Write { addr, value } = *op {
            assert!(n < 6, "more than 6 writes: {:?}", op);
            writes[n] = (addr, value);
            n += 1;
        }
    }
    assert_eq!(n, 6, "writes count");
    let region_off = REG_BLOCK_BASE;
    assert_eq!(writes[0], (base + region_off + OFF_CFGR, 0));
    assert_eq!(writes[1], (base + region_off + OFF_STARTR, abs_start));
    assert_eq!(writes[2], (base + region_off + OFF_ENDR, abs_end));
    let expected_cidcfg = (CPU_CID_MASK as u32) | ((CPU_CID_MASK as u32) << 16);
    assert_eq!(expected_cidcfg, 0x0002_0002);
    assert_eq!(writes[3], (base + region_off + OFF_CIDCFGR, expected_cidcfg));
    assert_eq!(writes[4], (base + region_off + OFF_CFGR, CFGR_SEC));
    assert_eq!(writes[4].1 & CFGR_BREN, 0, "BREN must still be 0 at step 4a");
    assert_eq!(writes[5], (base + region_off + OFF_CFGR, CFGR_SEC | CFGR_BREN));
    assert_eq!(writes[5].1 & CFGR_BREN, CFGR_BREN, "BREN must be set at 4b");
}

#[test]
fn read_cfgr_uses_correct_per_region_offset() {
    let base = RisafInstance::Risaf3.mmio_base();
    let mut mem = MmioMem::new(base);
    let region_off = REG_BLOCK_BASE + REG_BLOCK_STRIDE * (3 - 1);
    assert_eq!(region_off, 0x0C0);
    let seeded = CFGR_SEC | CFGR_BREN | (1 << 17);
    mem.preload_register(region_off + OFF_CFGR, seeded);
    let mut risaf = Risaf::new_with_mmio(mem);
    let observed = risaf.read_cfgr(3);
    assert_eq!(observed, seeded);

    let log = risaf.mmio().write_log();
    assert_eq!(log.len(), 1, "log = {:?}", log);
    match log[0] {
        MmioOp::Read { addr, value } => {
            assert_eq!(addr, base + region_off + OFF_CFGR);
            assert_eq!(value, seeded);
        }
        _ => panic!("expected Read at position 0, got {:?}", log[0]),
    }
}

// ---------------------------------------------------------------- SAES

#[test]
fn wrap_under_dhuk_selects_dhuk_shared_encrypt_via_dinr() {
    let mut mem = MmioMem::new(SAES_BASE_ADDR);
    mem.preload_register(SAES_SR_OFFSET, umbra::saes::SR_KEYVALID | SR_CCF);
    let mut saes = Saes::new_with_mmio(mem);
    let _ = saes.wrap_under_dhuk(&[0x11u8; 16]);

    let log = saes.mmio().write_log();
    let cfg = log
        .iter()
        .find_map(|op| match op {
            MmioOp::Write { addr, value }
                if *addr == SAES_BASE_ADDR + SAES_CR_OFFSET && (*value >> 28) & 0x7 == 0b001 =>
            {
                Some(*value)
            }
            _ => None,
        })
        .expect("a CR write with KEYSEL=DHUK");
    assert_eq!((cfg >> 24) & 0x3, 0b10, "KMOD=SHARED");
    assert_eq!((cfg >> 3) & 0x3, 0b00, "MODE=ENCRYPT");
    assert!(
        log.iter().any(
            |op| matches!(op, MmioOp::Write { addr, .. } if *addr == SAES_BASE_ADDR + SAES_DINR_OFFSET)
        ),
        "key must be fed via DINR"
    );
    assert!(
        !log.iter().any(
            |op| matches!(op, MmioOp::Write { addr, .. } if *addr == SAES_BASE_ADDR + SAES_KEYR0_OFFSET)
        ),
        "wrap must NOT write KEYRx"
    );
}

#[test]
fn unwrap_and_share_selects_dhuk_shared_via_dinr() {
    let mut mem = MmioMem::new(SAES_BASE_ADDR);
    mem.preload_register(SAES_SR_OFFSET, SR_CCF);
    let mut saes = Saes::new_with_mmio(mem);
    saes.unwrap_and_share_to_cryp(&[0x22u8; 16]);

    let log = saes.mmio().write_log();
    let cfg = log
        .iter()
        .find_map(|op| match op {
            MmioOp::Write { addr, value }
                if *addr == SAES_BASE_ADDR + SAES_CR_OFFSET && (*value >> 28) & 0x7 == 0b001 =>
            {
                Some(*value)
            }
            _ => None,
        })
        .expect("a CR write with KEYSEL=DHUK");
    assert_eq!((cfg >> 24) & 0x3, 0b10, "KMOD=SHARED");
    assert_eq!((cfg >> 26) & 0x3, 0b00, "KSHAREID=CRYP");
    assert!(
        log.iter().any(
            |op| matches!(op, MmioOp::Write { addr, .. } if *addr == SAES_BASE_ADDR + SAES_DINR_OFFSET)
        ),
        "blob must be fed via DINR"
    );
    assert!(
        !log.iter().any(
            |op| matches!(op, MmioOp::Write { addr, .. } if *addr == SAES_BASE_ADDR + SAES_KEYR0_OFFSET)
        ),
        "unwrap must NOT write KEYRx"
    );
}

// ---------------------------------------------------------------- UART

#[test]
fn write_byte_polls_isr_then_writes_tdr() {
    let mut mem = MmioMem::new(USART1_BASE_ADDR);
    mem.preload_register(ISR_OFFSET, 1 << 7);
    let mut uart = Uart::new_with_mmio(mem);
    uart.write_str("A").unwrap();

    let log = uart.mmio().write_log();
    assert_eq!(log.len(), 2);
    match log[0] {
        MmioOp::Read { addr, value } => {
            assert_eq!(addr, USART1_BASE_ADDR + ISR_OFFSET);
            assert_eq!((value >> 7) & 1, 1);
        }
        _ => panic!("expected Read of ISR at position 0, got {:?}", log[0]),
    }
    match log[1] {
        MmioOp::Write { addr, value } => {
            assert_eq!(addr, USART1_BASE_ADDR + TDR_OFFSET);
            assert_eq!(value, 'A' as u32);
        }
        _ => panic!("expected Write of TDR at position 1, got {:?}", log[1]),
    }
}

#[test]
fn new_usart1_and_configure_115200_writes_brr_1302() {
    let mem = MmioMem::new(USART1_BASE_ADDR);
    let mut uart = Uart::new_with_mmio(mem);
    let brr = 150_000_000u32 / 115_200u32;
    assert_eq!(brr, 1302, "N657 BRR landmine: 150MHz/115200 must equal 1302");
    uart.configure(115_200);

    let log = uart.mmio().write_log();
    assert_eq!(log.len(), 4);
    let expected = [
        (CR1_OFFSET, 0u32),
        (PRESC_OFFSET, 0u32),
        (BRR_OFFSET, 1302u32),
        (CR1_OFFSET, (1u32 << 0) | (1u32 << 3)),
    ];
    for (i, (off, val)) in expected.iter().enumerate() {
        match log[i] {
            MmioOp::Write { addr, value } => {
                assert_eq!(addr, USART1_BASE_ADDR + off, "step {i}: addr mismatch");
                assert_eq!(value, *val, "step {i}: value mismatch");
            }
            _ => panic!("step {i}: expected Write, got {:?}", log[i]),
        }
    }
}

#[test]
fn write_str_times_out_when_tx_never_ready() {
    let mem = MmioMem::new(USART1_BASE_ADDR);
    let mut uart = Uart::new_with_mmio(mem);
    assert_eq!(uart.write_str("AB"), Err(UartError::Timeout));
    let log = uart.mmio().write_log();
    assert!(log.iter().all(|op| matches!(op, MmioOp::Read { .. })));
}

// ---------------------------------------------------------------- DHUK provisioning

fn dhuk_parts() -> (
    umbra::hash::Hash<MmioMem>,
    Bkpsram<MmioMem>,
    Saes<MmioMem>,
    Cryp1<MmioMem>,
) {
    let mut h = MmioMem::new(umbra::hash::HASH_BASE_ADDR);
    h.preload_register(umbra::hash::HASH_SR_OFFSET, umbra::hash::SR_DINIS_MASK | umbra::hash::SR_DCIS_MASK);
    let mut s = MmioMem::new(SAES_BASE_ADDR);
    s.preload_register(SAES_SR_OFFSET, SR_CCF);
    s.preload_register(umbra::saes::SAES_DOUTR_OFFSET, 0x0403_0201);
    let mut c = MmioMem::new(CRYP_BASE_ADDR);
    c.preload_register(CRYP_SR_OFFSET, SR_KEYVALID);
    (
        umbra::hash::Hash::new_with_mmio(h),
        Bkpsram::new_with_mmio(MmioMem::new(BKPSRAM_SECURE_BASE)),
        Saes::new_with_mmio(s),
        Cryp1::new_with_mmio(c),
    )
}

fn dinr_writes(saes: &Saes<MmioMem>) -> Vec<u32> {
    saes.mmio()
        .write_log()
        .iter()
        .filter_map(|op| match *op {
            MmioOp::Write { addr, value } if addr == SAES_BASE_ADDR + SAES_DINR_OFFSET => Some(value),
            _ => None,
        })
        .collect()
}

#[test]
fn dhuk_provisions_then_shares_the_wrapped_blob() {
    let (mut hash, mut bk, mut saes, mut cryp) = dhuk_parts();
    let key = [0x5Au8; 16];
    let r = provision_and_share_enc_key(&mut hash, &mut bk, &mut saes, &mut cryp, &key);
    assert_eq!(r, Ok(DhukOutcome::Provisioned));
    let slot = bk.read_slot();
    assert_eq!(slot.magic, SLOT_MAGIC);
    // The blob stored is what SAES put out (four reads of DOUTR).
    assert_eq!(slot.blob, [1, 2, 3, 4, 1, 2, 3, 4, 1, 2, 3, 4, 1, 2, 3, 4]);
    // DINR: the key (4 words) for the wrap, then the stored blob for the unwrap.
    let din = dinr_writes(&saes);
    assert_eq!(din.len(), 8);
    assert_eq!(&din[4..], &[0x0403_0201u32; 4]);
}

#[test]
fn dhuk_reuses_a_matching_blob_without_wrapping() {
    let key = [0x5Au8; 16];
    let (mut hash, mut bk, mut saes, mut cryp) = dhuk_parts();
    assert_eq!(
        provision_and_share_enc_key(&mut hash, &mut bk, &mut saes, &mut cryp, &key),
        Ok(DhukOutcome::Provisioned)
    );
    let stored = bk.read_slot();
    let (mut hash2, _, mut saes2, mut cryp2) = dhuk_parts();
    bk.write_slot(&Slot { magic: stored.magic, tag: stored.tag, blob: [9u8; WRAP_BLOB_LEN] });
    assert_eq!(
        provision_and_share_enc_key(&mut hash2, &mut bk, &mut saes2, &mut cryp2, &key),
        Ok(DhukOutcome::Reused)
    );
    // Only the unwrap ran: its four DINR writes carry the stored blob.
    assert_eq!(dinr_writes(&saes2), vec![0x0909_0909u32; 4]);
}

#[test]
fn dhuk_share_fails_without_keyvalid() {
    let (mut hash, mut bk, mut saes, _) = dhuk_parts();
    let mut cryp = Cryp1::new_with_mmio(MmioMem::new(CRYP_BASE_ADDR));
    assert_eq!(
        provision_and_share_enc_key(&mut hash, &mut bk, &mut saes, &mut cryp, &[1u8; 16]),
        Err(DhukError::ShareFailed)
    );
}

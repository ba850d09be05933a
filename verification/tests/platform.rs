use umbra::crypto_wait::{
    arm, block_until_hash_done, disarm, hash_arm, on_hash_irq, on_saes_irq, FixedFlag, HASH_IMR,
    HASH_SR_ADDR, NVIC_ICER1, NVIC_ICPR1, NVIC_ISER1, SAES_ICR, SAES_IER,
};
use umbra::mmio::{MmioMem, MmioOp};
use umbra::mpu::{configure_enclave_regions, MPU_BASE_ADDR};
use umbra::prefetch::{plan_tail, switch_plan, AsyncEss, MpuEvict, Overlay, ResidencyPlan};
use umbra::raw_print::{cstr_len, hex_digits, print_cstr, print_hex, print_hex_bytes, print_str};
use umbra::rcc::set_vtor_ns;
use umbra::state_store::{FlashProbeStore, RamSectorStore};
use umbra::state_flash::SimFlash;
use umbra::uart::{Uart, ISR_OFFSET, TDR_OFFSET, USART1_BASE_ADDR};

fn writes(log: &[MmioOp]) -> Vec<(u32, u32)> {
    log.iter()
        .filter_map(|op| match op {
            MmioOp::Write { addr, value } => Some((*addr, *value)),
            _ => None,
        })
        .collect()
}

fn ready_uart() -> MmioMem {
    let mut mem = MmioMem::new(USART1_BASE_ADDR);
    mem.preload_register(ISR_OFFSET, (1 << 7) | (1 << 6));
    mem
}

// ---------------------------------------------------------------- raw print

#[test]
fn hex_digits_are_uppercase_msb_first() {
    assert_eq!(&hex_digits(0x1234_ABCD), b"1234ABCD");
    assert_eq!(&hex_digits(0), b"00000000");
}

#[test]
fn print_hex_sends_eight_digits_to_tdr() {
    let mut mem = ready_uart();
    print_hex(&mut mem, 0xDEAD_BEEF).unwrap();
    let sent: Vec<u32> = writes(&mem.write_log()).iter().map(|w| w.1).collect();
    assert_eq!(sent, b"DEADBEEF".iter().map(|&b| b as u32).collect::<Vec<u32>>());
    assert!(writes(&mem.write_log()).iter().all(|w| w.0 == USART1_BASE_ADDR + TDR_OFFSET));
}

#[test]
fn print_hex_bytes_is_lowercase_pairs() {
    let mut mem = ready_uart();
    print_hex_bytes(&mut mem, &[0x0A, 0xF3]).unwrap();
    let sent: Vec<u8> = writes(&mem.write_log()).iter().map(|w| w.1 as u8).collect();
    assert_eq!(sent, b"0af3".to_vec());
}

#[test]
fn print_cstr_stops_at_nul() {
    assert_eq!(cstr_len(b"hi\0there"), 2);
    assert_eq!(cstr_len(b"abc"), 3);
    let mut mem = ready_uart();
    print_cstr(&mut mem, b"ok\0no").unwrap();
    let sent: Vec<u8> = writes(&mem.write_log()).iter().map(|w| w.1 as u8).collect();
    assert_eq!(sent, b"ok".to_vec());
}

#[test]
fn print_str_times_out_on_a_stuck_uart() {
    let mut mem = MmioMem::new(USART1_BASE_ADDR);
    assert!(print_str(&mut mem, "x").is_err());
    assert!(writes(&mem.write_log()).is_empty());
}

#[test]
fn calibrate_and_configure_sweeps_every_divisor() {
    let mut uart = Uart::new_with_mmio(ready_uart());
    uart.calibrate_and_configure().unwrap();
    let w = writes(&uart.mmio().write_log());
    // 25 steps of 4 configuration writes and 8 characters ("OK@nnn\r\n").
    assert_eq!(w.len(), 25 * 12);
    assert_eq!(w[2], (USART1_BASE_ADDR + 0x0C, 69));
    let first: Vec<u8> = w[4..12].iter().map(|x| x.1 as u8).collect();
    assert_eq!(first, b"OK@008\r\n".to_vec());
    assert_eq!(w[24 * 12 + 2], (USART1_BASE_ADDR + 0x0C, 5208));
}

// ---------------------------------------------------------------- MPU

#[test]
fn enclave_regions_program_stack_code_and_windows() {
    let mut mpu = MmioMem::new(MPU_BASE_ADDR);
    configure_enclave_regions(&mut mpu, 0x3410_0000, 0x800, Some((0x3400_0000, 0x400)));
    let w = writes(&mpu.write_log());
    assert_eq!(w.len(), 18);
    assert_eq!(w[0], (MPU_BASE_ADDR + 0x08, 4));
    assert_eq!(w[1], (MPU_BASE_ADDR + 0x0C, 0x340F_F800 | 0x3));
    assert_eq!(w[2], (MPU_BASE_ADDR + 0x10, 0x340F_FFE0 | 0x1));
    assert_eq!(w[3], (MPU_BASE_ADDR + 0x08, 5));
    assert_eq!(w[4], (MPU_BASE_ADDR + 0x0C, 0x3400_0000 | 0x2));
    assert_eq!(w[5], (MPU_BASE_ADDR + 0x10, 0x3400_03E0 | 0x1));
    assert_eq!(w[15], (MPU_BASE_ADDR + 0x08, 9));
}

// ---------------------------------------------------------------- prefetch decisions

#[test]
fn entry_block_is_hidden_once_and_restored_once() {
    let mut mpu = MmioMem::new(MPU_BASE_ADDR);
    let mut e = MpuEvict::new();
    e.evict_front(&mut mpu, 0x3400_0000, 0x3400_0FFF, 256);
    assert_eq!(writes(&mpu.write_log())[1], (MPU_BASE_ADDR + 0x0C, 0x3400_0100 | 0x6));
    e.evict_front(&mut mpu, 0x3400_0000, 0x3400_0FFF, 256);
    assert_eq!(writes(&mpu.write_log()).len(), 3);
    assert!(!e.restore(&mut mpu, 0x3400_0200));
    assert!(e.restore(&mut mpu, 0x3400_0010));
    assert_eq!(writes(&mpu.write_log())[4], (MPU_BASE_ADDR + 0x0C, 0x3400_0000 | 0x6));
    assert!(!e.restore(&mut mpu, 0x3400_0010));
}

#[test]
fn tail_plan_takes_the_back_half() {
    assert_eq!(plan_tail(0x3400_0FFF, 0x1000), Some((0x3400_0800, 0x800, 8)));
    assert_eq!(plan_tail(0x3400_00FF, 0x100), None);
    // Capped by the 8 KB backing.
    assert_eq!(plan_tail(0x3400_7FFF, 0x8000), Some((0x3400_6000, 0x2000, 32)));
}

#[test]
fn tail_is_revealed_by_whichever_comes_first() {
    let mut mpu = MmioMem::new(MPU_BASE_ADDR);
    let mut a = AsyncEss::new();
    let (lo, len, _) = a.begin_arm(0x3400_0FFF, 0x1000).unwrap();
    assert!(a.begin_arm(0x3400_0FFF, 0x1000).is_none());
    a.hide_tail(&mut mpu, 0x3400_0000, 0x3400_0FFF, lo, len);
    assert!(a.claims_fault(0x3400_0900));
    assert!(!a.claims_fault(0x3400_0100));
    a.on_prefetch_done(&mut mpu);
    assert!(!a.claims_fault(0x3400_0900));
    let n = writes(&mpu.write_log()).len();
    a.finish_fault_recovery(&mut mpu);
    assert_eq!(writes(&mpu.write_log()).len(), n);
}

#[test]
fn overlay_residency_plans() {
    let mut o = Overlay::new();
    assert_eq!(o.make_resident(0, true), ResidencyPlan { switched: true, evict: None, restore: false });
    assert_eq!(o.make_resident(0, false), ResidencyPlan { switched: false, evict: None, restore: false });
    assert_eq!(o.make_resident(1, false), ResidencyPlan { switched: true, evict: Some(0), restore: true });
    assert_eq!(o.evict_current(), Some(1));
    assert_eq!(o.resident(), None);
    o.set_resident(0);
    assert_eq!(o.resident(), Some(0));
}

// ---------------------------------------------------------------- interrupt wiring

#[test]
fn saes_irq_wiring() {
    let mut bus = MmioMem::new(0);
    bus.preload_register(SAES_IER, 0x3);
    arm(&mut bus);
    on_saes_irq(&mut bus);
    disarm(&mut bus);
    let w = writes(&bus.write_log());
    assert_eq!(w[0], (NVIC_ICPR1, 1 << 4));
    assert_eq!(w[1], (SAES_IER, 0x3));
    assert_eq!(w[2], (NVIC_ISER1, 1 << 4));
    assert_eq!(w[3], (SAES_ICR, 1));
    assert_eq!(w[4], (SAES_IER, 0x2));
    assert_eq!(w[6], (NVIC_ICER1, 1 << 4));
}

#[test]
fn hash_irq_setup_runs_once() {
    let mut bus = MmioMem::new(0);
    let mut setup = false;
    hash_arm(&mut bus, &mut setup);
    assert!(setup);
    let first = bus.write_log().len();
    hash_arm(&mut bus, &mut setup);
    assert_eq!(first, 10);
    assert_eq!(bus.write_log().len(), 12);
    on_hash_irq(&mut bus);
    assert_eq!(bus.peek(HASH_IMR) & (1 << 1), 0);
}

#[test]
fn hash_wait_ends_on_flag_or_status() {
    let mut bus = MmioMem::new(0);
    let mut set = FixedFlag::new(true);
    block_until_hash_done(&mut set, &mut bus);
    assert_eq!(bus.write_log().len(), 2);
    let mut bus = MmioMem::new(0);
    bus.preload_register(HASH_SR_ADDR, 1 << 1);
    let mut clear = FixedFlag::new(false);
    block_until_hash_done(&mut clear, &mut bus);
    assert_eq!(bus.write_log().len(), 3);
}

#[test]
fn set_vtor_ns_writes_scb_ns_vtor() {
    let mut bus = MmioMem::new(0);
    set_vtor_ns(&mut bus, 0x2400_0000);
    assert_eq!(bus.write_log(), vec![MmioOp::Write { addr: 0xE002_ED08, value: 0x2400_0000 }]);
}

#[test]
fn backup_domain_bring_up_sequences() {
    let mut bus = MmioMem::new(0);
    umbra::tamp_store::init_backup_domain(&mut bus);
    let w = writes(&bus.write_log());
    assert_eq!(w, vec![
        (0x5602_8274, (1 << 16) | (1 << 17)),
        (0x5602_482C, 1),
        (0x5600_4420, 32 << 16),
        (0x5602_4870, 1 << 5),
    ]);
    let mut bus = MmioMem::new(0);
    umbra::bkpsram::init_backup_domain(&mut bus);
    assert_eq!(writes(&bus.write_log()), vec![(0x5602_824C, 1 << 6), (0x5602_482C, 1), (0x5602_4828, 1)]);
}

// ---------------------------------------------------------------- state stores

#[test]
fn ram_sector_store_stages_and_tampers() {
    let mut s = RamSectorStore::new();
    s.set_pending(0xA5);
    s.stage(3, 1).unwrap();
    let mut mem = MmioMem::new(umbra::hash::HASH_BASE_ADDR);
    mem.preload_register(umbra::hash::HASH_SR_OFFSET, 0x3);
    let mut hash = umbra::hash::Hash::new_with_mmio(mem);
    assert!(s.read_digest(&mut hash, 3, 1).is_ok());
    s.tamper(3, 1);
}

#[test]
fn flash_probe_store_writes_the_index_pattern() {
    let mut flash = SimFlash::new(0x02);
    let mut scb = MmioMem::new(0xE000_ED00);
    let mut store = FlashProbeStore;
    assert_eq!(store.stage(&mut flash, &mut scb, 5, 0), Ok(()));
    assert_eq!(flash.programmed().len(), 16);
    assert_eq!(store.stage(&mut flash, &mut scb, 99, 0), Err(()));
}

#[test]
fn switch_plan_reveals_the_resume_chunk_clamped_to_the_extent() {
    let w = 0x340E_0000;
    // Resume in chunk 3, hot chunk 5, extent covering the whole window.
    let p = switch_plan(Some(3), 5, w, w, w + 0x3FFF);
    assert_eq!(p.k, 3);
    assert_eq!(p.hot, Some(5));
    assert_eq!(p.reveal, Some((w + 3 * 2048, w + 4 * 2048 - 1)));
    assert_eq!(p.hot_reveal, Some((w + 5 * 2048, w + 6 * 2048 - 1)));
    // The hot chunk equal to k, or out of range, is dropped.
    assert_eq!(switch_plan(Some(3), 3, w, w, w + 0x3FFF).hot, None);
    assert_eq!(switch_plan(Some(3), 0xFF, w, w, w + 0x3FFF).hot, None);
    // Outside the window the resume chunk is 0; an extent above chunk 0
    // leaves nothing to reveal, so nothing is revealed early.
    let p = switch_plan(None, 5, w, w + 0x1000, w + 0x1FFF);
    assert_eq!(p.k, 0);
    assert_eq!(p.reveal, None);
    assert_eq!(p.hot_reveal, None);
    // A partial overlap is clamped.
    let p = switch_plan(Some(0), 9, w, w + 0x100, w + 0x3FFF);
    assert_eq!(p.reveal, Some((w + 0x100, w + 2047)));
}

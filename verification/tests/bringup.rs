use std::cell::RefCell;
use std::collections::HashMap;
use std::rc::Rc;

use umbra::bringup::{
    enable_fault_handlers, open_host_memory, prepare_untrusted_boot, IWDG_KR, NVIC_ITNS1, SCB_SHCSR,
    SYST_CSR, enable_dev_debug, PORTN_AFRH_AF9, PORTN_AFRH_MASK, PORTN_AFRL_AF9, PORTN_AFRL_MASK,
    PORTN_PINS_2BIT, PORTN_PINS_AF_MODE, init_uart, BANNER, BSEC_AP_UNLOCK, BSEC_DBGCR, dcache_invalidate_all, init_clocks, init_external_flash, resecure_npu_risup, rifsc_unlock,
    ClockOutcome, RCC_CCR, RCC_CFGR1, RCC_CSR, RCC_IC2CFGR, RCC_PLL1CFGR1, RCC_PLL3CFGR1, RCC_SR,
    RIFSC_BASE, RIFSC_PRIVCFGR0, RIFSC_RCFGLOCKR0, RIFSC_SECCFGR0, RIFSC_SECCFGR3, SCB_CCR,
    SCB_CCSIDR, SCB_DCISW, XSPI2_CR, XSPI2_DR, XSPI2_FCR, XSPI2_SR,
};
use umbra::crypto_engine::UmbraError;
use umbra::mce::{MCE2_BASE, REGCR1_OFFSET};
use umbra::mmio::{MmioMem, MmioOp, PortMmio, RegisterPort};
use umbra::platform::Stm32n657Platform;
use umbra::rcc::SCB_NS_VTOR;
use umbra::regprog::{run_program, RegStep};
use umbra::risaf::{Risaf, RisafInstance};
use umbra::uart::{UartError, BRR_OFFSET, CR1_OFFSET, ISR_OFFSET, PRESC_OFFSET, TDR_OFFSET, USART1_BASE_ADDR};

fn writes(log: &[MmioOp]) -> Vec<(u32, u32)> {
    log.iter()
        .filter_map(|op| match op {
            MmioOp::Write { addr, value } => Some((*addr, *value)),
            _ => None,
        })
        .collect()
}

/// A register map that behaves like the RCC where it matters: CSR sets and
/// CCR clears ready bits in SR, CFGR1 reports the selected clocks back.
struct ChipState {
    regs: HashMap<u32, u32>,
    stores: Vec<(u32, u32)>,
    locked_seccfgr3: bool,
}

#[derive(Clone)]
struct ChipSim(Rc<RefCell<ChipState>>);

impl ChipSim {
    fn new() -> Self {
        let mut regs = HashMap::new();
        regs.insert(RCC_SR, 1 << 3);
        ChipSim(Rc::new(RefCell::new(ChipState { regs, stores: Vec::new(), locked_seccfgr3: false })))
    }

    fn set(&self, addr: u32, value: u32) {
        self.0.borrow_mut().regs.insert(addr, value);
    }

    fn stores(&self) -> Vec<(u32, u32)> {
        self.0.borrow().stores.clone()
    }
}

impl RegisterPort for ChipSim {
    fn load(&mut self, addr: u32) -> u32 {
        *self.0.borrow().regs.get(&addr).unwrap_or(&0)
    }

    fn store(&mut self, addr: u32, value: u32) {
        let mut st = self.0.borrow_mut();
        st.stores.push((addr, value));
        if addr == RCC_CSR {
            *st.regs.entry(RCC_SR).or_insert(0) |= value;
        } else if addr == RCC_CCR {
            *st.regs.entry(RCC_SR).or_insert(0) &= !value;
        } else if addr == RCC_CFGR1 {
            let cpu = (value >> 16) & 3;
            let sys = (value >> 24) & 3;
            let v = (value & !((3 << 20) | (3 << 28))) | (cpu << 20) | (sys << 28);
            st.regs.insert(addr, v);
        } else if addr == RIFSC_SECCFGR3 && st.locked_seccfgr3 {
            // the boot ROM's lock: the write is ignored
        } else {
            st.regs.insert(addr, value);
        }
    }

    fn fence(&mut self) {}

    fn relax(&mut self) {}
}

// ---------------------------------------------------------------- programs

#[test]
fn program_update_clears_then_sets() {
    let mut mem = MmioMem::new(0);
    mem.preload_register(0x100, 0xFF);
    let prog = [
        RegStep::Update { addr: 0x100, clear: 0x0F, set: 0x100 },
        RegStep::Put { addr: 0x104, value: 7 },
        RegStep::Fence,
        RegStep::Pause { count: 3 },
        RegStep::Touch { addr: 0x104 },
    ];
    assert_eq!(run_program(&mut mem, &prog), Ok(()));
    assert_eq!(mem.peek(0x100), 0x1F0);
    assert_eq!(
        mem.write_log(),
        vec![
            MmioOp::Read { addr: 0x100, value: 0xFF },
            MmioOp::Write { addr: 0x100, value: 0x1F0 },
            MmioOp::Write { addr: 0x104, value: 7 },
            MmioOp::Read { addr: 0x104, value: 7 },
        ]
    );
}

#[test]
fn program_stops_at_a_wait_that_never_ends() {
    let mut mem = MmioMem::new(0);
    let prog = [
        RegStep::Put { addr: 0x10, value: 1 },
        RegStep::Await { addr: 0x20, mask: 1, want: 1 },
        RegStep::Put { addr: 0x30, value: 1 },
    ];
    assert_eq!(run_program(&mut mem, &prog), Err(1));
    assert_eq!(writes(&mem.write_log()), vec![(0x10, 1)]);
}

#[test]
fn bounded_wait_goes_on_after_its_budget() {
    let mut mem = MmioMem::new(0);
    let prog = [
        RegStep::AwaitUpTo { addr: 0x20, mask: 1, want: 1, limit: 5 },
        RegStep::Put { addr: 0x30, value: 9 },
    ];
    assert_eq!(run_program(&mut mem, &prog), Ok(()));
    let log = mem.write_log();
    assert_eq!(log.len(), 6);
    assert!(log[..5].iter().all(|op| *op == MmioOp::Read { addr: 0x20, value: 0 }));
    assert_eq!(log[5], MmioOp::Write { addr: 0x30, value: 9 });
}

// ---------------------------------------------------------------- RIFSC

#[test]
fn rifsc_unlock_keeps_locked_bits() {
    let mut mem = MmioMem::new(0);
    mem.preload_register(RIFSC_SECCFGR0 + 4, 0xFF);
    mem.preload_register(RIFSC_PRIVCFGR0 + 4, 0x0F);
    mem.preload_register(RIFSC_RCFGLOCKR0 + 4, 0xF0);
    mem.preload_register(RIFSC_SECCFGR0, 0xFFFF);
    rifsc_unlock(&mut mem);
    assert_eq!(mem.peek(RIFSC_SECCFGR0), 0);
    assert_eq!(mem.peek(RIFSC_SECCFGR0 + 4), 0xF0);
    assert_eq!(mem.peek(RIFSC_PRIVCFGR0 + 4), 0x00);
    // 1 + 5 pairs of (lock read, two writes) + 1 pair of five accesses
    assert_eq!(mem.write_log().len(), 1 + 5 * 3 + 5);
}

#[test]
fn rifsc_unlock_does_nothing_under_global_lock() {
    let mut mem = MmioMem::new(0);
    mem.preload_register(RIFSC_BASE, 1);
    rifsc_unlock(&mut mem);
    assert_eq!(mem.write_log(), vec![MmioOp::Read { addr: RIFSC_BASE, value: 1 }]);
}

#[test]
fn npu_port_resecure_reads_back() {
    let mut mem = MmioMem::new(0);
    mem.preload_register(RIFSC_SECCFGR3, 0x3);
    assert_eq!(resecure_npu_risup(&mut mem), Ok(()));
    assert_eq!(mem.peek(RIFSC_SECCFGR3), 0x403);

    let sim = ChipSim::new();
    sim.0.borrow_mut().locked_seccfgr3 = true;
    let mut bus = PortMmio::new(sim, 0);
    assert_eq!(
        resecure_npu_risup(&mut bus),
        Err(UmbraError::MemProtectDenied { addr: RIFSC_SECCFGR3 })
    );
}

// ---------------------------------------------------------------- caches

#[test]
fn dcache_sweep_goes_sets_then_ways_downwards() {
    let mut mem = MmioMem::new(0);
    dcache_invalidate_all(&mut mem, 1, 1);
    assert_eq!(
        writes(&mem.write_log()),
        vec![
            (SCB_DCISW, (1 << 30) | (1 << 5)),
            (SCB_DCISW, 1 << 5),
            (SCB_DCISW, 1 << 30),
            (SCB_DCISW, 0),
        ]
    );
}

// ---------------------------------------------------------------- clocks

#[test]
fn clocks_come_up_on_a_responsive_rcc() {
    let sim = ChipSim::new();
    // one-set, two-way data cache
    sim.set(SCB_CCSIDR, 1 << 3);
    let mut bus = PortMmio::new(sim, 0);
    let out = Stm32n657Platform::new().init_clocks(&mut bus);
    assert_eq!(out, ClockOutcome::Done { npu_port: Ok(()) });
}

#[test]
fn clocks_program_the_plls_and_caches() {
    let sim = ChipSim::new();
    sim.set(SCB_CCSIDR, 1 << 3);
    let mut bus = PortMmio::new(sim.clone(), 0);
    assert_eq!(init_clocks(&mut bus), ClockOutcome::Done { npu_port: Ok(()) });
    let w = sim.stores();
    let pos = |x: (u32, u32)| w.iter().position(|&y| y == x).unwrap();
    // PLL1 is reprogrammed only after it was switched off
    assert!(pos((RCC_CCR, 1 << 8)) < pos((RCC_PLL1CFGR1, (2 << 20) | (25 << 8))));
    assert!(pos((RCC_PLL1CFGR1, (2 << 20) | (25 << 8))) < pos((RCC_CSR, 1 << 8)));
    assert!(w.contains(&(RCC_IC2CFGR, 1 << 16)));
    assert!(w.contains(&(RCC_PLL3CFGR1, (8 << 20) | (225 << 8))));
    // both ways of the single set, way 1 first
    let dcisw: Vec<u32> = w.iter().filter(|x| x.0 == SCB_DCISW).map(|x| x.1).collect();
    assert_eq!(dcisw, vec![1 << 30, 0]);
    // instruction cache enabled before the data cache
    let ccr: Vec<u32> = w.iter().filter(|x| x.0 == SCB_CCR).map(|x| x.1).collect();
    assert_eq!(ccr, vec![1 << 17, (1 << 17) | (1 << 16)]);
}

#[test]
fn clocks_stop_where_a_status_never_shows() {
    // a plain register file never reports PLL1 locked
    let mut mem = MmioMem::new(0);
    mem.preload_register(RCC_SR, 1 << 3);
    assert_eq!(init_clocks(&mut mem), ClockOutcome::Stuck { step: 17 });
    let w = writes(&mem.write_log());
    assert!(w.contains(&(RCC_PLL1CFGR1, (2 << 20) | (25 << 8))));
    assert!(w.contains(&(RCC_CSR, 1 << 8)));
    assert!(!w.contains(&(RCC_IC2CFGR, 1 << 16)));
    assert!(!w.iter().any(|&(a, _)| a == RCC_PLL3CFGR1 || a == SCB_CCR));
}

#[test]
fn clocks_go_on_when_the_npu_port_is_locked() {
    let sim = ChipSim::new();
    sim.0.borrow_mut().locked_seccfgr3 = true;
    let mut bus = PortMmio::new(sim, 0);
    assert_eq!(
        init_clocks(&mut bus),
        ClockOutcome::Done { npu_port: Err(UmbraError::MemProtectDenied { addr: RIFSC_SECCFGR3 }) }
    );
}

// ---------------------------------------------------------------- external flash

#[test]
fn external_flash_maps_with_id_read() {
    let mut mem = MmioMem::new(0);
    mem.preload_register(XSPI2_SR, 2);
    mem.preload_register(XSPI2_DR, 0xC2_25_3A);
    mem.preload_register(MCE2_BASE + REGCR1_OFFSET, 0x0000_0101);
    assert!(Stm32n657Platform::new().init_external_flash(&mut mem));
    let log = mem.write_log();
    assert!(log.contains(&MmioOp::Read { addr: XSPI2_DR, value: 0xC2_25_3A }));
    assert!(log.contains(&MmioOp::Read { addr: 0x7000_0000, value: 0 }));
    assert_eq!(mem.peek(XSPI2_CR), (3 << 28) | 1);
    assert_eq!(mem.peek(MCE2_BASE + REGCR1_OFFSET), 0x0000_0100);
    assert_eq!(mem.peek(XSPI2_FCR), 2);
}

#[test]
fn external_flash_skips_the_id_when_the_read_did_not_finish() {
    let mut mem = MmioMem::new(0);
    assert!(init_external_flash(&mut mem));
    let log = mem.write_log();
    assert!(!log.iter().any(|op| matches!(op, MmioOp::Read { addr, .. } if *addr == XSPI2_DR)));
    assert_eq!(mem.peek(XSPI2_CR), (3 << 28) | 1);
}

// ---------------------------------------------------------------- console

#[test]
fn console_comes_up_at_115200_on_hsi_and_prints_the_banner() {
    let mut mem = MmioMem::new(USART1_BASE_ADDR);
    mem.preload_register(ISR_OFFSET, (1 << 7) | (1 << 6));
    assert_eq!(Stm32n657Platform::new().init_uart(&mut mem), Ok(()));
    let w = writes(&mem.write_log());
    assert_eq!(
        w[..4].to_vec(),
        vec![
            (USART1_BASE_ADDR + CR1_OFFSET, 0),
            (USART1_BASE_ADDR + PRESC_OFFSET, 0),
            (USART1_BASE_ADDR + BRR_OFFSET, 556),
            (USART1_BASE_ADDR + CR1_OFFSET, 9),
        ]
    );
    let text: Vec<u8> = w[4..].iter().map(|x| {
        assert_eq!(x.0, USART1_BASE_ADDR + TDR_OFFSET);
        x.1 as u8
    }).collect();
    assert_eq!(text, BANNER.as_bytes().to_vec());
    assert!(String::from_utf8(text).unwrap().ends_with("[UMBRASecureBoot] Secure Boot started\n"));
}

#[test]
fn console_times_out_without_a_transmitter() {
    let mut mem = MmioMem::new(USART1_BASE_ADDR);
    assert_eq!(init_uart(&mut mem), Err(UartError::Timeout));
    assert_eq!(writes(&mem.write_log()).len(), 4);
}

#[test]
fn dev_debug_opens_the_access_port_first() {
    let mut mem = MmioMem::new(0);
    enable_dev_debug(&mut mem);
    assert_eq!(
        writes(&mem.write_log()),
        vec![(BSEC_AP_UNLOCK, 0xB451_B400), (BSEC_DBGCR, 0xB451_B400)]
    );
}

// ---------------------------------------------------------------- security set-up

#[test]
fn fault_handlers_are_enabled_keeping_other_bits() {
    let mut mem = MmioMem::new(0);
    mem.preload_register(SCB_SHCSR, 0x1);
    enable_fault_handlers(&mut mem);
    assert_eq!(mem.peek(SCB_SHCSR), 0x000F_0001);
    assert_eq!(writes(&mem.write_log()).last(), Some(&(IWDG_KR, 0xAAAA)));
}

#[test]
fn host_memory_window_spans_two_risaf_instances() {
    let mut r7 = Risaf::new_with_mmio(MmioMem::new(RisafInstance::Risaf7.mmio_base()));
    let mut r2 = Risaf::new_with_mmio(MmioMem::new(RisafInstance::Risaf2.mmio_base()));
    open_host_memory(&mut r7, &mut r2);
    let w7 = writes(&r7.mmio().write_log());
    let w2 = writes(&r2.mmio().write_log());
    assert_eq!(w7.len(), 6);
    assert_eq!(w2.len(), 12);
    let b7 = RisafInstance::Risaf7.mmio_base();
    let b2 = RisafInstance::Risaf2.mmio_base();
    // region 1 of RISAF7: FLEXRAM, Non-Secure, enabled last
    assert_eq!(w7[1], (b7 + 0x44, 0x3400_0000));
    assert_eq!(w7[2], (b7 + 0x48, 0x3406_3FFF));
    assert_eq!(w7[5], (b7 + 0x40, 1));
    // region 2 of RISAF2: the enclave area stays Secure
    assert_eq!(w2[7], (b2 + 0x84, 0x340E_0000));
    assert_eq!(w2[11], (b2 + 0x80, (1 << 8) | 1));
}

#[test]
fn untrusted_boot_preparation_routes_npu_irqs() {
    let mut mem = MmioMem::new(0);
    mem.preload_register(NVIC_ITNS1, 0x1);
    mem.preload_register(SYST_CSR, 0x7);
    prepare_untrusted_boot(&mut mem);
    assert_eq!(mem.peek(SYST_CSR), 0);
    assert_eq!(mem.peek(NVIC_ITNS1), 0x03E0_0001);
    assert_eq!(mem.peek(SCB_NS_VTOR), 0x2400_0000);
}

#[test]
fn port_n_masks_cover_the_xspi_pins() {
    let pins = [1u32, 2, 3, 4, 5, 6, 8, 9, 10, 11];
    let two_bit: u32 = pins.iter().map(|p| 0b11 << (p * 2)).fold(0, |a, b| a | b);
    let af_mode: u32 = pins.iter().map(|p| 0b10 << (p * 2)).fold(0, |a, b| a | b);
    assert_eq!(two_bit, PORTN_PINS_2BIT);
    assert_eq!(af_mode, PORTN_PINS_AF_MODE);
    let low = &pins[..6];
    let high = &pins[6..];
    assert_eq!(low.iter().map(|p| 0xF << (p * 4)).fold(0u32, |a, b| a | b), PORTN_AFRL_MASK);
    assert_eq!(low.iter().map(|p| 9 << (p * 4)).fold(0u32, |a, b| a | b), PORTN_AFRL_AF9);
    assert_eq!(high.iter().map(|p| 0xF << ((p - 8) * 4)).fold(0u32, |a, b| a | b), PORTN_AFRH_MASK);
    assert_eq!(high.iter().map(|p| 9 << ((p - 8) * 4)).fold(0u32, |a, b| a | b), PORTN_AFRH_AF9);
}

use umbra::mmio::{MmioMem, MmioOp};
use umbra::uart::{ISR_OFFSET, TDR_OFFSET, USART1_BASE_ADDR};
use umbra::uart_bridge::{
    bridge_read, bridge_write, request_system_reset, rx_byte, BridgeError, ICR_OFFSET, ISR_ORE,
    ISR_RXNE, RDR_OFFSET, RX_TIMEOUT_SPINS, SCB_AIRCR,
};

fn uart_with(isr: u32, rdr: u32) -> MmioMem {
    let mut mem = MmioMem::new(USART1_BASE_ADDR);
    mem.preload_register(ISR_OFFSET, isr);
    mem.preload_register(RDR_OFFSET, rdr);
    mem
}

fn writes(log: &[MmioOp]) -> Vec<(u32, u32)> {
    log.iter()
        .filter_map(|op| match op {
            MmioOp::Write { addr, value } => Some((*addr, *value)),
            _ => None,
        })
        .collect()
}

#[test]
fn rx_takes_the_low_byte_of_rdr() {
    let mut mem = uart_with(ISR_RXNE, 0x141);
    assert_eq!(rx_byte(&mut mem), Some(0x41));
    assert!(writes(&mem.write_log()).is_empty());
}

#[test]
fn rx_clears_an_overrun_while_polling() {
    let mut mem = uart_with(ISR_RXNE | ISR_ORE, 0x7A);
    assert_eq!(rx_byte(&mut mem), Some(0x7A));
    assert_eq!(writes(&mem.write_log()), vec![(USART1_BASE_ADDR + ICR_OFFSET, 1 << 3)]);
}

#[test]
fn rx_gives_up_after_the_timeout() {
    let mut mem = uart_with(0, 0);
    assert_eq!(rx_byte(&mut mem), None);
    assert_eq!(mem.write_log().len(), RX_TIMEOUT_SPINS as usize + 1);
}

#[test]
fn bridge_read_refuses_buffers_outside_host_ram() {
    let mut mem = uart_with(ISR_RXNE, 0x55);
    assert_eq!(bridge_read(&mut mem, 0x3400_0000, 4), None);
    assert_eq!(bridge_read(&mut mem, 0x240F_FFFE, 4), None);
    assert_eq!(bridge_read(&mut mem, 0xFFFF_FFFF, 2), None);
    assert!(mem.write_log().is_empty());
}

#[test]
fn bridge_read_fills_the_requested_count() {
    let mut mem = uart_with(ISR_RXNE, 0x55);
    assert_eq!(bridge_read(&mut mem, 0x2400_1000, 3), Some(vec![0x55, 0x55, 0x55]));
}

#[test]
fn bridge_read_stops_short_on_a_stalled_frame() {
    let mut mem = uart_with(0, 0);
    assert_eq!(bridge_read(&mut mem, 0x2400_1000, 3), Some(vec![]));
}

#[test]
fn bridge_write_sends_each_byte_to_tdr() {
    let mut mem = uart_with(1 << 7, 0);
    assert_eq!(bridge_write(&mut mem, 0x2400_0000, b"OK"), Ok(()));
    assert_eq!(
        writes(&mem.write_log()),
        vec![(USART1_BASE_ADDR + TDR_OFFSET, b'O' as u32), (USART1_BASE_ADDR + TDR_OFFSET, b'K' as u32)]
    );
    assert_eq!(bridge_write(&mut mem, 0x2410_0000, b"x"), Err(BridgeError::BadPointer));
}

#[test]
fn bridge_write_times_out_on_a_full_transmitter() {
    let mut mem = uart_with(0, 0);
    assert_eq!(bridge_write(&mut mem, 0x2400_0000, b"OK"), Err(BridgeError::Timeout));
    assert!(writes(&mem.write_log()).is_empty());
}

#[test]
fn reset_waits_for_the_console_then_requests_sysreset() {
    let mut bus = MmioMem::new(0);
    bus.preload_register(USART1_BASE_ADDR + ISR_OFFSET, 1 << 6);
    request_system_reset(&mut bus);
    assert_eq!(writes(&bus.write_log()), vec![(SCB_AIRCR, 0x05FA_0004)]);
    assert_eq!(bus.write_log().len(), 2);
}

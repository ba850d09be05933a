use std::cell::RefCell;
use std::rc::Rc;

use umbra::hdpl::{
    is_hdpl2, raise_hdpl_to_2, HdplError, HdplOutcome, BSEC_BASE, BSEC_HDPLCR_OFFSET,
    BSEC_HDPLSR_OFFSET, HDPL_INCREMENT_CODE,
};
use umbra::mmio::{MmioMem, MmioOp, PortMmio, RegisterPort};
use umbra::uart::{ISR_OFFSET, USART1_BASE_ADDR};

fn console() -> MmioMem {
    let mut mem = MmioMem::new(USART1_BASE_ADDR);
    mem.preload_register(ISR_OFFSET, (1 << 7) | (1 << 6));
    mem
}

fn text(uart: &MmioMem) -> String {
    let bytes: Vec<u8> = uart
        .write_log()
        .iter()
        .filter_map(|op| match op {
            MmioOp::Write { value, .. } => Some(*value as u8),
            _ => None,
        })
        .collect();
    String::from_utf8(bytes).unwrap()
}

/// BSEC whose level counter steps from HDPL1 to HDPL2 on the increment code.
#[derive(Clone)]
struct LevelCounter(Rc<RefCell<u32>>);

impl RegisterPort for LevelCounter {
    fn load(&mut self, addr: u32) -> u32 {
        assert_eq!(addr, BSEC_BASE + BSEC_HDPLSR_OFFSET);
        *self.0.borrow()
    }

    fn store(&mut self, addr: u32, value: u32) {
        assert_eq!(addr, BSEC_BASE + BSEC_HDPLCR_OFFSET);
        if value == HDPL_INCREMENT_CODE {
            let mut v = self.0.borrow_mut();
            *v = match *v & 0xFF {
                0xB4 => 0x51,
                0x51 => 0x8A,
                _ => 0x6F,
            };
        }
    }

    fn fence(&mut self) {}

    fn relax(&mut self) {}
}

#[test]
fn level_code_is_the_low_byte() {
    assert!(is_hdpl2(0x8A));
    assert!(is_hdpl2(0xDEAD_BE8A));
    assert!(!is_hdpl2(0x51));
    assert!(!is_hdpl2(2));
}

#[test]
fn already_at_two_writes_nothing() {
    let mut bsec = MmioMem::new(BSEC_BASE);
    bsec.preload_register(BSEC_HDPLSR_OFFSET, 0x8A);
    let mut uart = console();
    assert_eq!(raise_hdpl_to_2(&mut bsec, &mut uart), Ok(HdplOutcome::AlreadyAt2));
    assert_eq!(bsec.write_log().len(), 1);
    assert_eq!(text(&uart), "[UMBRASecureBoot] HDPL already 2\r\n");
}

#[test]
fn one_increment_raises_hdpl1_to_two() {
    let level = LevelCounter(Rc::new(RefCell::new(0x51)));
    let mut bsec = PortMmio::new(level.clone(), BSEC_BASE);
    let mut uart = console();
    assert_eq!(raise_hdpl_to_2(&mut bsec, &mut uart), Ok(HdplOutcome::Raised));
    assert_eq!(*level.0.borrow(), 0x8A);
    assert_eq!(
        text(&uart),
        "[UMBRASecureBoot] HDPL before=0x00000051 after=0x0000008A\r\n\
         [UMBRASecureBoot] HDPL raised to 2 (DHUK@1 now unrecoverable)\r\n"
    );
}

#[test]
fn a_level_that_does_not_move_is_stuck() {
    let mut bsec = MmioMem::new(BSEC_BASE);
    bsec.preload_register(BSEC_HDPLSR_OFFSET, 0x51);
    let mut uart = console();
    assert_eq!(raise_hdpl_to_2(&mut bsec, &mut uart), Err(HdplError::Stuck));
    assert_eq!(
        bsec.write_log()[1],
        MmioOp::Write { addr: BSEC_BASE + BSEC_HDPLCR_OFFSET, value: HDPL_INCREMENT_CODE }
    );
    let t = text(&uart);
    assert!(t.starts_with("[UMBRASecureBoot] HDPL before=0x00000051 after=0x00000051\r\n"));
    assert!(t.ends_with("HDPL raise FAIL \u{2014} halt\r\n"));
}

#[test]
fn read_hdpl_returns_the_level_code() {
    let mut bsec = MmioMem::new(BSEC_BASE);
    bsec.preload_register(BSEC_HDPLSR_OFFSET, 0x1234_5651);
    assert_eq!(umbra::hdpl::read_hdpl(&mut bsec), 0x51);
    assert_eq!(bsec.write_log(), vec![MmioOp::Read { addr: BSEC_BASE + BSEC_HDPLSR_OFFSET, value: 0x1234_5651 }]);
}

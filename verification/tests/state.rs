use umbra::antirollback::BackupFloorCounter;
use umbra::crypto_wait::{block_until_done, CryptoWaitError, FixedFlag};
use umbra::mmio::{MmioAccess, MmioMem, MmioOp};
use umbra::state_anchor::{Anchor, StateAnchor, COPY_A_BASE, COPY_B_BASE, COPY_WORDS, ECHO_OFF};
use umbra::state_flash::{
    state_sector_addr, write_state_sector, SimFlash, StateFlashError, MAX_STATE_SECTORS,
    PHYS_SECTOR_SIZE, SLOT_COUNT, STATE_REGION_BASE,
};
use umbra::tamp_store::{TampStore, TAMP_BKP_BASE};

fn anchor(gen: u32, parity: u16) -> Anchor {
    Anchor { generation: gen, root: [gen as u8; 16], parity }
}

// ---------------------------------------------------------------- anchor

#[test]
fn anchor_round_trips() {
    let mem = MmioMem::new(TAMP_BKP_BASE);
    let mut a = StateAnchor::new_with_mmio(mem);
    a.store(&anchor(9, 0b1010));
    let r = a.load().unwrap();
    assert_eq!(r.generation, 9);
    assert_eq!(r.root, [9u8; 16]);
    assert_eq!(r.parity, 0b1010);
}

#[test]
fn cold_both_copies_unwritten_is_none() {
    let mem = MmioMem::new(TAMP_BKP_BASE);
    let mut a = StateAnchor::new_with_mmio(mem);
    assert!(a.load().is_none());
}

#[test]
fn newest_generation_wins() {
    let mem = MmioMem::new(TAMP_BKP_BASE);
    let mut a = StateAnchor::new_with_mmio(mem);
    a.store(&anchor(1, 0));
    a.store(&anchor(2, 0b1));
    assert_eq!(a.load().unwrap().generation, 2);
}

#[test]
fn torn_newest_write_falls_back_to_previous() {
    let mem = MmioMem::new(TAMP_BKP_BASE);
    let mut a = StateAnchor::new_with_mmio(mem);
    a.store(&anchor(1, 0));
    a.store(&anchor(2, 0b1));
    a.mmio_mut().write(COPY_B_BASE + ECHO_OFF, 0xBAD);
    let r = a.load().unwrap();
    assert_eq!(r.generation, 1, "torn newest → previous copy survives");
    assert_eq!(r.root, [1u8; 16]);
}

#[test]
fn store_targets_stale_copy_across_three_generations() {
    let mem = MmioMem::new(TAMP_BKP_BASE);
    let mut a = StateAnchor::new_with_mmio(mem);
    a.store(&anchor(1, 0));
    a.store(&anchor(2, 0));
    a.store(&anchor(3, 0));
    assert_eq!(a.load().unwrap().generation, 3);
    a.mmio_mut().write(COPY_A_BASE + ECHO_OFF, 0xBAD);
    assert_eq!(a.load().unwrap().generation, 2, "gen2 survivor was preserved");
}

#[test]
fn anchor_lives_past_the_code_version_floor() {
    assert!(COPY_A_BASE >= 12 * 4);
    assert!(COPY_B_BASE + COPY_WORDS * 4 <= 32 * 4);
}

#[test]
fn invalidate_makes_load_cold() {
    let mem = MmioMem::new(TAMP_BKP_BASE);
    let mut a = StateAnchor::new_with_mmio(mem);
    a.store(&anchor(4, 0b11));
    a.invalidate();
    assert!(a.load().is_none());
}

// ---------------------------------------------------------------- state flash

#[test]
fn sector_addr_is_erase_aligned_and_in_region() {
    let a = state_sector_addr(0, 0).unwrap();
    assert_eq!(a, STATE_REGION_BASE);
    assert_eq!(a % 0x1000, 0, "must be 4 KB erase-aligned");
    let last = state_sector_addr(MAX_STATE_SECTORS - 1, SLOT_COUNT - 1).unwrap();
    assert!(last + PHYS_SECTOR_SIZE as u32 <= STATE_REGION_BASE + 0x10_0000);
}

#[test]
fn ab_slots_and_indices_never_overlap() {
    let a0 = state_sector_addr(3, 0).unwrap();
    let a1 = state_sector_addr(3, 1).unwrap();
    let b0 = state_sector_addr(4, 0).unwrap();
    assert_eq!(a1 - a0, PHYS_SECTOR_SIZE as u32);
    assert_eq!(b0 - a0, (SLOT_COUNT as u32) * PHYS_SECTOR_SIZE as u32);
    assert_eq!(a0 % 0x1000, 0);
    assert_eq!(a1 % 0x1000, 0);
}

#[test]
fn out_of_range_is_rejected() {
    assert!(matches!(
        state_sector_addr(MAX_STATE_SECTORS, 0),
        Err(StateFlashError::IndexOutOfRange)
    ));
    assert!(matches!(state_sector_addr(0, SLOT_COUNT), Err(StateFlashError::SlotOutOfRange)));
}

#[test]
fn write_state_sector_erases_then_programs_sixteen_pages() {
    let mut flash = SimFlash::new(0x02);
    let mut scb = MmioMem::new(0xE000_ED00);
    let bytes = [0x5Au8; 4096];
    write_state_sector(&mut flash, &mut scb, 2, 1, &bytes).unwrap();
    let base = state_sector_addr(2, 1).unwrap();
    assert_eq!(flash.erased(), &vec![base]);
    let pages: Vec<u32> = (0..16).map(|i| base + 256 * i).collect();
    assert_eq!(flash.programmed(), &pages);
    // One DCIMVAC write per 32-byte line of the subsector, in address order.
    let log = scb.write_log();
    assert_eq!(log.len(), 4096 / 32);
    for (i, op) in log.iter().enumerate() {
        assert_eq!(*op, MmioOp::Write { addr: 0xE000_ED00 + 0xF5C, value: base + 32 * i as u32 });
    }
}

#[test]
fn write_state_sector_fails_when_wel_never_latches() {
    let mut flash = SimFlash::new(0x00);
    let mut scb = MmioMem::new(0xE000_ED00);
    let bytes = [0u8; 4096];
    assert_eq!(
        write_state_sector(&mut flash, &mut scb, 0, 0, &bytes),
        Err(StateFlashError::WriteEnableFailed)
    );
    assert!(flash.erased().is_empty());
    let before = scb.write_log().len();
    assert_eq!(
        write_state_sector(&mut flash, &mut scb, MAX_STATE_SECTORS, 0, &bytes),
        Err(StateFlashError::IndexOutOfRange)
    );
    // A refused index touches no cache line.
    assert_eq!(scb.write_log().len(), before);
}

// ---------------------------------------------------------------- TAMP floors

#[test]
fn floor_zero_until_bumped_then_monotonic() {
    let mem = MmioMem::new(TAMP_BKP_BASE);
    let mut bk = TampStore::new_with_mmio(mem);
    assert_eq!(bk.rb_floor(7), 0);
    bk.rb_bump(7, 2);
    assert_eq!(bk.rb_floor(7), 2);
    bk.rb_bump(7, 1);
    assert_eq!(bk.rb_floor(7), 2);
    bk.rb_bump(7, 5);
    assert_eq!(bk.rb_floor(7), 5);
    assert_eq!(bk.rb_floor(8), 0);
}

#[test]
fn second_author_uses_separate_entry() {
    let mem = MmioMem::new(TAMP_BKP_BASE);
    let mut bk = TampStore::new_with_mmio(mem);
    bk.rb_bump(1, 3);
    bk.rb_bump(2, 9);
    assert_eq!(bk.rb_floor(1), 3);
    assert_eq!(bk.rb_floor(2), 9);
}

#[test]
fn full_table_evicts_no_author() {
    let mem = MmioMem::new(TAMP_BKP_BASE);
    let mut bk = TampStore::new_with_mmio(mem);
    for a in 1..=4u32 {
        bk.rb_bump(a, 10 + a);
    }
    bk.rb_bump(99, 50);
    assert_eq!(bk.rb_floor(99), 0);
    for a in 1..=4u32 {
        assert_eq!(bk.rb_floor(a), 10 + a);
    }
}

#[test]
fn backup_floor_counter_never_lowers() {
    let mem = MmioMem::new(TAMP_BKP_BASE);
    let mut c = BackupFloorCounter::new(TampStore::new_with_mmio(mem));
    assert_eq!(c.floor(3), 0);
    c.bump(3, 4);
    c.bump(3, 2);
    assert_eq!(c.floor(3), 4);
}

// ---------------------------------------------------------------- crypto wait

#[test]
fn block_times_out_then_returns_ok_when_done() {
    let mut clear = FixedFlag::new(false);
    assert_eq!(
        block_until_done(&mut clear, 8),
        Err(CryptoWaitError::Timeout),
        "no done flag within budget -> fail-closed"
    );
    let mut set = FixedFlag::new(true);
    assert_eq!(block_until_done(&mut set, 8), Ok(()), "done flag set -> Ok");
}

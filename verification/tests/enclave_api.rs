use umbra::aes::AesEmulated;
use umbra::crypto_engine::UmbraCryptoEngine;
use umbra::enclave_api::{
    create_begin, create_commit, create_decide, create_fold, create_reap, create_restore,
    enter_decide, exit_decide, resolve_create_base, select_active_slot, status_decide,
    tick_decide, update_admit, update_check, update_finish, update_target, CreatePlan,
    EnclaveCtx, EnclaveStatus, EnclaveTable, EnterAction, PackageCheck, RestoreDecision,
    TickAction, BAD_HEADER_STATUS, MEASUREMENT_FAILED_STATUS, UPDATE_ERR_ARG, UPDATE_ERR_AUTH,
    UPDATE_ERR_BUSY, UPDATE_ERR_FLASH, UPDATE_ERR_NONCE, UPDATE_ERR_ROLLBACK, UPDATE_ERR_VERIFY,
};
use umbra::hash::{HASH_BASE_ADDR, HASH_SR_OFFSET, SR_DCIS_MASK, SR_DINIS_MASK};
use umbra::measurement::LoadedExtent;
use umbra::mmio::MmioMem;

const ESS: u32 = 0x340E_0000;

fn crypto() -> UmbraCryptoEngine<MmioMem, AesEmulated> {
    let mut mem = MmioMem::new(HASH_BASE_ADDR);
    mem.preload_register(HASH_SR_OFFSET, SR_DINIS_MASK | SR_DCIS_MASK);
    UmbraCryptoEngine::new(umbra::hash::Hash::new_with_mmio(mem), AesEmulated::new())
}

/// Measure every block of `plan` (all-zero code and metadata) and commit
/// against `header`.
fn measured_commit(t: &mut EnclaveTable, plan: CreatePlan, header: Option<[u8; 32]>) -> u32 {
    create_reap(t, &plan);
    let mut c = crypto();
    let blocks = plan.num_blocks;
    let mut run = create_begin(plan, &[7u8; 32], &c);
    for _ in 0..blocks {
        create_fold(&mut run, &mut c, &[0u8; 256], &[0u8; 32]);
    }
    let hmac = header.unwrap_or(run.chain_value());
    create_commit(t, &run, ESS, &hmac)
}

fn created(t: &mut EnclaveTable, base: u32, blocks: u32) -> u32 {
    let status: Vec<EnclaveStatus> = t.ctx.iter().map(|c| c.status).collect();
    let plan = create_decide(base, &t.slots, &status, t.next_id, Some(288 * blocks)).unwrap();
    measured_commit(t, plan, None)
}

#[test]
fn create_checks_then_registers_with_fresh_ids() {
    let mut t = EnclaveTable::new();
    let status = [EnclaveStatus::Ready; 2];
    assert_eq!(create_decide(0x6000_0000, &t.slots, &status, 1, Some(288)).err(), Some(0xFFFF_FFF6));
    assert_eq!(create_decide(0x7000_0000, &t.slots, &status, 1, None).err(), Some(BAD_HEADER_STATUS));
    assert_eq!(create_decide(0x7000_0000, &t.slots, &status, 1, Some(100)).err(), Some(0xFFFF_FFF7));
    assert_eq!(create_decide(0x7000_0000, &t.slots, &status, 1, Some(288 * 65)).err(), Some(0xFFFF_FFF7));
    let plan = create_decide(0x7000_0000, &t.slots, &status, 1, Some(288 * 3)).unwrap();
    assert_eq!((plan.num_blocks, plan.code_bytes), (3, 768));
    assert_eq!(plan.reap, vec![false, false]);
    assert_eq!(measured_commit(&mut t, plan, None), 1);
    assert_eq!(t.next_id, 2);
    assert_eq!(t.ctx[0], EnclaveCtx { status: EnclaveStatus::Ready, result: 0 });
    assert_eq!(t.slots[0].map(|e| (e.id, e.flash_base, e.efb_count)), Some((1, 0x7000_0000, 3)));
    // Same base again: already loaded.
    assert_eq!(create_decide(0x7000_0000, &t.slots, &status, 2, Some(288)).err(), Some(0xFFFF_FFF4));
    assert_eq!(created(&mut t, 0x7001_0000, 1), 2);
    // Ids used up.
    assert_eq!(create_decide(0x7002_0000, &t.slots, &status, 3, Some(288)).err(), Some(0xFFFF_FFF3));
}

#[test]
fn failed_measurement_registers_nothing_after_reaping() {
    let mut t = EnclaveTable::new();
    assert_eq!(created(&mut t, 0x7000_0000, 1), 1);
    t.ctx[0].status = EnclaveStatus::Terminated;
    let status: Vec<EnclaveStatus> = t.ctx.iter().map(|c| c.status).collect();
    let plan = create_decide(0x7001_0000, &t.slots, &status, t.next_id, Some(288)).unwrap();
    assert_eq!(plan.reap, vec![true, false]);
    assert_eq!(measured_commit(&mut t, plan, Some([1u8; 32])), MEASUREMENT_FAILED_STATUS);
    assert!(t.slots[0].is_none());
    assert_eq!(t.next_id, 2);
}

#[test]
fn enter_runs_ready_and_reports_finished() {
    let mut t = EnclaveTable::new();
    assert_eq!(enter_decide(&mut t, 9), EnterAction::Return { status: 0xFFFF_FFF0 });
    let id = created(&mut t, 0x7000_0000, 2);
    assert_eq!(enter_decide(&mut t, id), EnterAction::Run { slot: 0 });
    assert_eq!(t.ctx[0].status, EnclaveStatus::Running);
    assert_eq!(t.current, Some(id));
    assert_eq!(enter_decide(&mut t, id), EnterAction::Return { status: 0xFFFF_FFF2 });
    t.enter_return();
    assert_eq!(t.current, None);
    t.ctx[0] = EnclaveCtx { status: EnclaveStatus::Terminated, result: 0x1234_5678 };
    assert_eq!(enter_decide(&mut t, id), EnterAction::Return { status: (1 << 16) | (3 << 8) | 0x78 });
    assert_eq!(status_decide(&t, id), 0x1234_5678);
    t.ctx[0].status = EnclaveStatus::Faulted;
    assert_eq!(enter_decide(&mut t, id), EnterAction::Return { status: (1 << 16) | (4 << 8) });
    assert_eq!(status_decide(&t, id), 4);
    assert_eq!(status_decide(&t, 77), 0xFF);
}

#[test]
fn exit_terminates_a_suspended_enclave() {
    let mut t = EnclaveTable::new();
    let id = created(&mut t, 0x7000_0000, 1);
    assert_eq!(exit_decide(&mut t, id), 0xFFFF_FFF2);
    t.ctx[0].status = EnclaveStatus::Suspended;
    assert_eq!(exit_decide(&mut t, id), (1 << 16) | (3 << 8));
    assert_eq!(t.ctx[0].status, EnclaveStatus::Terminated);
    assert_eq!(exit_decide(&mut t, id), (1 << 16) | (3 << 8));
    assert_eq!(exit_decide(&mut t, 5), 0xFFFF_FFF0);
}

#[test]
fn tick_switches_round_robin_or_returns_suspended() {
    let mut t = EnclaveTable::new();
    let a = created(&mut t, 0x7000_0000, 1);
    let b = created(&mut t, 0x7001_0000, 1);
    assert_eq!(enter_decide(&mut t, a), EnterAction::Run { slot: 0 });
    assert_eq!(tick_decide(&mut t, 0), TickAction::Resume { slot: 1 });
    assert_eq!(t.ctx[0].status, EnclaveStatus::Suspended);
    assert_eq!(t.ctx[1].status, EnclaveStatus::Running);
    assert_eq!(t.current, Some(b));
    assert_eq!(tick_decide(&mut t, 1), TickAction::Resume { slot: 0 });
    assert_eq!(t.current, Some(a));
    t.ctx[1].status = EnclaveStatus::Terminated;
    assert_eq!(tick_decide(&mut t, 0), TickAction::Return { status: (a << 16) | (2 << 8) });
    assert_eq!(t.ctx[0].status, EnclaveStatus::Suspended);
}

#[test]
fn update_admission_order_and_nonce_use() {
    let mut t = EnclaveTable::new();
    assert_eq!(update_admit(0x2400_0000, 100, &mut t), Err(UPDATE_ERR_ARG));
    assert_eq!(update_admit(0x1000_0000, 200, &mut t), Err(UPDATE_ERR_ARG));
    assert_eq!(update_admit(0x2400_0000, 200, &mut t), Err(UPDATE_ERR_NONCE));
    t.arm_update_nonce([3u8; 16]);
    let id = created(&mut t, 0x7000_0000, 1);
    assert_eq!(update_admit(0x2400_0000, 200, &mut t), Err(UPDATE_ERR_BUSY));
    assert!(!t.nonce_armed);
    t.arm_update_nonce([4u8; 16]);
    t.ctx[0].status = EnclaveStatus::Terminated;
    assert_eq!(update_admit(0x2400_0000, 200, &mut t), Ok([4u8; 16]));
    assert!(!t.nonce_armed);
    assert_eq!(status_decide(&t, id), 0);
}

#[test]
fn update_target_and_finish() {
    let ok = PackageCheck::Authentic { version: 4 };
    assert_eq!(update_target(Some(0), Some(3), Some(1)), (1, Some(3)));
    assert_eq!(update_target(Some(1), Some(3), Some(5)), (0, Some(5)));
    assert_eq!(update_target(None, None, None), (0, None));
    assert_eq!(update_finish(ok, true, Some(3), Some(4)), 0);
    assert_eq!(update_finish(ok, true, Some(3), Some(3)), UPDATE_ERR_ROLLBACK);
    assert_eq!(update_finish(ok, true, None, Some(0)), 0);
    assert_eq!(update_finish(ok, true, Some(3), None), UPDATE_ERR_VERIFY);
    assert_eq!(update_finish(ok, false, Some(3), Some(4)), UPDATE_ERR_FLASH);
    assert_eq!(update_finish(PackageCheck::NonceMismatch, true, None, Some(9)), UPDATE_ERR_NONCE);
    assert_eq!(update_finish(PackageCheck::TagInvalid, true, None, Some(9)), UPDATE_ERR_AUTH);
    assert_eq!(update_check(PackageCheck::Malformed), Err(UPDATE_ERR_ARG));
    assert_eq!(update_check(ok), Ok(()));
}

#[test]
fn best_slot_create_picks_the_higher_version() {
    const A: u32 = 0x7010_0000;
    const B: u32 = 0x7020_0000;
    assert_eq!(select_active_slot(Some(2), Some(5)), Some(1));
    assert_eq!(select_active_slot(Some(5), Some(5)), Some(0));
    assert_eq!(select_active_slot(None, Some(0)), Some(1));
    assert_eq!(select_active_slot(None, None), None);
    assert_eq!(resolve_create_base(0x7003_0000, A, B, None, None), Ok(0x7003_0000));
    assert_eq!(resolve_create_base(0, A, B, Some(1), Some(2)), Ok(B));
    assert_eq!(resolve_create_base(0, A, B, Some(1), None), Ok(A));
    assert_eq!(resolve_create_base(0, A, B, None, None), Err(0xFFFF_FFF0));
    // With slot A already loaded, create(0) choosing A is refused as loaded.
    let mut t = EnclaveTable::new();
    assert_eq!(created(&mut t, A, 1), 1);
    let base = resolve_create_base(0, A, B, Some(3), Some(1)).unwrap();
    let status = [EnclaveStatus::Ready; 2];
    assert_eq!(create_decide(base, &t.slots, &status, t.next_id, Some(288)).err(), Some(0xFFFF_FFF4));
}

#[test]
fn restored_checkpoint_resumes_the_new_enclave() {
    let mut t = EnclaveTable::new();
    let id = created(&mut t, 0x7000_0000, 1);
    let saved = EnclaveCtx { status: EnclaveStatus::Suspended, result: 0 };
    assert_eq!(create_restore(&mut t, 0, RestoreDecision::Resume { saved }), 1);
    assert_eq!(t.ctx[0].status, EnclaveStatus::Suspended);
    assert_eq!(enter_decide(&mut t, id), EnterAction::Run { slot: 0 });
    assert_eq!(create_restore(&mut t, 0, RestoreDecision::Reject), 3);
    assert_eq!(create_restore(&mut t, 0, RestoreDecision::ColdGenesis), 2);
}

#[test]
fn commit_needs_every_block_folded() {
    let mut t = EnclaveTable::new();
    let status = [EnclaveStatus::Ready; 2];
    let plan = create_decide(0x7000_0000, &t.slots, &status, 1, Some(288 * 2)).unwrap();
    let mut c = crypto();
    let mut run = create_begin(plan, &[7u8; 32], &c);
    create_fold(&mut run, &mut c, &[0u8; 256], &[0u8; 32]);
    assert_eq!(run.folded_count(), 1);
    let hmac = run.chain_value();
    assert_eq!(create_commit(&mut t, &run, ESS, &hmac), MEASUREMENT_FAILED_STATUS);
    assert!(t.slots[0].is_none());
}

#[test]
fn unknown_slots_never_match() {
    let t = EnclaveTable {
        slots: vec![None, Some(LoadedExtent { start_address: ESS, efb_count: 1, id: 4, flash_base: 0x7000_0000 })],
        ctx: vec![EnclaveCtx { status: EnclaveStatus::Ready, result: 0 }; 2],
        next_id: 5,
        current: None,
        nonce_armed: false,
        last_nonce: [0u8; 16],
    };
    assert_eq!(t.find(4), Some(1));
    assert_eq!(t.find(3), None);
}

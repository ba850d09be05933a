use umbra::attest::gather_enclave_state;
use umbra::exceptions::{
    checkpoint_due, classify_usage_fault, context_index, exit_status, fault_frame_origin,
    is_end_of_task, mem_fault_address, next_runnable, slot_of, UsageFaultKind,
};

#[test]
fn usage_faults_are_classified_missing_block_first() {
    assert_eq!(classify_usage_fault(1 << 16), UsageFaultKind::MissingBlock);
    assert_eq!(classify_usage_fault((1 << 16) | (1 << 17)), UsageFaultKind::MissingBlock);
    assert_eq!(classify_usage_fault(1 << 17), UsageFaultKind::EndOfTask);
    assert_eq!(classify_usage_fault(1 << 24), UsageFaultKind::Fault);
    assert_eq!(classify_usage_fault(0), UsageFaultKind::Fault);
}

#[test]
fn mem_fault_address_follows_the_fault_type() {
    // data violation with a valid MMFAR
    assert_eq!(mem_fault_address(0x82, 0x3410_0000, 0x1234), 0x3410_0000);
    // data violation without MMARVALID and no instruction violation
    assert_eq!(mem_fault_address(0x02, 0x3410_0000, 0x1234), 0);
    // instruction fetch: the stacked PC
    assert_eq!(mem_fault_address(0x01, 0x3410_0000, 0x1234), 0x1234);
    assert_eq!(mem_fault_address(0x00, 0x3410_0000, 0x1234), 0);
}

#[test]
fn end_of_task_is_a_refused_fetch_at_the_sentinel() {
    assert!(is_end_of_task(0x01, 0xFFFF_FFFE));
    assert!(!is_end_of_task(0x02, 0xFFFF_FFFE));
    assert!(!is_end_of_task(0x01, 0x3410_0000));
}

#[test]
fn exc_return_decodes_domain_and_stack() {
    // 0xFFFFFFBC: Non-Secure (S = 0), process stack
    assert_eq!(fault_frame_origin(0xFFFF_FFBC), (true, true));
    // 0xFFFFFFF9: Secure, main stack
    assert_eq!(fault_frame_origin(0xFFFF_FFF9), (false, false));
    // 0xFFFFFFFD: Secure, process stack
    assert_eq!(fault_frame_origin(0xFFFF_FFFD), (false, true));
}

#[test]
fn exit_status_packs_id_state_and_result() {
    assert_eq!(exit_status(2, 3, 0x1_2345), 0x0002_0345);
    assert_eq!(exit_status(0x1_0001, 0x104, 0xFF), 0x0001_04FF);
    let w = exit_status(7, 4, 42);
    assert_eq!(w >> 16, 7);
    assert_eq!((w >> 8) & 0xFF, 4);
    assert_eq!(w & 0xFF, 42);
}

#[test]
fn round_robin_skips_the_current_and_idle_slots() {
    assert_eq!(next_runnable(0, &[true, true]), Some(1));
    assert_eq!(next_runnable(1, &[true, true]), Some(0));
    assert_eq!(next_runnable(0, &[true, false]), None);
    assert_eq!(next_runnable(1, &[false, true, false, true]), Some(3));
    assert_eq!(next_runnable(3, &[false, true, true, true]), Some(1));
    assert_eq!(next_runnable(0, &[true]), None);
}

#[test]
fn slot_lookup_finds_the_first_match() {
    let ids = [None, Some(4), Some(2), Some(4)];
    assert_eq!(slot_of(&ids, 4), Some(1));
    assert_eq!(slot_of(&ids, 2), Some(2));
    assert_eq!(slot_of(&ids, 9), None);
}

#[test]
fn checkpoints_every_sixteenth_switch() {
    assert!(checkpoint_due(0));
    assert!(!checkpoint_due(1));
    assert!(!checkpoint_due(15));
    assert!(checkpoint_due(16));
    assert!(checkpoint_due(32));
}

#[test]
fn context_index_rejects_outside_pointers() {
    assert_eq!(context_index(0x2000_0100, 0x2000_0000, 0x80, 2), None);
    assert_eq!(context_index(0x2000_0080, 0x2000_0000, 0x80, 2), Some(1));
    assert_eq!(context_index(0x2000_0000, 0x2000_0000, 0x80, 2), Some(0));
    // below the table: the distance wraps and is far out of range
    assert_eq!(context_index(0x1FFF_FF80, 0x2000_0000, 0x80, 2), None);
}

#[test]
fn quote_reports_the_running_enclave_state() {
    let ids = [Some(3), Some(5)];
    let states = [1u8, 4];
    assert_eq!(gather_enclave_state(None, &ids, &states), (0, 0));
    assert_eq!(gather_enclave_state(Some(5), &ids, &states), (5, 4));
    assert_eq!(gather_enclave_state(Some(9), &ids, &states), (9, 0));
}

//! Decisions of the Non-Secure-callable enclave API: the status codes handed
//! back to the Non-Secure host, the checks `enclave_create` makes before it
//! loads anything, and the first exception frame of a new enclave.

use crate::crypto_engine::UmbraError;
use crate::measurement::{LoadedExtent, CODE_BYTES, TOTAL_BLOCK_SIZE};
use vstd::prelude::*;

verus! {

/// First address of the memory-mapped external flash window.
pub const XSPI2_WINDOW_BASE: u32 = 0x7000_0000;

/// One past the last address of the external flash window.
pub const XSPI2_WINDOW_END: u32 = 0x8000_0000;

/// Most code blocks of one enclave: the 16 KB code window in 256-byte blocks.
pub const MAX_EFBS: u32 = 64;

/// Enclave contexts, one per image slot of the code window.
pub const MAX_ENCLAVES_CTX: u32 = 2;

/// Status when the enclave ids are used up.
pub const IDS_EXHAUSTED_STATUS: u32 = 0xFFFF_FFF3;

/// The status code of each kernel error on the Non-Secure interface. The
/// host only tests `status >= 0xFFFF_FFF0`; the individual codes tell the
/// errors apart in logs.
pub open spec fn status_of(e: UmbraError) -> u32 {
    match e {
        UmbraError::EnclaveNotFound { .. } => 0xFFFF_FFF0,
        UmbraError::EnclaveStateInvalid => 0xFFFF_FFF2,
        UmbraError::EnclaveAlreadyLoaded { .. } => 0xFFFF_FFF4,
        UmbraError::DmaTimeout => 0xFFFF_FFF5,
        UmbraError::NscArgInvalid => 0xFFFF_FFF6,
        UmbraError::OffsetOverflow => 0xFFFF_FFF7,
        UmbraError::MeasurementMismatch => 0xFFFF_FFF8,
        UmbraError::MemProtectDenied { .. } => 0xFFFF_FFF9,
        UmbraError::KeyDerivation => 0xFFFF_FFFA,
        UmbraError::LengthMismatch => 0xFFFF_FFFB,
        UmbraError::HashHardware => 0xFFFF_FFFC,
        UmbraError::EssRegionExhausted => 0xFFFF_FFFD,
        UmbraError::AesHardware => 0xFFFF_FFFE,
        UmbraError::InternalInvariant => 0xFFFF_FFFF,
    }
}

/// Map a kernel error onto its Non-Secure status code.
pub fn nsc_status(e: UmbraError) -> (s: u32)
    ensures
        s == status_of(e),
        s >= 0xFFFF_FFF0,
{
    match e {
        UmbraError::EnclaveNotFound { .. } => 0xFFFF_FFF0,
        UmbraError::EnclaveStateInvalid => 0xFFFF_FFF2,
        UmbraError::EnclaveAlreadyLoaded { .. } => 0xFFFF_FFF4,
        UmbraError::DmaTimeout => 0xFFFF_FFF5,
        UmbraError::NscArgInvalid => 0xFFFF_FFF6,
        UmbraError::OffsetOverflow => 0xFFFF_FFF7,
        UmbraError::MeasurementMismatch => 0xFFFF_FFF8,
        UmbraError::MemProtectDenied { .. } => 0xFFFF_FFF9,
        UmbraError::KeyDerivation => 0xFFFF_FFFA,
        UmbraError::LengthMismatch => 0xFFFF_FFFB,
        UmbraError::HashHardware => 0xFFFF_FFFC,
        UmbraError::EssRegionExhausted => 0xFFFF_FFFD,
        UmbraError::AesHardware => 0xFFFF_FFFE,
        UmbraError::InternalInvariant => 0xFFFF_FFFF,
    }
}

/// `base` is a 16-byte aligned address inside the external flash window.
pub open spec fn blob_base_ok(base: u32) -> bool {
    XSPI2_WINDOW_BASE <= base && base < XSPI2_WINDOW_END && base % 16 == 0
}

/// The first loaded enclave created from `base`, if any.
pub open spec fn loaded_from(slots: Seq<Option<LoadedExtent>>, base: u32, i: int) -> bool {
    slots[i] matches Some(e) && e.flash_base == base
}

/// What the checks before the blob header decide: a base outside the flash
/// window or not 16-byte aligned is an invalid argument, a base that an
/// enclave was already created from is refused as loaded, and with the
/// enclave ids used up nothing more is created.
pub open spec fn preflight_result(base: u32, slots: Seq<Option<LoadedExtent>>, next_id: u32) -> Result<
    (),
    u32,
> {
    if !blob_base_ok(base) {
        Err(status_of(UmbraError::NscArgInvalid))
    } else if exists|i: int| 0 <= i < slots.len() && #[trigger] loaded_from(slots, base, i) {
        Err(status_of(UmbraError::EnclaveAlreadyLoaded { id: 0 }))
    } else if next_id > MAX_ENCLAVES_CTX {
        Err(IDS_EXHAUSTED_STATUS)
    } else {
        Ok(())
    }
}

/// The checks `enclave_create` makes before reading the blob header, in
/// order: the base is in the flash window (`NscArgInvalid`), 16-byte
/// aligned (`NscArgInvalid`), not already loaded (`EnclaveAlreadyLoaded`),
/// and an enclave id is left.
pub fn create_preflight(base_addr: u32, slots: &[Option<LoadedExtent>], next_id: u32) -> (r: Result<
    (),
    u32,
>)
    ensures
        r == preflight_result(base_addr, slots@, next_id),
{
    if base_addr < XSPI2_WINDOW_BASE || base_addr >= XSPI2_WINDOW_END {
        return Err(nsc_status(UmbraError::NscArgInvalid));
    }
    if base_addr % 16 != 0 {
        return Err(nsc_status(UmbraError::NscArgInvalid));
    }
    let mut i: usize = 0;
    while i < slots.len()
        invariant
            i <= slots@.len(),
            blob_base_ok(base_addr),
            forall|j: int| 0 <= j < i ==> !#[trigger] loaded_from(slots@, base_addr, j),
        decreases slots@.len() - i,
    {
        match slots[i] {
            Some(e) => {
                if e.flash_base == base_addr {
                    assert(loaded_from(slots@, base_addr, i as int));
                    return Err(nsc_status(UmbraError::EnclaveAlreadyLoaded { id: e.id }));
                }
            },
            None => {},
        }
        i += 1;
    }
    if next_id > MAX_ENCLAVES_CTX {
        return Err(IDS_EXHAUSTED_STATUS);
    }
    Ok(())
}

/// Number of blocks of a blob of `code_size` bytes and the bytes of code
/// they take in the swap space: refused (`OffsetOverflow` status) unless
/// there is at least one block and at most [`MAX_EFBS`].
pub fn create_sizes(code_size: u32) -> (r: Result<(u32, u32), u32>)
    ensures
        r is Ok <==> 1 <= code_size / TOTAL_BLOCK_SIZE <= MAX_EFBS,
        r is Ok ==> r->Ok_0 == (code_size / TOTAL_BLOCK_SIZE, (code_size / TOTAL_BLOCK_SIZE * CODE_BYTES) as u32),
        r is Err ==> r->Err_0 == status_of(UmbraError::OffsetOverflow),
{
    let num_blocks = code_size / TOTAL_BLOCK_SIZE;
    if num_blocks == 0 || num_blocks > MAX_EFBS {
        return Err(0xFFFF_FFF7);
    }
    match num_blocks.checked_mul(CODE_BYTES) {
        Some(n) => Ok((num_blocks, n)),
        None => Err(nsc_status(UmbraError::OffsetOverflow)),
    }
}

/// The exception frame a new enclave starts from: r0-r3 and r12 zero, the
/// sentinel return address, the entry point as PC, and a Thumb xPSR.
pub fn initial_frame(entry: u32) -> (f: [u32; 8])
    ensures
        f@ == seq![0u32, 0u32, 0u32, 0u32, 0u32, 0xFFFF_FFFFu32, entry, 0x0100_0000u32],
{
    let f = [0u32, 0, 0, 0, 0, 0xFFFF_FFFF, entry, 0x0100_0000];
    assert(f@ =~= seq![0u32, 0u32, 0u32, 0u32, 0u32, 0xFFFF_FFFFu32, entry, 0x0100_0000u32]);
    f
}

} // verus!

//! The ARMv8-M MPU regions that confine an enclave: its stack (region 4), its
//! code (region 5), and the fixed shared windows (regions 6 to 9).
//!
//! A region is programmed by selecting it in RNR, then writing RBAR (base,
//! access permission, execute-never) and RLAR (limit, enable). Base and limit
//! are 32-byte granular.

use crate::mmio::{MmioAccess, MmioOp};
use vstd::prelude::*;

verus! {

/// Secure MPU register block (MPU_TYPE).
pub const MPU_BASE_ADDR: u32 = 0xE000_ED90;

pub const MPU_RNR_OFFSET: u32 = 0x08;
pub const MPU_RBAR_OFFSET: u32 = 0x0C;
pub const MPU_RLAR_OFFSET: u32 = 0x10;

/// RBAR: read-write at any privilege (AP = 0b01), executable.
pub const RBAR_RW_ANY: u32 = 0b01 << 1;
/// RBAR: read-only at any privilege (AP = 0b11), executable.
pub const RBAR_RO_ANY: u32 = 0b11 << 1;
/// RBAR: execute-never.
pub const RBAR_XN: u32 = 0x01;
/// RLAR: region enabled.
pub const RLAR_EN: u32 = 0x01;

/// Stack attributes: read-write at any privilege, execute-never.
pub const STACK_ATTRS: u32 = 0b011;

/// Enclave stack region.
pub const STACK_REGION: u32 = 4;
/// Enclave code region.
pub const CODE_REGION: u32 = 5;

/// RBAR of a region at `base` with attribute bits `attrs`.
pub open spec fn rbar_of(base: u32, attrs: u32) -> u32 {
    (base & 0xFFFF_FFE0) | attrs
}

/// RLAR of an enabled region ending at `limit`.
pub open spec fn rlar_of(limit: u32) -> u32 {
    (limit & 0xFFFF_FFE0) | RLAR_EN
}

/// The three writes that program region `n`.
pub open spec fn region_ops(mpu_base: u32, n: u32, rbar: u32, rlar: u32) -> Seq<MmioOp> {
    seq![
        MmioOp::Write { addr: mpu_base.wrapping_add(MPU_RNR_OFFSET), value: n },
        MmioOp::Write { addr: mpu_base.wrapping_add(MPU_RBAR_OFFSET), value: rbar },
        MmioOp::Write { addr: mpu_base.wrapping_add(MPU_RLAR_OFFSET), value: rlar },
    ]
}

/// Select region `n` and write its RBAR and RLAR.
pub fn set_region<M: MmioAccess>(mpu: &mut M, n: u32, rbar: u32, rlar: u32)
    ensures
        final(mpu).base() == old(mpu).base(),
        final(mpu).ops() == old(mpu).ops() + region_ops(old(mpu).base(), n, rbar, rlar),
{
    mpu.write(MPU_RNR_OFFSET, n);
    mpu.write(MPU_RBAR_OFFSET, rbar);
    mpu.write(MPU_RLAR_OFFSET, rlar);
    assert(mpu.ops() =~= old(mpu).ops() + region_ops(old(mpu).base(), n, rbar, rlar));
}

/// Region 5 over `[base, limit]` with attributes `attrs`, then a barrier so
/// the next access sees it.
pub fn set_code_region<M: MmioAccess>(mpu: &mut M, base: u32, limit: u32, attrs: u32)
    ensures
        final(mpu).base() == old(mpu).base(),
        final(mpu).ops() == old(mpu).ops() + region_ops(
            old(mpu).base(),
            CODE_REGION,
            rbar_of(base, attrs),
            rlar_of(limit),
        ),
{
    let rbar = (base & 0xFFFF_FFE0) | attrs;
    let rlar = (limit & 0xFFFF_FFE0) | RLAR_EN;
    set_region(mpu, CODE_REGION, rbar, rlar);
    mpu.barrier();
}

/// The region 4 and 5 program of the enclave whose stack ends at `psp_top`
/// (`stack_size` bytes) and whose code, if loaded, spans `code_size` bytes
/// from `code_base`.
pub open spec fn per_enclave_ops(
    mpu_base: u32,
    psp_top: u32,
    stack_size: u32,
    code: Option<(u32, u32)>,
) -> Seq<MmioOp> {
    let stack = region_ops(
        mpu_base,
        STACK_REGION,
        rbar_of((psp_top - stack_size) as u32, STACK_ATTRS),
        rlar_of((psp_top - 1) as u32),
    );
    match code {
        Some((b, size)) => stack + region_ops(
            mpu_base,
            CODE_REGION,
            rbar_of(b, RBAR_RW_ANY),
            rlar_of((b + size - 1) as u32),
        ),
        None => stack,
    }
}

/// `code` is absent or spans at least one byte inside the address space.
pub open spec fn code_extent_ok(code: Option<(u32, u32)>) -> bool {
    code matches Some((b, size)) ==> size >= 1 && b + size - 1 <= u32::MAX
}

/// Program the stack region (read-write, execute-never) and, for a loaded
/// enclave, the code region (read-write, executable) of one enclave.
pub fn configure_enclave_stack_and_code<M: MmioAccess>(
    mpu: &mut M,
    psp_top: u32,
    stack_size: u32,
    code: Option<(u32, u32)>,
)
    requires
        1 <= stack_size <= psp_top,
        code_extent_ok(code),
    ensures
        final(mpu).base() == old(mpu).base(),
        final(mpu).ops() == old(mpu).ops() + per_enclave_ops(old(mpu).base(), psp_top, stack_size, code),
{
    let psp_base = psp_top - stack_size;
    let psp_limit = psp_top - 1;
    set_region(
        mpu,
        STACK_REGION,
        (psp_base & 0xFFFF_FFE0) | STACK_ATTRS,
        (psp_limit & 0xFFFF_FFE0) | RLAR_EN,
    );
    let ghost after_stack = mpu.ops();
    match code {
        Some((code_base, code_size)) => {
            let code_limit = code_base + (code_size - 1);
            set_region(
                mpu,
                CODE_REGION,
                (code_base & 0xFFFF_FFE0) | RBAR_RW_ANY,
                (code_limit & 0xFFFF_FFE0) | RLAR_EN,
            );
            assert(mpu.ops() =~= old(mpu).ops() + per_enclave_ops(
                old(mpu).base(),
                psp_top,
                stack_size,
                code,
            ));
        },
        None => {},
    }
}

/// The program of the fixed windows: RBAR = base | read-write at any
/// privilege | execute-never (low bits 0b011), RLAR = limit | enable.
pub open spec fn shared_ops(mpu_base: u32) -> Seq<MmioOp> {
    region_ops(mpu_base, 6, 0x2408_0003, 0x240B_FFE1) + region_ops(mpu_base, 7, 0x240C_0003, 0x240C_FFE1)
        + region_ops(mpu_base, 8, 0x342E_0003, 0x343B_FFE1) + region_ops(mpu_base, 9, 0x580E_0003, 0x580F_FFE1)
}

/// Program all the regions of an enclave before entering it: its stack and
/// code (regions 4 and 5), then the fixed windows (regions 6 to 9), then a
/// barrier.
pub fn configure_enclave_regions<M: MmioAccess>(
    mpu: &mut M,
    psp_top: u32,
    stack_size: u32,
    code: Option<(u32, u32)>,
)
    requires
        1 <= stack_size <= psp_top,
        code_extent_ok(code),
    ensures
        final(mpu).base() == old(mpu).base(),
        final(mpu).ops() == old(mpu).ops() + per_enclave_ops(old(mpu).base(), psp_top, stack_size, code)
            + shared_ops(old(mpu).base()),
{
    configure_enclave_stack_and_code(mpu, psp_top, stack_size, code);
    let ghost mid = mpu.ops();
    set_region(mpu, 6, 0x2408_0003, 0x240B_FFE1);
    set_region(mpu, 7, 0x240C_0003, 0x240C_FFE1);
    set_region(mpu, 8, 0x342E_0003, 0x343B_FFE1);
    set_region(mpu, 9, 0x580E_0003, 0x580F_FFE1);
    assert(mpu.ops() =~= old(mpu).ops() + per_enclave_ops(old(mpu).base(), psp_top, stack_size, code)
        + shared_ops(old(mpu).base()));
    mpu.barrier();
}

} // verus!

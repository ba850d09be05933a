//! Backup-SRAM slot holding the DHUK-wrapped encryption key.
//!
//! The 8 KB backup SRAM is retained across a warm reset and lost on a cold
//! power-off. One slot of six words: magic at 0x00, rotated-key tag at 0x04,
//! wrapped blob at 0x08..0x18 (four little-endian words).

use crate::aes::{lemma_unpack, pack_le};
use crate::mmio::{le_byte, MmioAccess, MmioOp};
use crate::tamp_store::{set_bits_at, PWR_DBPCR, PWR_DBPCR_DBP};
use crate::tamp_store::cells_of;
use vstd::prelude::*;

verus! {

/// Backup SRAM, Secure alias.
pub const BKPSRAM_SECURE_BASE: u32 = 0x3C00_0000;

/// Wrapped-blob length in bytes (a DHUK-wrapped AES-128 key).
pub const WRAP_BLOB_LEN: usize = 16;

/// Marks a provisioned slot (vs cold-boot content).
pub const SLOT_MAGIC: u32 = 0x0DC0_0002;

pub const MAGIC_OFFSET: u32 = 0x00;
pub const TAG_OFFSET: u32 = 0x04;
pub const BLOB_OFFSET: u32 = 0x08;

/// RCC_MEMENR (absolute) and its BKPSRAM clock enable.
pub const RCC_MEMENR: u32 = 0x5602_824C;
pub const RCC_MEMENR_BKPSRAMEN: u32 = 1 << 6;
/// PWR_BDCR2 (absolute) and its BKPSRAM retention enable.
pub const PWR_BDCR2: u32 = 0x5602_4828;
pub const PWR_BDCR2_BKPRBSEN: u32 = 1 << 0;

/// Bring up BKPSRAM over the system bus (`bus` maps absolute addresses):
/// enable its clock, barrier, unlock backup-domain writes, and enable its
/// retention on VBAT/Standby; each a read-modify-write.
pub fn init_backup_domain<M: MmioAccess>(bus: &mut M)
    requires
        old(bus).base() == 0,
    ensures
        final(bus).base() == 0,
        ({
            let o = final(bus).ops();
            let n = old(bus).ops().len() as int;
            &&& o.len() == n + 6
            &&& o.take(n) == old(bus).ops()
            &&& set_bits_at(o, n, RCC_MEMENR, RCC_MEMENR_BKPSRAMEN)
            &&& set_bits_at(o, n + 2, PWR_DBPCR, PWR_DBPCR_DBP)
            &&& set_bits_at(o, n + 4, PWR_BDCR2, PWR_BDCR2_BKPRBSEN)
        }),
{
    let memenr = bus.read(RCC_MEMENR);
    bus.write(RCC_MEMENR, memenr | RCC_MEMENR_BKPSRAMEN);
    bus.barrier();
    let dbpcr = bus.read(PWR_DBPCR);
    bus.write(PWR_DBPCR, dbpcr | PWR_DBPCR_DBP);
    let bdcr2 = bus.read(PWR_BDCR2);
    bus.write(PWR_BDCR2, bdcr2 | PWR_BDCR2_BKPRBSEN);
    assert(bus.ops().take(old(bus).ops().len() as int) =~= old(bus).ops());
}


/// One provisioning slot: provisioned marker, rotated-key tag, wrapped blob.
#[derive(Clone, Copy, Debug)]
pub struct Slot {
    pub magic: u32,
    pub tag: u32,
    pub blob: [u8; WRAP_BLOB_LEN],
}

impl View for Slot {
    type V = (u32, u32, Seq<u8>);

    open spec fn view(&self) -> (u32, u32, Seq<u8>) {
        (self.magic, self.tag, self.blob@)
    }
}

/// The slot held by register contents `c`.
pub open spec fn slot_in(c: spec_fn(u32) -> u32) -> (u32, u32, Seq<u8>) {
    (
        c(MAGIC_OFFSET),
        c(TAG_OFFSET),
        Seq::new(16, |i: int| le_byte(c((BLOB_OFFSET + 4 * (i / 4)) as u32), i % 4)),
    )
}

/// The slot's registers: offsets 0x00 to 0x17.
pub open spec fn in_slot(o: u32) -> bool {
    o < BLOB_OFFSET + 16
}

/// Backup-SRAM slot accessor over a register backend.
pub struct Bkpsram<M: MmioAccess> {
    mmio: M,
}

impl<M: MmioAccess> Bkpsram<M> {
    pub closed spec fn backend(&self) -> M {
        self.mmio
    }

    pub open spec fn cells(&self) -> spec_fn(u32) -> u32 {
        cells_of(&self.backend())
    }

    pub open spec fn is_storage(&self) -> bool {
        self.backend().is_storage()
    }

    pub fn new_with_mmio(mmio: M) -> (s: Self)
        ensures
            s.backend() == mmio,
    {
        Bkpsram { mmio }
    }

    /// The register backend.
    pub fn mmio(&self) -> (m: &M)
        ensures
            *m == self.backend(),
    {
        &self.mmio
    }

    /// Write the slot: magic, tag, then the blob words (little-endian). Nothing
    /// outside the slot is written.
    pub fn write_slot(&mut self, slot: &Slot)
        ensures
            final(self).is_storage() == old(self).is_storage(),
            final(self).backend().base() == old(self).backend().base(),
            slot_in(final(self).cells()) == slot@,
            forall|o: u32| !in_slot(o) ==> #[trigger] final(self).cells()(o) == old(self).cells()(o),
    {
        let ghost c = self.cells();
        self.mmio.write(MAGIC_OFFSET, slot.magic);
        self.mmio.write(TAG_OFFSET, slot.tag);
        let mut i: usize = 0;
        while i < WRAP_BLOB_LEN
            invariant
                i <= WRAP_BLOB_LEN,
                i % 4 == 0,
                self.is_storage() == old(self).is_storage(),
                self.backend().base() == old(self).backend().base(),
                c == old(self).cells(),
                self.cells()(MAGIC_OFFSET) == slot.magic,
                self.cells()(TAG_OFFSET) == slot.tag,
                forall|k: int|
                    0 <= k < i / 4 ==> #[trigger] self.cells()((BLOB_OFFSET + 4 * k) as u32) == pack_le(
                        slot.blob[4 * k],
                        slot.blob[4 * k + 1],
                        slot.blob[4 * k + 2],
                        slot.blob[4 * k + 3],
                    ),
                forall|o: u32| !in_slot(o) ==> #[trigger] self.cells()(o) == c(o),
            decreases WRAP_BLOB_LEN - i,
        {
            let w = (slot.blob[i] as u32) | ((slot.blob[i + 1] as u32) << 8u32) | ((slot.blob[i + 2]
                as u32) << 16u32) | ((slot.blob[i + 3] as u32) << 24u32);
            let ghost before = self.cells();
            let off = BLOB_OFFSET + i as u32;
            self.mmio.write(off, w);
            proof {
                let now = self.cells();
                assert forall|o: u32| #[trigger] now(o) == (if o == off {
                    w
                } else {
                    before(o)
                }) by {}
                assert forall|k: int| 0 <= k < (i + 4) / 4 implies #[trigger] now(
                    (BLOB_OFFSET + 4 * k) as u32,
                ) == pack_le(
                    slot.blob[4 * k],
                    slot.blob[4 * k + 1],
                    slot.blob[4 * k + 2],
                    slot.blob[4 * k + 3],
                ) by {
                    if k < i / 4 {
                        assert(before((BLOB_OFFSET + 4 * k) as u32) == pack_le(
                            slot.blob[4 * k],
                            slot.blob[4 * k + 1],
                            slot.blob[4 * k + 2],
                            slot.blob[4 * k + 3],
                        ));
                    }
                }
                assert forall|o: u32| !in_slot(o) implies #[trigger] now(o) == c(o) by {
                    assert(before(o) == c(o));
                }
                assert(now(MAGIC_OFFSET) == before(MAGIC_OFFSET));
                assert(now(TAG_OFFSET) == before(TAG_OFFSET));
            }
            i += 4;
        }
        proof {
            let f = self.cells();
            assert forall|j: int| 0 <= j < 16 implies #[trigger] slot_in(f).2[j] == slot.blob@[j] by {
                let k = j / 4;
                assert(f((BLOB_OFFSET + 4 * k) as u32) == pack_le(
                    slot.blob[4 * k],
                    slot.blob[4 * k + 1],
                    slot.blob[4 * k + 2],
                    slot.blob[4 * k + 3],
                ));
                lemma_unpack(slot.blob[4 * k], slot.blob[4 * k + 1], slot.blob[4 * k + 2], slot.blob[4 * k + 3]);
            }
            assert(slot_in(f).2 =~= slot.blob@);
        }
    }

    /// Read the slot back (magic, tag, blob words).
    pub fn read_slot(&mut self) -> (r: Slot)
        ensures
            final(self).is_storage() == old(self).is_storage(),
            final(self).backend().base() == old(self).backend().base(),
            final(self).cells() == old(self).cells(),
            old(self).is_storage() ==> r@ == slot_in(old(self).cells()),
    {
        let ghost c = self.cells();
        let magic = self.mmio.read(MAGIC_OFFSET);
        let tag = self.mmio.read(TAG_OFFSET);
        proof {
            assert(self.cells() =~= c);
        }
        let mut blob = [0u8; WRAP_BLOB_LEN];
        let mut i: usize = 0;
        while i < WRAP_BLOB_LEN
            invariant
                i <= WRAP_BLOB_LEN,
                i % 4 == 0,
                self.is_storage() == old(self).is_storage(),
                self.backend().base() == old(self).backend().base(),
                self.cells() == c,
                c == old(self).cells(),
                self.is_storage() ==> forall|j: int|
                    0 <= j < i ==> #[trigger] blob@[j] == slot_in(c).2[j],
            decreases WRAP_BLOB_LEN - i,
        {
            let w = self.mmio.read(BLOB_OFFSET + i as u32);
            proof {
                assert(self.cells() =~= c);
            }
            blob[i] = w as u8;
            blob[i + 1] = (w >> 8u32) as u8;
            blob[i + 2] = (w >> 16u32) as u8;
            blob[i + 3] = (w >> 24u32) as u8;
            proof {
                if self.is_storage() {
                    assert forall|j: int| 0 <= j < i + 4 implies #[trigger] blob@[j] == slot_in(c).2[j] by {
                        if j >= i {
                            assert(j / 4 == i / 4);
                        }
                    }
                }
            }
            i += 4;
        }
        proof {
            if self.is_storage() {
                assert(blob@ =~= slot_in(c).2);
            }
        }
        Slot { magic, tag, blob }
    }
}

} // verus!

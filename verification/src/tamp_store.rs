//! Per-author anti-rollback floor store in the TAMP backup registers.
//!
//! The table has `RB_N_AUTHORS` entries of three consecutive backup registers:
//! magic, author id, high-water mark. An entry is live when its first register
//! holds `RB_MAGIC`. A floor only ever rises, authors never disturb each other's
//! floors, and a full table drops new authors rather than evicting anyone.

use crate::mmio::{op_value, rd, writes_of, MmioAccess, MmioOp};
use vstd::prelude::*;

verus! {

/// TAMP backup-register file base (Secure alias): TAMP_BKP0R.
pub const TAMP_BKP_BASE: u32 = 0x5600_4500;

/// Marks a provisioned floor entry (vs cold-boot zero).
pub const RB_MAGIC: u32 = 0x0DC0_5A02;

/// Number of per-author floor entries (capped table; no eviction).
pub const RB_N_AUTHORS: usize = 4;

/// One entry: magic, author id, high-water mark.
pub const RB_ENTRY_STRIDE: u32 = 12;

/// RCC_APB4ENR1 (absolute) and its RTC clock enables.
pub const RCC_APB4ENR1: u32 = 0x5602_8274;
pub const RCC_APB4ENR1_RTC_BITS: u32 = (1 << 16) | (1 << 17);
/// PWR_DBPCR (absolute) and its backup-domain write unlock.
pub const PWR_DBPCR: u32 = 0x5602_482C;
pub const PWR_DBPCR_DBP: u32 = 1 << 0;
/// TAMP_SECCFGR (absolute): all 32 backup registers writable only by Secure.
pub const TAMP_SECCFGR: u32 = 0x5600_4420;
pub const TAMP_SECCFGR_BKPWSEC_ALL: u32 = 32 << 16;
/// PWR_SECCFGR (absolute) and SEC5, which makes the whole backup domain
/// (its software reset included) Secure-only.
pub const PWR_SECCFGR: u32 = 0x5602_4870;
pub const PWR_SECCFGR_SEC5: u32 = 1 << 5;

/// `o[i]` reads `addr` and `o[i + 1]` writes back the value read with `bits` set.
pub open spec fn set_bits_at(o: Seq<MmioOp>, i: int, addr: u32, bits: u32) -> bool {
    &&& o[i] == (MmioOp::Read { addr, value: op_value(o[i]) })
    &&& o[i + 1] == (MmioOp::Write { addr, value: op_value(o[i]) | bits })
}

/// One-time bring-up of the backup domain over the system bus (`bus` maps
/// absolute addresses): enable the RTC/TAMP clock, unlock backup-domain
/// writes, make every backup register Secure-write-only, and make the whole
/// backup domain Secure-only; a barrier after each step.
pub fn init_backup_domain<M: MmioAccess>(bus: &mut M)
    requires
        old(bus).base() == 0,
    ensures
        final(bus).base() == 0,
        ({
            let o = final(bus).ops();
            let n = old(bus).ops().len() as int;
            &&& o.len() == n + 7
            &&& o.take(n) == old(bus).ops()
            &&& set_bits_at(o, n, RCC_APB4ENR1, RCC_APB4ENR1_RTC_BITS)
            &&& set_bits_at(o, n + 2, PWR_DBPCR, PWR_DBPCR_DBP)
            &&& o[n + 4] == (MmioOp::Write { addr: TAMP_SECCFGR, value: TAMP_SECCFGR_BKPWSEC_ALL })
            &&& set_bits_at(o, n + 5, PWR_SECCFGR, PWR_SECCFGR_SEC5)
        }),
{
    let en = bus.read(RCC_APB4ENR1);
    bus.write(RCC_APB4ENR1, en | RCC_APB4ENR1_RTC_BITS);
    bus.barrier();
    let dbpcr = bus.read(PWR_DBPCR);
    bus.write(PWR_DBPCR, dbpcr | PWR_DBPCR_DBP);
    bus.barrier();
    bus.write(TAMP_SECCFGR, TAMP_SECCFGR_BKPWSEC_ALL);
    bus.barrier();
    let pwr_sec = bus.read(PWR_SECCFGR);
    bus.write(PWR_SECCFGR, pwr_sec | PWR_SECCFGR_SEC5);
    bus.barrier();
    assert(bus.ops().take(old(bus).ops().len() as int) =~= old(bus).ops());
}


/// Register contents of a backend, as a function of the offset.
pub open spec fn cells_of<M: MmioAccess>(m: &M) -> spec_fn(u32) -> u32 {
    |o: u32| m.cell(o)
}

/// Entry `s` of the table is live.
pub open spec fn slot_live(c: spec_fn(u32) -> u32, s: int) -> bool {
    c((RB_ENTRY_STRIDE * s) as u32) == RB_MAGIC
}

/// Entry `s` is live and belongs to `author`.
pub open spec fn slot_of(c: spec_fn(u32) -> u32, s: int, author: u32) -> bool {
    slot_live(c, s) && c((RB_ENTRY_STRIDE * s + 4) as u32) == author
}

/// High-water mark held by entry `s`.
pub open spec fn slot_hwm(c: spec_fn(u32) -> u32, s: int) -> u32 {
    c((RB_ENTRY_STRIDE * s + 8) as u32)
}

/// The floor of `author` looking at entries `s..RB_N_AUTHORS`: the mark of the
/// first live entry that belongs to `author`, or 0.
pub open spec fn floor_from(c: spec_fn(u32) -> u32, author: u32, s: int) -> u32
    decreases RB_N_AUTHORS - s,
{
    if s >= RB_N_AUTHORS || s < 0 {
        0
    } else if slot_of(c, s, author) {
        slot_hwm(c, s)
    } else {
        floor_from(c, author, s + 1)
    }
}

/// The anti-rollback floor of `author` in register contents `c`.
pub open spec fn floor_of(c: spec_fn(u32) -> u32, author: u32) -> u32 {
    floor_from(c, author, 0)
}

/// The table can hold a floor for `author`: it has an entry for it, or a free
/// entry.
pub open spec fn has_room(c: spec_fn(u32) -> u32, author: u32) -> bool {
    exists|s: int| 0 <= s < RB_N_AUTHORS && (slot_of(c, s, author) || !#[trigger] slot_live(c, s))
}

/// `o` is one of the three registers of entry `s`.
pub open spec fn in_entry(o: u32, s: int) -> bool {
    o == (RB_ENTRY_STRIDE * s) as u32 || o == (RB_ENTRY_STRIDE * s + 4) as u32 || o == (
    RB_ENTRY_STRIDE * s + 8) as u32
}

/// Entry `t` holds the same three registers in `c` and `c2`.
pub open spec fn entry_same(c: spec_fn(u32) -> u32, c2: spec_fn(u32) -> u32, t: int) -> bool {
    &&& c2((RB_ENTRY_STRIDE * t) as u32) == c((RB_ENTRY_STRIDE * t) as u32)
    &&& c2((RB_ENTRY_STRIDE * t + 4) as u32) == c((RB_ENTRY_STRIDE * t + 4) as u32)
    &&& c2((RB_ENTRY_STRIDE * t + 8) as u32) == c((RB_ENTRY_STRIDE * t + 8) as u32)
}

/// Going from `c` to `c2` changed no entry but entry `s`.
pub open spec fn only_entry_changed(c: spec_fn(u32) -> u32, c2: spec_fn(u32) -> u32, s: int) -> bool {
    &&& 0 <= s < RB_N_AUTHORS
    &&& forall|t: int| 0 <= t < RB_N_AUTHORS && t != s ==> #[trigger] entry_same(c, c2, t)
}

/// Registers outside entry `s` unchanged: every other entry is the same, and
/// where `c` had two free entries `c2` still has room for any author.
proof fn lemma_one_entry(c: spec_fn(u32) -> u32, c2: spec_fn(u32) -> u32, s: int)
    requires
        0 <= s < RB_N_AUTHORS,
        forall|o: u32| !in_entry(o, s) ==> #[trigger] c2(o) == c(o),
    ensures
        only_entry_changed(c, c2, s),
        forall|b: u32, t1: int, t2: int|
            #![trigger has_room(c2, b), slot_live(c, t1), slot_live(c, t2)]
            0 <= t1 < t2 < RB_N_AUTHORS && !slot_live(c, t1) && !slot_live(c, t2) ==> has_room(c2, b),
{
    assert forall|t: int| 0 <= t < RB_N_AUTHORS && t != s implies #[trigger] entry_same(c, c2, t) by {
        assert(!in_entry((RB_ENTRY_STRIDE * t) as u32, s));
        assert(!in_entry((RB_ENTRY_STRIDE * t + 4) as u32, s));
        assert(!in_entry((RB_ENTRY_STRIDE * t + 8) as u32, s));
    }
    assert forall|b: u32, t1: int, t2: int|
        #![trigger has_room(c2, b), slot_live(c, t1), slot_live(c, t2)]
        0 <= t1 < t2 < RB_N_AUTHORS && !slot_live(c, t1) && !slot_live(c, t2) implies has_room(c2, b) by {
        let t = if t1 != s {
            t1
        } else {
            t2
        };
        assert(entry_same(c, c2, t));
        assert(!slot_live(c2, t));
    }
}

/// Per-author anti-rollback floor accessor over TAMP backup registers.
pub struct TampStore<M: MmioAccess> {
    mmio: M,
}

impl<M: MmioAccess> TampStore<M> {
    /// The register backend.
    pub closed spec fn backend(&self) -> M {
        self.mmio
    }

    /// Register contents of the table.
    pub open spec fn cells(&self) -> spec_fn(u32) -> u32 {
        cells_of(&self.backend())
    }

    /// Current floor of `author`.
    pub open spec fn floor(&self, author: u32) -> u32 {
        floor_of(self.cells(), author)
    }

    /// Reads return what was stored (true of backup registers).
    pub open spec fn is_storage(&self) -> bool {
        self.backend().is_storage()
    }

    /// A store over the register backend `mmio`.
    pub fn new_with_mmio(mmio: M) -> (s: Self)
        ensures
            s.backend() == mmio,
    {
        TampStore { mmio }
    }

    /// The register backend.
    pub fn mmio(&self) -> (m: &M)
        ensures
            *m == self.backend(),
    {
        &self.mmio
    }

    fn entry_off(slot: usize) -> (off: u32)
        requires
            slot < RB_N_AUTHORS,
        ensures
            off == RB_ENTRY_STRIDE * slot,
    {
        (slot as u32) * RB_ENTRY_STRIDE
    }

    /// Floor for `author_id`; 0 if no provisioned entry (cold/never-seen).
    pub fn rb_floor(&mut self, author_id: u32) -> (r: u32)
        ensures
            old(self).is_storage() ==> r == old(self).floor(author_id),
            final(self).is_storage() == old(self).is_storage(),
            final(self).cells() == old(self).cells(),
            final(self).backend().base() == old(self).backend().base(),
    {
        let ghost c = self.cells();
        let mut s: usize = 0;
        while s < RB_N_AUTHORS
            invariant
                s <= RB_N_AUTHORS,
                self.is_storage() == old(self).is_storage(),
                self.cells() == c,
                c == old(self).cells(),
                self.backend().base() == old(self).backend().base(),
                self.is_storage() ==> floor_of(c, author_id) == floor_from(c, author_id, s as int),
            decreases RB_N_AUTHORS - s,
        {
            let b = Self::entry_off(s);
            let magic = self.mmio.read(b);
            proof {
                assert(self.cells() =~= c);
            }
            if magic == RB_MAGIC {
                let who = self.mmio.read(b + 4);
                proof {
                    assert(self.cells() =~= c);
                }
                if who == author_id {
                    let hwm = self.mmio.read(b + 8);
                    proof {
                        assert(self.cells() =~= c);
                    }
                    return hwm;
                }
            }
            s += 1;
        }
        0
    }

    /// Raise `author_id`'s floor to `version` (in place if it has an entry, else
    /// in the first free entry, writing the magic last so a torn write reads
    /// cold). A full table leaves everything unchanged.
    pub fn rb_bump(&mut self, author_id: u32, version: u32)
        ensures
            final(self).is_storage() == old(self).is_storage(),
            final(self).backend().base() == old(self).backend().base(),
            old(self).is_storage() ==> {
                &&& final(self).floor(author_id) == if !has_room(old(self).cells(), author_id) {
                    old(self).floor(author_id)
                } else if version > old(self).floor(author_id) {
                    version
                } else {
                    old(self).floor(author_id)
                }
                &&& forall|a: u32|
                    a != author_id ==> #[trigger] final(self).floor(a) == old(self).floor(a)
                &&& has_room(old(self).cells(), author_id) ==> has_room(
                    final(self).cells(),
                    author_id,
                )
                &&& has_room(old(self).cells(), author_id) ==> exists|t: int|
                    0 <= t < RB_N_AUTHORS && #[trigger] slot_of(final(self).cells(), t, author_id)
                &&& !has_room(old(self).cells(), author_id) ==> writes_of(final(self).backend().ops())
                    == writes_of(old(self).backend().ops())
                &&& exists|s: int| #[trigger] only_entry_changed(old(self).cells(), final(self).cells(), s)
                &&& forall|b: u32, t1: int, t2: int|
                    #![trigger has_room(final(self).cells(), b), slot_live(old(self).cells(), t1), slot_live(old(self).cells(), t2)]
                    0 <= t1 < t2 < RB_N_AUTHORS && !slot_live(old(self).cells(), t1) && !slot_live(
                        old(self).cells(),
                        t2,
                    ) ==> has_room(final(self).cells(), b)
            },
    {
        let ghost c = self.cells();
        let mut s: usize = 0;
        while s < RB_N_AUTHORS
            invariant
                s <= RB_N_AUTHORS,
                self.is_storage() == old(self).is_storage(),
                self.cells() == c,
                c == old(self).cells(),
                self.backend().base() == old(self).backend().base(),
                writes_of(self.backend().ops()) == writes_of(old(self).backend().ops()),
                self.is_storage() ==> forall|t: int| 0 <= t < s ==> !#[trigger] slot_of(c, t, author_id),
            decreases RB_N_AUTHORS - s,
        {
            let b = Self::entry_off(s);
            let magic = rd(&mut self.mmio, b);
            proof {
                assert(self.cells() =~= c);
            }
            if magic == RB_MAGIC {
                let who = rd(&mut self.mmio, b + 4);
                proof {
                    assert(self.cells() =~= c);
                }
                if who == author_id {
                    let hwm = rd(&mut self.mmio, b + 8);
                    proof {
                        assert(self.cells() =~= c);
                    }
                    if version > hwm {
                        self.mmio.write(b + 8, version);
                    }
                    proof {
                        if self.is_storage() {
                            lemma_floor_prefix(c, author_id, s as int);
                            lemma_bump_in_place(c, self.cells(), author_id, version, s as int);
                            assert(slot_of(self.cells(), s as int, author_id));
                            lemma_one_entry(c, self.cells(), s as int);
                        }
                    }
                    return;
                }
            }
            s += 1;
        }
        let mut s: usize = 0;
        while s < RB_N_AUTHORS
            invariant
                s <= RB_N_AUTHORS,
                self.is_storage() == old(self).is_storage(),
                self.cells() == c,
                c == old(self).cells(),
                self.backend().base() == old(self).backend().base(),
                writes_of(self.backend().ops()) == writes_of(old(self).backend().ops()),
                self.is_storage() ==> forall|t: int|
                    0 <= t < RB_N_AUTHORS ==> !#[trigger] slot_of(c, t, author_id),
                self.is_storage() ==> forall|t: int| 0 <= t < s ==> #[trigger] slot_live(c, t),
            decreases RB_N_AUTHORS - s,
        {
            let b = Self::entry_off(s);
            let magic = rd(&mut self.mmio, b);
            proof {
                assert(self.cells() =~= c);
            }
            if magic != RB_MAGIC {
                self.mmio.write(b + 4, author_id);
                self.mmio.write(b + 8, version);
                self.mmio.write(b, RB_MAGIC);
                proof {
                    if self.is_storage() {
                        lemma_bump_new_entry(c, self.cells(), author_id, version, s as int);
                        assert(slot_of(self.cells(), s as int, author_id));
                        lemma_one_entry(c, self.cells(), s as int);
                    }
                }
                return;
            }
            s += 1;
        }
        proof {
            if self.is_storage() {
                lemma_one_entry(c, self.cells(), 0);
                assert(!has_room(c, author_id)) by {
                    if has_room(c, author_id) {
                        let t = choose|t: int|
                            0 <= t < RB_N_AUTHORS && (slot_of(c, t, author_id) || !#[trigger] slot_live(
                                c,
                                t,
                            ));
                        assert(slot_live(c, t));
                    }
                }
            }
        }
    }
}

/// If no entry before `s` belongs to `author` and entry `s` does, the floor is
/// the mark of entry `s`.
proof fn lemma_floor_prefix(c: spec_fn(u32) -> u32, author: u32, s: int)
    requires
        0 <= s < RB_N_AUTHORS,
        forall|t: int| 0 <= t < s ==> !#[trigger] slot_of(c, t, author),
    ensures
        floor_of(c, author) == floor_from(c, author, s),
    decreases s,
{
    if s > 0 {
        lemma_floor_prefix_from(c, author, 0, s);
    }
}

proof fn lemma_floor_prefix_from(c: spec_fn(u32) -> u32, author: u32, i: int, s: int)
    requires
        0 <= i <= s < RB_N_AUTHORS,
        forall|t: int| 0 <= t < s ==> !#[trigger] slot_of(c, t, author),
    ensures
        floor_from(c, author, i) == floor_from(c, author, s),
    decreases s - i,
{
    if i < s {
        assert(!slot_of(c, i, author));
        lemma_floor_prefix_from(c, author, i + 1, s);
    }
}

/// Two register contents that agree on every entry `s..` agree on the floors
/// read from `s` on, for an author whose entries they both mark alike.
proof fn lemma_floor_from_agree(c1: spec_fn(u32) -> u32, c2: spec_fn(u32) -> u32, a: u32, s: int)
    requires
        0 <= s <= RB_N_AUTHORS,
        forall|t: int|
            s <= t < RB_N_AUTHORS ==> (#[trigger] slot_of(c1, t, a) == slot_of(c2, t, a) && (slot_of(
                c1,
                t,
                a,
            ) ==> slot_hwm(c1, t) == slot_hwm(c2, t))),
    ensures
        floor_from(c1, a, s) == floor_from(c2, a, s),
    decreases RB_N_AUTHORS - s,
{
    if s < RB_N_AUTHORS {
        assert(slot_of(c1, s, a) == slot_of(c2, s, a));
        lemma_floor_from_agree(c1, c2, a, s + 1);
    }
}

/// Offsets of distinct table registers differ.
proof fn lemma_offsets(s: int, t: int)
    requires
        0 <= s < RB_N_AUTHORS,
        0 <= t < RB_N_AUTHORS,
    ensures
        s != t ==> (RB_ENTRY_STRIDE * s) as u32 != (RB_ENTRY_STRIDE * t) as u32 && (RB_ENTRY_STRIDE * s
            + 4) as u32 != (RB_ENTRY_STRIDE * t + 4) as u32 && (RB_ENTRY_STRIDE * s + 8) as u32 != (
        RB_ENTRY_STRIDE * t + 8) as u32,
        (RB_ENTRY_STRIDE * s + 8) as u32 != (RB_ENTRY_STRIDE * t) as u32,
        (RB_ENTRY_STRIDE * s + 8) as u32 != (RB_ENTRY_STRIDE * t + 4) as u32,
        (RB_ENTRY_STRIDE * s + 4) as u32 != (RB_ENTRY_STRIDE * t) as u32,
        (RB_ENTRY_STRIDE * s + 4) as u32 != (RB_ENTRY_STRIDE * t + 8) as u32,
        (RB_ENTRY_STRIDE * s) as u32 != (RB_ENTRY_STRIDE * t + 4) as u32,
        (RB_ENTRY_STRIDE * s) as u32 != (RB_ENTRY_STRIDE * t + 8) as u32,
{
}

/// Raising the mark of `author`'s first entry `s` in place.
proof fn lemma_bump_in_place(
    c: spec_fn(u32) -> u32,
    c2: spec_fn(u32) -> u32,
    author: u32,
    version: u32,
    s: int,
)
    requires
        0 <= s < RB_N_AUTHORS,
        slot_of(c, s, author),
        forall|t: int| 0 <= t < s ==> !#[trigger] slot_of(c, t, author),
        forall|o: u32|
            #[trigger] c2(o) == if o == (RB_ENTRY_STRIDE * s + 8) as u32 && version > slot_hwm(c, s) {
                version
            } else {
                c(o)
            },
    ensures
        floor_of(c2, author) == if version > floor_of(c, author) {
            version
        } else {
            floor_of(c, author)
        },
        forall|a: u32| a != author ==> #[trigger] floor_of(c2, a) == floor_of(c, a),
        has_room(c, author),
        has_room(c2, author),
{
    lemma_floor_prefix(c, author, s);
    assert forall|t: int| 0 <= t < RB_N_AUTHORS implies (#[trigger] slot_of(c2, t, author)
        == slot_of(c, t, author)) by {
        lemma_offsets(s, t);
    }
    lemma_floor_prefix(c2, author, s);
    assert forall|a: u32| a != author implies #[trigger] floor_of(c2, a) == floor_of(c, a) by {
        assert forall|t: int| 0 <= t < RB_N_AUTHORS implies (#[trigger] slot_of(c, t, a) == slot_of(
            c2,
            t,
            a,
        ) && (slot_of(c, t, a) ==> slot_hwm(c, t) == slot_hwm(c2, t))) by {
            lemma_offsets(s, t);
        }
        lemma_floor_from_agree(c, c2, a, 0);
    }
    assert(slot_of(c, s, author));
    assert(slot_of(c2, s, author));
}

/// Creating a new entry for `author` in the free entry `s`, when no entry
/// belongs to `author` and entries before `s` are all live.
proof fn lemma_bump_new_entry(
    c: spec_fn(u32) -> u32,
    c2: spec_fn(u32) -> u32,
    author: u32,
    version: u32,
    s: int,
)
    requires
        0 <= s < RB_N_AUTHORS,
        !slot_live(c, s),
        forall|t: int| 0 <= t < RB_N_AUTHORS ==> !#[trigger] slot_of(c, t, author),
        forall|t: int| 0 <= t < s ==> #[trigger] slot_live(c, t),
        forall|o: u32|
            #[trigger] c2(o) == if o == (RB_ENTRY_STRIDE * s) as u32 {
                RB_MAGIC
            } else if o == (RB_ENTRY_STRIDE * s + 8) as u32 {
                version
            } else if o == (RB_ENTRY_STRIDE * s + 4) as u32 {
                author
            } else {
                c(o)
            },
    ensures
        floor_of(c2, author) == if version > floor_of(c, author) {
            version
        } else {
            floor_of(c, author)
        },
        forall|a: u32| a != author ==> #[trigger] floor_of(c2, a) == floor_of(c, a),
        has_room(c, author),
        has_room(c2, author),
{
    assert(has_room(c, author)) by {
        assert(0 <= s < RB_N_AUTHORS && (slot_of(c, s, author) || !slot_live(c, s)));
    }
    assert(floor_of(c, author) == 0) by {
        lemma_floor_zero(c, author, 0);
    }
    lemma_offsets(s, s);
    assert(slot_of(c2, s, author));
    assert forall|t: int| 0 <= t < s implies !#[trigger] slot_of(c2, t, author) by {
        lemma_offsets(s, t);
        assert(!slot_of(c, t, author));
    }
    lemma_floor_prefix(c2, author, s);
    assert forall|a: u32| a != author implies #[trigger] floor_of(c2, a) == floor_of(c, a) by {
        assert forall|t: int| 0 <= t < RB_N_AUTHORS implies (#[trigger] slot_of(c, t, a) == slot_of(
            c2,
            t,
            a,
        ) && (slot_of(c, t, a) ==> slot_hwm(c, t) == slot_hwm(c2, t))) by {
            lemma_offsets(s, t);
        }
        lemma_floor_from_agree(c, c2, a, 0);
    }
    assert(!slot_live(c, s));
}

/// With no entry for `author`, its floor is 0.
proof fn lemma_floor_zero(c: spec_fn(u32) -> u32, author: u32, s: int)
    requires
        0 <= s <= RB_N_AUTHORS,
        forall|t: int| 0 <= t < RB_N_AUTHORS ==> !#[trigger] slot_of(c, t, author),
    ensures
        floor_from(c, author, s) == 0,
    decreases RB_N_AUTHORS - s,
{
    if s < RB_N_AUTHORS {
        assert(!slot_of(c, s, author));
        lemma_floor_zero(c, author, s + 1);
    }
}

} // verus!

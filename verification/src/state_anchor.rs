//! State-continuity anchor in the TAMP backup registers, double-buffered for
//! an atomic commit.
//!
//! The anchor `{generation, 128-bit root, per-sector parity}` spans several
//! registers, so a reset in the middle of a write would tear it. Two copies A and
//! B each end with a generation echo written last: a torn copy has
//! `generation != echo` and is ignored. `store` always writes the stale copy and
//! leaves the newest one untouched, so at every instant one complete copy exists.
//! Both copies lie past the anti-rollback floor table (BKP0R..BKP11R).

use crate::aes::{lemma_unpack, pack_le};
use crate::mmio::{le_byte, rd, wr, writes_of, MmioAccess, MmioOp};
use crate::tamp_store::cells_of;
use vstd::prelude::*;

verus! {

/// Registers per copy: generation, four root words, parity, generation echo.
pub const COPY_WORDS: u32 = 7;

/// Copy A: BKP12R..BKP18R.
pub const COPY_A_BASE: u32 = 12 * 4;

/// Copy B: BKP19R..BKP25R.
pub const COPY_B_BASE: u32 = COPY_A_BASE + COPY_WORDS * 4;

/// Field offsets within a copy.
pub const GEN_OFF: u32 = 0x00;
pub const ROOT_OFF: u32 = 0x04;
pub const PARITY_OFF: u32 = 0x14;
/// Written last: the commit marker.
pub const ECHO_OFF: u32 = 0x18;

/// A state-continuity anchor.
#[derive(Clone, Copy, Debug)]
pub struct Anchor {
    pub generation: u32,
    pub root: [u8; 16],
    pub parity: u16,
}

impl View for Anchor {
    type V = (u32, Seq<u8>, u16);

    open spec fn view(&self) -> (u32, Seq<u8>, u16) {
        (self.generation, self.root@, self.parity)
    }
}

pub open spec fn copy_gen(c: spec_fn(u32) -> u32, base: u32) -> u32 {
    c(base)
}

pub open spec fn copy_echo(c: spec_fn(u32) -> u32, base: u32) -> u32 {
    c((base + ECHO_OFF) as u32)
}

pub open spec fn copy_parity(c: spec_fn(u32) -> u32, base: u32) -> u16 {
    c((base + PARITY_OFF) as u32) as u16
}

/// The root of a copy: its four root words, little-endian.
pub open spec fn copy_root(c: spec_fn(u32) -> u32, base: u32) -> Seq<u8> {
    Seq::new(16, |i: int| le_byte(c((base + ROOT_OFF + 4 * (i / 4)) as u32), i % 4))
}

/// A copy is committed when its echo confirms a non-zero generation
/// (generation 0 marks a never-written copy).
pub open spec fn copy_valid(c: spec_fn(u32) -> u32, base: u32) -> bool {
    copy_gen(c, base) != 0 && copy_gen(c, base) == copy_echo(c, base)
}

pub open spec fn copy_anchor(c: spec_fn(u32) -> u32, base: u32) -> (u32, Seq<u8>, u16) {
    (copy_gen(c, base), copy_root(c, base), copy_parity(c, base))
}

/// What `load` gives back: the valid copy with the higher generation (A on a
/// tie), or `None` when neither copy is valid.
pub open spec fn loaded(c: spec_fn(u32) -> u32) -> Option<(u32, Seq<u8>, u16)> {
    let va = copy_valid(c, COPY_A_BASE);
    let vb = copy_valid(c, COPY_B_BASE);
    if va && vb {
        if copy_gen(c, COPY_A_BASE) >= copy_gen(c, COPY_B_BASE) {
            Some(copy_anchor(c, COPY_A_BASE))
        } else {
            Some(copy_anchor(c, COPY_B_BASE))
        }
    } else if va {
        Some(copy_anchor(c, COPY_A_BASE))
    } else if vb {
        Some(copy_anchor(c, COPY_B_BASE))
    } else {
        None
    }
}

/// The copy `store` writes: the stale one (the older valid copy, the invalid
/// one, or A when both are invalid).
pub open spec fn store_target(c: spec_fn(u32) -> u32) -> u32 {
    let va = copy_valid(c, COPY_A_BASE);
    let vb = copy_valid(c, COPY_B_BASE);
    if va && vb {
        if copy_gen(c, COPY_A_BASE) >= copy_gen(c, COPY_B_BASE) {
            COPY_B_BASE
        } else {
            COPY_A_BASE
        }
    } else if va {
        COPY_B_BASE
    } else {
        COPY_A_BASE
    }
}

/// Register offset `o` belongs to the copy at `base`.
pub open spec fn in_copy(o: u32, base: u32) -> bool {
    base <= o < base + COPY_WORDS * 4
}

/// Law of the double buffer: a store interrupted before its commit marker
/// landed (the written copy reads as torn) leaves `load` giving exactly what
/// it gave before the store, since the other copy was not touched.
pub proof fn lemma_torn_store_keeps_previous(c: spec_fn(u32) -> u32, c2: spec_fn(u32) -> u32)
    requires
        forall|o: u32| !in_copy(o, store_target(c)) ==> #[trigger] c2(o) == c(o),
        !copy_valid(c2, store_target(c)),
    ensures
        loaded(c2) == loaded(c),
{
    let t = store_target(c);
    let other = if t == COPY_A_BASE {
        COPY_B_BASE
    } else {
        COPY_A_BASE
    };
    assert forall|o: u32| in_copy(o, other) implies #[trigger] c2(o) == c(o) by {
        assert(!in_copy(o, t));
    }
    assert(c2(other) == c(other));
    assert(c2((other + ECHO_OFF) as u32) == c((other + ECHO_OFF) as u32));
    assert(c2((other + PARITY_OFF) as u32) == c((other + PARITY_OFF) as u32));
    assert(copy_root(c2, other) =~= copy_root(c, other)) by {
        assert forall|i: int| 0 <= i < 16 implies copy_root(c2, other)[i] == copy_root(c, other)[i] by {
            let o = (other + ROOT_OFF + 4 * (i / 4)) as u32;
            assert(in_copy(o, other));
        }
    }
}

/// One physical copy as read back from the registers.
struct RawCopy {
    generation: u32,
    root: [u8; 16],
    parity: u16,
    echo: u32,
}

impl RawCopy {
    /// The echo confirms a non-zero generation.
    fn valid(&self) -> (b: bool)
        ensures
            b == (self.generation != 0 && self.generation == self.echo),
    {
        self.generation != 0 && self.generation == self.echo
    }
}

/// The writes that commit anchor `x` (generation, root, parity) into the
/// copy at `copy` of the register block at `base`, in order: the
/// generation, the four root words least significant byte first, the
/// parity, then the echo of the generation last.
pub open spec fn copy_writes(base: u32, copy: u32, x: (u32, Seq<u8>, u16)) -> Seq<(u32, u32)> {
    let r = x.1;
    seq![
        (base.wrapping_add((copy + GEN_OFF) as u32), x.0),
        (base.wrapping_add((copy + ROOT_OFF) as u32), pack_le(r[0], r[1], r[2], r[3])),
        (base.wrapping_add((copy + ROOT_OFF + 4) as u32), pack_le(r[4], r[5], r[6], r[7])),
        (base.wrapping_add((copy + ROOT_OFF + 8) as u32), pack_le(r[8], r[9], r[10], r[11])),
        (base.wrapping_add((copy + ROOT_OFF + 12) as u32), pack_le(r[12], r[13], r[14], r[15])),
        (base.wrapping_add((copy + PARITY_OFF) as u32), x.2 as u32),
        (base.wrapping_add((copy + ECHO_OFF) as u32), x.0),
    ]
}

/// The double-buffered anchor over a TAMP register backend.
pub struct StateAnchor<M: MmioAccess> {
    mmio: M,
}

impl<M: MmioAccess> StateAnchor<M> {
    pub closed spec fn backend(&self) -> M {
        self.mmio
    }

    pub open spec fn cells(&self) -> spec_fn(u32) -> u32 {
        cells_of(&self.backend())
    }

    pub open spec fn is_storage(&self) -> bool {
        self.backend().is_storage()
    }

    pub fn new_with_mmio(mmio: M) -> (s: Self)
        ensures
            s.backend() == mmio,
    {
        Self { mmio }
    }

    /// The register backend.
    pub fn mmio(&self) -> (m: &M)
        ensures
            *m == self.backend(),
    {
        &self.mmio
    }

    /// The register backend, mutably (for fault injection in host tests).
    pub fn mmio_mut(&mut self) -> (m: &mut M)
        ensures
            *m == old(self).backend(),
            final(self).backend() == *final(m),
    {
        &mut self.mmio
    }

    fn read_copy(&mut self, base: u32) -> (r: RawCopy)
        requires
            base == COPY_A_BASE || base == COPY_B_BASE,
        ensures
            final(self).is_storage() == old(self).is_storage(),
            final(self).cells() == old(self).cells(),
            final(self).backend().base() == old(self).backend().base(),
            writes_of(final(self).backend().ops()) == writes_of(old(self).backend().ops()),
            old(self).is_storage() ==> {
                &&& r.generation == copy_gen(old(self).cells(), base)
                &&& r.echo == copy_echo(old(self).cells(), base)
                &&& r.parity == copy_parity(old(self).cells(), base)
                &&& r.root@ == copy_root(old(self).cells(), base)
            },
    {
        let ghost c = self.cells();
        let generation = rd(&mut self.mmio, base + GEN_OFF);
        proof {
            assert(self.cells() =~= c);
        }
        let mut root = [0u8; 16];
        let mut w: u32 = 0;
        while w < 4
            invariant
                w <= 4,
                base == COPY_A_BASE || base == COPY_B_BASE,
                self.is_storage() == old(self).is_storage(),
                self.cells() == c,
                c == old(self).cells(),
                self.backend().base() == old(self).backend().base(),
                writes_of(self.backend().ops()) == writes_of(old(self).backend().ops()),
                self.is_storage() ==> forall|i: int|
                    0 <= i < 4 * w ==> #[trigger] root@[i] == copy_root(c, base)[i],
            decreases 4 - w,
        {
            let word = rd(&mut self.mmio, base + ROOT_OFF + w * 4);
            proof {
                assert(self.cells() =~= c);
            }
            let o = (w * 4) as usize;
            root[o] = word as u8;
            root[o + 1] = (word >> 8u32) as u8;
            root[o + 2] = (word >> 16u32) as u8;
            root[o + 3] = (word >> 24u32) as u8;
            proof {
                if self.is_storage() {
                    assert forall|i: int| 0 <= i < 4 * (w + 1) implies #[trigger] root@[i] == copy_root(
                        c,
                        base,
                    )[i] by {
                        if i >= 4 * w {
                            assert(i / 4 == w as int);
                        }
                    }
                }
            }
            w += 1;
        }
        let parity = rd(&mut self.mmio, base + PARITY_OFF) as u16;
        proof {
            assert(self.cells() =~= c);
        }
        let echo = rd(&mut self.mmio, base + ECHO_OFF);
        proof {
            assert(self.cells() =~= c);
            if self.is_storage() {
                assert(root@ =~= copy_root(c, base));
            }
        }
        RawCopy { generation, root, parity, echo }
    }

    /// Write a copy in field order with the generation echo last (the commit
    /// marker).
    fn write_copy(&mut self, base: u32, a: &Anchor)
        requires
            base == COPY_A_BASE || base == COPY_B_BASE,
        ensures
            final(self).is_storage() == old(self).is_storage(),
            final(self).backend().base() == old(self).backend().base(),
            copy_gen(final(self).cells(), base) == a.generation,
            copy_echo(final(self).cells(), base) == a.generation,
            copy_parity(final(self).cells(), base) == a.parity,
            copy_root(final(self).cells(), base) == a.root@,
            forall|o: u32| !in_copy(o, base) ==> #[trigger] final(self).cells()(o) == old(self).cells()(o),
            final(self).backend().ops().last() == (MmioOp::Write {
                addr: old(self).backend().base().wrapping_add((base + ECHO_OFF) as u32),
                value: a.generation,
            }),
            writes_of(final(self).backend().ops()) == writes_of(old(self).backend().ops()) + copy_writes(
                old(self).backend().base(),
                base,
                a@,
            ),
    {
        let ghost c = self.cells();
        let ghost w0 = writes_of(self.backend().ops());
        let ghost mb = self.backend().base();
        wr(&mut self.mmio, base + GEN_OFF, a.generation);
        let mut w: u32 = 0;
        while w < 4
            invariant
                w <= 4,
                base == COPY_A_BASE || base == COPY_B_BASE,
                self.is_storage() == old(self).is_storage(),
                self.backend().base() == old(self).backend().base(),
                c == old(self).cells(),
                self.cells()(base) == a.generation,
                mb == old(self).backend().base(),
                w0 == writes_of(old(self).backend().ops()),
                writes_of(self.backend().ops()) == w0 + copy_writes(mb, base, a@).take(1 + w as int),
                forall|k: int|
                    0 <= k < w ==> #[trigger] self.cells()((base + ROOT_OFF + 4 * k) as u32) == pack_le(
                        a.root[4 * k],
                        a.root[4 * k + 1],
                        a.root[4 * k + 2],
                        a.root[4 * k + 3],
                    ),
                forall|o: u32| !in_copy(o, base) ==> #[trigger] self.cells()(o) == c(o),
            decreases 4 - w,
        {
            let o = (w * 4) as usize;
            let word = (a.root[o] as u32) | ((a.root[o + 1] as u32) << 8u32) | ((a.root[o + 2] as u32)
                << 16u32) | ((a.root[o + 3] as u32) << 24u32);
            let ghost before = self.cells();
            let off = base + ROOT_OFF + w * 4;
            wr(&mut self.mmio, off, word);
            proof {
                assert(word == pack_le(a.root[o as int], a.root[o + 1], a.root[o + 2], a.root[o + 3]));
                assert(writes_of(self.backend().ops()) =~= w0 + copy_writes(mb, base, a@).take(2 + w as int));
                let now = self.cells();
                assert forall|o: u32| #[trigger] now(o) == (if o == off {
                    word
                } else {
                    before(o)
                }) by {}
                assert forall|k: int| 0 <= k < w + 1 implies #[trigger] now(
                    (base + ROOT_OFF + 4 * k) as u32,
                ) == pack_le(a.root[4 * k], a.root[4 * k + 1], a.root[4 * k + 2], a.root[4 * k + 3]) by {
                    if k < w {
                        assert(before((base + ROOT_OFF + 4 * k) as u32) == pack_le(
                            a.root[4 * k],
                            a.root[4 * k + 1],
                            a.root[4 * k + 2],
                            a.root[4 * k + 3],
                        ));
                    }
                }
                assert forall|o: u32| !in_copy(o, base) implies #[trigger] now(o) == c(o) by {
                    assert(before(o) == c(o));
                }
            }
            w += 1;
        }
        let ghost before = self.cells();
        wr(&mut self.mmio, base + PARITY_OFF, a.parity as u32);
        wr(&mut self.mmio, base + ECHO_OFF, a.generation);
        proof {
            assert(writes_of(self.backend().ops()) =~= w0 + copy_writes(mb, base, a@));
            let f = self.cells();
            assert forall|o: u32| #[trigger] f(o) == (if o == base + ECHO_OFF {
                a.generation
            } else if o == base + PARITY_OFF {
                a.parity as u32
            } else {
                before(o)
            }) by {}
            assert forall|k: int| 0 <= k < 4 implies #[trigger] f((base + ROOT_OFF + 4 * k) as u32)
                == pack_le(a.root[4 * k], a.root[4 * k + 1], a.root[4 * k + 2], a.root[4 * k + 3]) by {
                assert(before((base + ROOT_OFF + 4 * k) as u32) == pack_le(
                    a.root[4 * k],
                    a.root[4 * k + 1],
                    a.root[4 * k + 2],
                    a.root[4 * k + 3],
                ));
            }
            assert forall|o: u32| !in_copy(o, base) implies #[trigger] f(o) == old(self).cells()(o) by {
                assert(before(o) == c(o));
            }
            assert forall|i: int| 0 <= i < 16 implies #[trigger] copy_root(f, base)[i] == a.root@[i] by {
                let k = i / 4;
                assert(f((base + ROOT_OFF + 4 * k) as u32) == pack_le(
                    a.root[4 * k],
                    a.root[4 * k + 1],
                    a.root[4 * k + 2],
                    a.root[4 * k + 3],
                ));
                lemma_unpack(a.root[4 * k], a.root[4 * k + 1], a.root[4 * k + 2], a.root[4 * k + 3]);
            }
            assert(copy_root(f, base) =~= a.root@);
            let p = a.parity;
            assert(p as u32 as u16 == p) by (bit_vector);
        }
    }

    /// Invalidate the anchor: zero both copies' generation and echo, so `load`
    /// gives `None`. Used when an enclave terminates, so that a later reset
    /// starts a fresh run.
    pub fn invalidate(&mut self)
        ensures
            final(self).is_storage() == old(self).is_storage(),
            final(self).backend().base() == old(self).backend().base(),
            loaded(final(self).cells()) is None,
            forall|o: u32|
                o != COPY_A_BASE && o != COPY_A_BASE + ECHO_OFF && o != COPY_B_BASE && o != COPY_B_BASE
                    + ECHO_OFF ==> #[trigger] final(self).cells()(o) == old(self).cells()(o),
    {
        self.mmio.write(COPY_A_BASE + GEN_OFF, 0);
        self.mmio.write(COPY_A_BASE + ECHO_OFF, 0);
        self.mmio.write(COPY_B_BASE + GEN_OFF, 0);
        self.mmio.write(COPY_B_BASE + ECHO_OFF, 0);
    }

    /// The newest valid copy, or `None` when both copies are cold or torn.
    pub fn load(&mut self) -> (r: Option<Anchor>)
        ensures
            final(self).is_storage() == old(self).is_storage(),
            final(self).cells() == old(self).cells(),
            final(self).backend().base() == old(self).backend().base(),
            writes_of(final(self).backend().ops()) == writes_of(old(self).backend().ops()),
            old(self).is_storage() ==> match r {
                None => loaded(old(self).cells()) is None,
                Some(x) => loaded(old(self).cells()) == Some(x@),
            },
    {
        let a = self.read_copy(COPY_A_BASE);
        let b = self.read_copy(COPY_B_BASE);
        let pick = if a.valid() && b.valid() {
            if a.generation >= b.generation {
                &a
            } else {
                &b
            }
        } else if a.valid() {
            &a
        } else if b.valid() {
            &b
        } else {
            return None;
        };
        Some(Anchor { generation: pick.generation, root: pick.root, parity: pick.parity })
    }

    /// Commit `new` into the stale copy, leaving the newest copy untouched as the
    /// fallback until the new echo lands.
    pub fn store(&mut self, new: &Anchor)
        ensures
            final(self).is_storage() == old(self).is_storage(),
            final(self).backend().base() == old(self).backend().base(),
            exists|t: u32|
                (t == COPY_A_BASE || t == COPY_B_BASE) && writes_of(final(self).backend().ops())
                    == writes_of(old(self).backend().ops()) + #[trigger] copy_writes(
                    old(self).backend().base(),
                    t,
                    new@,
                ) && (old(self).is_storage() ==> t == store_target(old(self).cells())),
            old(self).is_storage() ==> {
                let t = store_target(old(self).cells());
                &&& copy_anchor(final(self).cells(), t) == new@
                &&& copy_echo(final(self).cells(), t) == new.generation
                &&& forall|o: u32|
                    !in_copy(o, t) ==> #[trigger] final(self).cells()(o) == old(self).cells()(o)
                &&& final(self).backend().ops().last() == (MmioOp::Write {
                    addr: old(self).backend().base().wrapping_add((t + ECHO_OFF) as u32),
                    value: new.generation,
                })
                &&& (new.generation != 0 && match loaded(old(self).cells()) {
                    None => true,
                    Some(x) => new.generation > x.0,
                }) ==> loaded(final(self).cells()) == Some(new@)
            },
    {
        let ghost c = self.cells();
        let a = self.read_copy(COPY_A_BASE);
        let b = self.read_copy(COPY_B_BASE);
        let target = if a.valid() && b.valid() {
            if a.generation >= b.generation {
                COPY_B_BASE
            } else {
                COPY_A_BASE
            }
        } else if a.valid() {
            COPY_B_BASE
        } else {
            COPY_A_BASE
        };
        self.write_copy(target, new);
        proof {
            assert(copy_writes(old(self).backend().base(), target, new@) == copy_writes(
                old(self).backend().base(),
                target,
                new@,
            ));
            if self.is_storage() {
                let f = self.cells();
                let other = if target == COPY_A_BASE {
                    COPY_B_BASE
                } else {
                    COPY_A_BASE
                };
                assert forall|o: u32| in_copy(o, other) implies #[trigger] f(o) == c(o) by {
                    assert(!in_copy(o, target));
                }
                assert(f(other) == c(other));
                assert(f((other + ECHO_OFF) as u32) == c((other + ECHO_OFF) as u32));
                assert(f((other + PARITY_OFF) as u32) == c((other + PARITY_OFF) as u32));
                assert(copy_root(f, other) =~= copy_root(c, other)) by {
                    assert forall|i: int| 0 <= i < 16 implies copy_root(f, other)[i] == copy_root(
                        c,
                        other,
                    )[i] by {
                        let o = (other + ROOT_OFF + 4 * (i / 4)) as u32;
                        assert(in_copy(o, other));
                        assert(f(o) == c(o));
                    }
                }
            }
        }
    }
}

} // verus!

//! Write-back of enclave state-continuity sectors to the external NOR flash.
//!
//! The state region is the top 1 MB of the 64 MB XSPI2 part (0x73F0_0000),
//! outside the memory-cipher window. Each logical sector has an A and a B slot,
//! each one 4 KB subsector. Writes go through the single-SPI command path of
//! the flash controller, taken here as an [`XspiFlash`] port: leave
//! memory-mapped mode, erase the subsector, program it 256 bytes at a time, and
//! always return to memory-mapped reads, then invalidate the data cache over the
//! written range so later memory-mapped reads see the new content.

use crate::mmio::{MmioAccess, MmioOp};
use vstd::prelude::*;

verus! {

pub const STATE_REGION_BASE: u32 = 0x73F0_0000;
/// One NOR subsector: one A/B slot.
pub const PHYS_SECTOR_SIZE: usize = 0x1000;
/// A/B double buffer.
pub const SLOT_COUNT: usize = 2;
/// Logical state sectors: one per bit of the anchor's 16-bit parity word.
pub const MAX_STATE_SECTORS: usize = 16;
/// Flash page size for programming.
pub const PAGE_SIZE: usize = 256;
/// Budget for the write-in-progress poll.
pub const POLL_MAX: u32 = 3_000_000;

/// Errors of the state-sector writer.
#[derive(Clone, Copy, Debug, PartialEq, Eq, Structural)]
pub enum StateFlashError {
    IndexOutOfRange,
    SlotOutOfRange,
    WriteEnableFailed,
    EraseTimeout,
    ProgramTimeout,
}

/// Flash address of slot `slot` of logical sector `idx`.
pub open spec fn sector_addr(idx: int, slot: int) -> int {
    STATE_REGION_BASE + (idx * SLOT_COUNT + slot) * PHYS_SECTOR_SIZE
}

/// Flash address of the subsector for logical sector `idx`, slot `slot`.
pub fn state_sector_addr(idx: usize, slot: usize) -> (r: Result<u32, StateFlashError>)
    ensures
        idx >= MAX_STATE_SECTORS ==> r == Err::<u32, StateFlashError>(StateFlashError::IndexOutOfRange),
        idx < MAX_STATE_SECTORS && slot >= SLOT_COUNT ==> r == Err::<u32, StateFlashError>(
            StateFlashError::SlotOutOfRange,
        ),
        idx < MAX_STATE_SECTORS && slot < SLOT_COUNT ==> r == Ok::<u32, StateFlashError>(
            sector_addr(idx as int, slot as int) as u32,
        ),
{
    if idx >= MAX_STATE_SECTORS {
        return Err(StateFlashError::IndexOutOfRange);
    }
    if slot >= SLOT_COUNT {
        return Err(StateFlashError::SlotOutOfRange);
    }
    Ok(STATE_REGION_BASE + ((idx * SLOT_COUNT + slot) * PHYS_SECTOR_SIZE) as u32)
}

/// Every slot address is 4 KB aligned, inside the 1 MB state region, and slots
/// of distinct (sector, slot) pairs are distinct subsectors.
pub proof fn lemma_sector_layout(i1: int, s1: int, i2: int, s2: int)
    requires
        0 <= i1 < MAX_STATE_SECTORS,
        0 <= i2 < MAX_STATE_SECTORS,
        0 <= s1 < SLOT_COUNT,
        0 <= s2 < SLOT_COUNT,
    ensures
        sector_addr(i1, s1) % 0x1000 == 0,
        STATE_REGION_BASE <= sector_addr(i1, s1),
        sector_addr(i1, s1) + PHYS_SECTOR_SIZE <= STATE_REGION_BASE + 0x10_0000,
        (i1 != i2 || s1 != s2) ==> (sector_addr(i1, s1) + PHYS_SECTOR_SIZE <= sector_addr(i2, s2)
            || sector_addr(i2, s2) + PHYS_SECTOR_SIZE <= sector_addr(i1, s1)),
{
}

/// A command issued to the flash controller, with its outcome.
pub enum FlashCmd {
    EnterIndirect,
    RestoreMemoryMapped,
    SwitchFmode { read: bool },
    WriteEnable { ok: bool },
    ReadStatus { status: Option<u8> },
    Erase4k { addr: u32, ok: bool },
    PollWip { budget: u32, ok: bool },
    PageProgram { addr: u32, data: Seq<u8>, ok: bool },
}

/// The single-SPI command interface of the XSPI2 flash controller.
pub trait XspiFlash {
    /// Every command issued so far, oldest first.
    spec fn cmds(&self) -> Seq<FlashCmd>;

    /// Leave memory-mapped mode for indirect writes; returns the saved
    /// configuration.
    fn enter_indirect_mode(&mut self) -> (saved: u32)
        ensures
            final(self).cmds() == old(self).cmds().push(FlashCmd::EnterIndirect),
    ;

    /// Return to memory-mapped single-SPI reads.
    fn restore_memory_mapped_1_1_1(&mut self)
        ensures
            final(self).cmds() == old(self).cmds().push(FlashCmd::RestoreMemoryMapped),
    ;

    /// Select indirect read (`true`) or indirect write (`false`).
    fn switch_fmode_minimal(&mut self, read: bool)
        ensures
            final(self).cmds() == old(self).cmds().push(FlashCmd::SwitchFmode { read }),
    ;

    /// Send WREN.
    fn write_enable_spi_minimal(&mut self) -> (r: Result<(), ()>)
        ensures
            final(self).cmds() == old(self).cmds().push(FlashCmd::WriteEnable { ok: r is Ok }),
    ;

    /// Read the status register (RDSR).
    fn read_status_register_spi_minimal(&mut self) -> (r: Result<u8, ()>)
        ensures
            final(self).cmds() == old(self).cmds().push(
                FlashCmd::ReadStatus {
                    status: match r {
                        Ok(s) => Some(s),
                        Err(_) => None,
                    },
                },
            ),
    ;

    /// Erase the 4 KB subsector at `addr`.
    fn subsector_erase_4k_spi(&mut self, addr: u32) -> (r: Result<(), ()>)
        ensures
            final(self).cmds() == old(self).cmds().push(FlashCmd::Erase4k { addr, ok: r is Ok }),
    ;

    /// Wait, at most `budget` polls, for the write in progress to finish.
    fn poll_wip_spi(&mut self, budget: u32) -> (r: Result<(), ()>)
        ensures
            final(self).cmds() == old(self).cmds().push(FlashCmd::PollWip { budget, ok: r is Ok }),
    ;

    /// Program `data` (one page) at `addr`.
    fn page_program_spi(&mut self, addr: u32, data: &[u8]) -> (r: Result<(), ()>)
        ensures
            final(self).cmds() == old(self).cmds().push(
                FlashCmd::PageProgram { addr, data: data@, ok: r is Ok },
            ),
    ;
}

/// A flash controller for hosts without XSPI2: every command succeeds, each
/// status read returns `status`, and the erased subsectors and programmed
/// pages are recorded by address.
pub struct SimFlash {
    status: u8,
    erased: Vec<u32>,
    programmed: Vec<u32>,
    log: Ghost<Seq<FlashCmd>>,
}

impl SimFlash {
    /// The value each status read returns.
    pub closed spec fn status(&self) -> u8 {
        self.status
    }

    /// A controller whose status reads return `status` and that has seen no
    /// command.
    pub fn new(status: u8) -> (f: Self)
        ensures
            f.status() == status,
            f.cmds() == Seq::<FlashCmd>::empty(),
            f.erased_addrs() == Seq::<u32>::empty(),
            f.programmed_addrs() == Seq::<u32>::empty(),
    {
        SimFlash { status, erased: Vec::new(), programmed: Vec::new(), log: Ghost(Seq::empty()) }
    }

    /// Addresses of the erased subsectors, in order.
    pub closed spec fn erased_addrs(&self) -> Seq<u32> {
        self.erased@
    }

    /// Addresses of the programmed pages, in order.
    pub closed spec fn programmed_addrs(&self) -> Seq<u32> {
        self.programmed@
    }

    /// Addresses of the erased subsectors, in order.
    pub fn erased(&self) -> (v: &Vec<u32>)
        ensures
            v@ == self.erased_addrs(),
    {
        &self.erased
    }

    /// Addresses of the programmed pages, in order.
    pub fn programmed(&self) -> (v: &Vec<u32>)
        ensures
            v@ == self.programmed_addrs(),
    {
        &self.programmed
    }
}

impl XspiFlash for SimFlash {
    closed spec fn cmds(&self) -> Seq<FlashCmd> {
        self.log@
    }

    fn enter_indirect_mode(&mut self) -> (saved: u32) {
        self.log = Ghost(self.log@.push(FlashCmd::EnterIndirect));
        0
    }

    fn restore_memory_mapped_1_1_1(&mut self) {
        self.log = Ghost(self.log@.push(FlashCmd::RestoreMemoryMapped));
    }

    fn switch_fmode_minimal(&mut self, read: bool) {
        self.log = Ghost(self.log@.push(FlashCmd::SwitchFmode { read }));
    }

    fn write_enable_spi_minimal(&mut self) -> (r: Result<(), ()>)
        ensures
            r is Ok,
            final(self).status() == old(self).status(),
            final(self).erased_addrs() == old(self).erased_addrs(),
            final(self).programmed_addrs() == old(self).programmed_addrs(),
    {
        self.log = Ghost(self.log@.push(FlashCmd::WriteEnable { ok: true }));
        Ok(())
    }

    fn read_status_register_spi_minimal(&mut self) -> (r: Result<u8, ()>)
        ensures
            r == Ok::<u8, ()>(old(self).status()),
            final(self).status() == old(self).status(),
    {
        self.log = Ghost(self.log@.push(FlashCmd::ReadStatus { status: Some(self.status) }));
        Ok(self.status)
    }

    fn subsector_erase_4k_spi(&mut self, addr: u32) -> (r: Result<(), ()>)
        ensures
            r is Ok,
            final(self).status() == old(self).status(),
            final(self).erased_addrs() == old(self).erased_addrs().push(addr),
            final(self).programmed_addrs() == old(self).programmed_addrs(),
    {
        self.log = Ghost(self.log@.push(FlashCmd::Erase4k { addr, ok: true }));
        self.erased.push(addr);
        Ok(())
    }

    fn poll_wip_spi(&mut self, budget: u32) -> (r: Result<(), ()>)
        ensures
            r is Ok,
            final(self).status() == old(self).status(),
            final(self).erased_addrs() == old(self).erased_addrs(),
            final(self).programmed_addrs() == old(self).programmed_addrs(),
    {
        self.log = Ghost(self.log@.push(FlashCmd::PollWip { budget, ok: true }));
        Ok(())
    }

    fn page_program_spi(&mut self, addr: u32, data: &[u8]) -> (r: Result<(), ()>)
        ensures
            r is Ok,
            final(self).status() == old(self).status(),
            final(self).erased_addrs() == old(self).erased_addrs(),
            final(self).programmed_addrs() == old(self).programmed_addrs().push(addr),
    {
        self.log = Ghost(self.log@.push(FlashCmd::PageProgram { addr, data: data@, ok: true }));
        self.programmed.push(addr);
        Ok(())
    }
}

/// `s` begins with `p`.
pub open spec fn starts_with<A>(s: Seq<A>, p: Seq<A>) -> bool {
    &&& p.len() <= s.len()
    &&& forall|i: int| 0 <= i < p.len() ==> #[trigger] s[i] == p[i]
}

/// The confirmed write enable: indirect write, WREN, indirect read, RDSR with
/// WEL (bit 1) set, back to indirect write.
pub open spec fn wel_ok_cmds(status: u8) -> Seq<FlashCmd> {
    seq![
        FlashCmd::SwitchFmode { read: false },
        FlashCmd::WriteEnable { ok: true },
        FlashCmd::SwitchFmode { read: true },
        FlashCmd::ReadStatus { status: Some(status) },
        FlashCmd::SwitchFmode { read: false },
    ]
}

/// `actual` is how the command `expected` of a successful write comes back
/// failed: WREN refused, RDSR unanswered or without WEL (bit 1), or an
/// erase, WIP poll or page program that did not complete.
pub open spec fn fails_as(expected: FlashCmd, actual: FlashCmd) -> bool {
    match expected {
        FlashCmd::WriteEnable { ok: true } => actual == FlashCmd::WriteEnable { ok: false },
        FlashCmd::ReadStatus { status: Some(_) } => actual == FlashCmd::ReadStatus { status: None } || (
        actual matches FlashCmd::ReadStatus { status: Some(v) } && v & 2 == 0),
        FlashCmd::Erase4k { addr, ok: true } => actual == FlashCmd::Erase4k { addr, ok: false },
        FlashCmd::PollWip { budget, ok: true } => actual == FlashCmd::PollWip { budget, ok: false },
        FlashCmd::PageProgram { addr, data, ok: true } => actual == FlashCmd::PageProgram {
            addr,
            data,
            ok: false,
        },
        _ => false,
    }
}

/// The error reported when command `k` of a successful write, `expected`,
/// fails: a write enable or its status check is `WriteEnableFailed`; the
/// erase and its WIP poll (command 6) are `EraseTimeout`; a page program
/// and its WIP poll are `ProgramTimeout`.
pub open spec fn failure_error(expected: FlashCmd, k: int) -> StateFlashError {
    match expected {
        FlashCmd::WriteEnable { .. } => StateFlashError::WriteEnableFailed,
        FlashCmd::ReadStatus { .. } => StateFlashError::WriteEnableFailed,
        FlashCmd::Erase4k { .. } => StateFlashError::EraseTimeout,
        FlashCmd::PollWip { .. } => if k == 6 {
            StateFlashError::EraseTimeout
        } else {
            StateFlashError::ProgramTimeout
        },
        _ => StateFlashError::ProgramTimeout,
    }
}

/// `log` is the commands of a write of `bytes` at `base` (with the status
/// bytes `st`) up to command `k`, which came back failed as `a`.
pub open spec fn fails_at(base: u32, bytes: Seq<u8>, st: Seq<u8>, k: int, a: FlashCmd, log: Seq<FlashCmd>) -> bool {
    &&& st.len() == 17
    &&& forall|i: int| 0 <= i < 17 ==> #[trigger] st[i] & 2 != 0
    &&& 0 <= k < sector_write_cmds(base, bytes, st).len()
    &&& fails_as(sector_write_cmds(base, bytes, st)[k], a)
    &&& log == sector_write_cmds(base, bytes, st).take(k).push(a)
}

/// WREN, then RDSR to confirm WEL, leaving the controller in indirect write.
fn write_enable_verified<X: XspiFlash>(x: &mut X) -> (r: Result<(), StateFlashError>)
    ensures
        starts_with(final(x).cmds(), old(x).cmds()),
        final(x).cmds().len() > old(x).cmds().len(),
        r is Err ==> r == Err::<(), StateFlashError>(StateFlashError::WriteEnableFailed),
        r is Err ==> exists|j: int, a: FlashCmd|
            (j == 1 || j == 3) && #[trigger] fails_as(wel_ok_cmds(2)[j], a) && final(x).cmds() == old(
                x,
            ).cmds() + wel_ok_cmds(2).take(j).push(a),
        r is Ok <==> exists|s: u8|
            s & 2 != 0 && #[trigger] wel_ok_cmds(s) == final(x).cmds().skip(old(x).cmds().len() as int),
{
    let ghost c0 = x.cmds();
    x.switch_fmode_minimal(false);
    let we = x.write_enable_spi_minimal();
    if we.is_err() {
        proof {
            assert(x.cmds().take(c0.len() as int) =~= c0);
            assert forall|s: u8| !(#[trigger] wel_ok_cmds(s) == x.cmds().skip(c0.len() as int)) by {
                assert(x.cmds().skip(c0.len() as int).len() == 2);
            }
            let a = FlashCmd::WriteEnable { ok: false };
            assert(fails_as(wel_ok_cmds(2)[1], a));
            assert(x.cmds() =~= c0 + wel_ok_cmds(2).take(1).push(a));
        }
        return Err(StateFlashError::WriteEnableFailed);
    }
    x.switch_fmode_minimal(true);
    let sr = x.read_status_register_spi_minimal();
    let sr = match sr {
        Ok(s) => s,
        Err(_) => {
            proof {
                assert(x.cmds().take(c0.len() as int) =~= c0);
                assert forall|s: u8| !(#[trigger] wel_ok_cmds(s) == x.cmds().skip(c0.len() as int)) by {
                    assert(x.cmds().skip(c0.len() as int).len() == 4);
                }
                let a = FlashCmd::ReadStatus { status: None };
                assert(fails_as(wel_ok_cmds(2)[3], a));
                assert(x.cmds() =~= c0 + wel_ok_cmds(2).take(3).push(a));
            }
            return Err(StateFlashError::WriteEnableFailed);
        },
    };
    if sr & 0x02 == 0 {
        proof {
            assert(x.cmds().take(c0.len() as int) =~= c0);
            assert forall|s: u8| !(s & 2 != 0 && #[trigger] wel_ok_cmds(s) == x.cmds().skip(c0.len() as int)) by {
                if wel_ok_cmds(s) == x.cmds().skip(c0.len() as int) {
                    assert(wel_ok_cmds(s)[3] == x.cmds().skip(c0.len() as int)[3]);
                }
            }
            let a = FlashCmd::ReadStatus { status: Some(sr) };
            assert(fails_as(wel_ok_cmds(2)[3], a));
            assert(x.cmds() =~= c0 + wel_ok_cmds(2).take(3).push(a));
        }
        return Err(StateFlashError::WriteEnableFailed);
    }
    x.switch_fmode_minimal(false);
    proof {
        assert(x.cmds().take(c0.len() as int) =~= c0);
        assert(wel_ok_cmds(sr) =~= x.cmds().skip(c0.len() as int));
    }
    Ok(())
}

/// The commands of a successful write of `bytes` to the subsector at `base`,
/// given the status byte seen by each confirmed write enable (`st[0]` for the
/// erase, `st[1 + p]` for page `p`).
pub open spec fn sector_write_cmds(base: u32, bytes: Seq<u8>, st: Seq<u8>) -> Seq<FlashCmd>
    recommends
        st.len() == 17,
{
    wel_ok_cmds(st[0]) + seq![
        FlashCmd::Erase4k { addr: base, ok: true },
        FlashCmd::PollWip { budget: POLL_MAX, ok: true },
    ] + pages_cmds(base, bytes, st, 16)
}

/// The commands programming the first `n` pages.
pub open spec fn pages_cmds(base: u32, bytes: Seq<u8>, st: Seq<u8>, n: nat) -> Seq<FlashCmd>
    decreases n,
{
    if n == 0 {
        Seq::empty()
    } else {
        let p = (n - 1) as int;
        pages_cmds(base, bytes, st, (n - 1) as nat) + wel_ok_cmds(st[1 + p]) + seq![
            FlashCmd::PageProgram {
                addr: (base + PAGE_SIZE * p) as u32,
                data: bytes.subrange(PAGE_SIZE * p, PAGE_SIZE * p + PAGE_SIZE),
                ok: true,
            },
            FlashCmd::PollWip { budget: POLL_MAX, ok: true },
        ]
    }
}

/// Erase and program one subsector.
fn write_sector_inner<X: XspiFlash>(x: &mut X, base: u32, bytes: &[u8; 4096]) -> (r: Result<(), StateFlashError>)
    requires
        base as int + 4096 <= u32::MAX,
    ensures
        starts_with(final(x).cmds(), old(x).cmds()),
        r is Err ==> r == Err::<(), StateFlashError>(StateFlashError::WriteEnableFailed) || r == Err::<
            (),
            StateFlashError,
        >(StateFlashError::EraseTimeout) || r == Err::<(), StateFlashError>(
            StateFlashError::ProgramTimeout,
        ),
        r is Ok ==> exists|st: Seq<u8>|
            st.len() == 17 && (forall|i: int| 0 <= i < 17 ==> #[trigger] st[i] & 2 != 0)
                && #[trigger] sector_write_cmds(base, bytes@, st) == final(x).cmds().skip(
                old(x).cmds().len() as int,
            ),
        r is Err ==> write_failed(base, bytes@, final(x).cmds().skip(old(x).cmds().len() as int), r->Err_0),
{
    let ghost c0 = x.cmds();
    match write_enable_verified(x) {
        Ok(()) => {},
        Err(e) => {
            proof {
                let (j, a) = choose|j: int, a: FlashCmd|
                    (j == 1 || j == 3) && #[trigger] fails_as(wel_ok_cmds(2)[j], a) && x.cmds() == c0
                        + wel_ok_cmds(2).take(j).push(a);
                let stf = pad_status(Seq::empty());
                lemma_pad_status(Seq::empty());
                let log = x.cmds().skip(c0.len() as int);
                assert(log =~= wel_ok_cmds(2).take(j).push(a));
                assert(erase_cmds(base, stf).take(j) =~= wel_ok_cmds(2).take(j));
                assert(erase_cmds(base, stf)[j] == wel_ok_cmds(2)[j]);
                lemma_fail_at(base, bytes@, stf, stf, -1, j, a, log);
                lemma_write_prefix(base, bytes@, stf, -1, j);
            }
            return Err(e);
        },
    }
    let ghost s0 = choose|s: u8| s & 2 != 0 && #[trigger] wel_ok_cmds(s) == x.cmds().skip(c0.len() as int);
    let ghost cw = x.cmds();
    assert(cw =~= c0 + wel_ok_cmds(s0));
    if x.subsector_erase_4k_spi(base).is_err() {
        proof {
            lemma_pad_status(seq![s0]);
            let stf = pad_status(seq![s0]);
            let a = FlashCmd::Erase4k { addr: base, ok: false };
            let log = x.cmds().skip(c0.len() as int);
            assert(erase_cmds(base, stf).take(5) =~= wel_ok_cmds(s0));
            assert(log =~= erase_cmds(base, stf).take(5).push(a));
            lemma_fail_at(base, bytes@, stf, stf, -1, 5, a, log);
            lemma_write_prefix(base, bytes@, stf, -1, 5);
        }
        return Err(StateFlashError::EraseTimeout);
    }
    if x.poll_wip_spi(POLL_MAX).is_err() {
        proof {
            lemma_pad_status(seq![s0]);
            let stf = pad_status(seq![s0]);
            let a = FlashCmd::PollWip { budget: POLL_MAX, ok: false };
            let log = x.cmds().skip(c0.len() as int);
            assert(erase_cmds(base, stf).take(6) =~= wel_ok_cmds(s0).push(
                FlashCmd::Erase4k { addr: base, ok: true },
            ));
            assert(log =~= erase_cmds(base, stf).take(6).push(a));
            lemma_fail_at(base, bytes@, stf, stf, -1, 6, a, log);
            lemma_write_prefix(base, bytes@, stf, -1, 6);
        }
        return Err(StateFlashError::EraseTimeout);
    }
    let ghost mut st: Seq<u8> = seq![s0];
    proof {
        assert(x.cmds() =~= c0 + (wel_ok_cmds(s0) + seq![
            FlashCmd::Erase4k { addr: base, ok: true },
            FlashCmd::PollWip { budget: POLL_MAX, ok: true },
        ]));
        assert(pages_cmds(base, bytes@, st, 0) =~= Seq::<FlashCmd>::empty());
    }
    let mut off: usize = 0;
    while off < 4096
        invariant
            off % PAGE_SIZE == 0,
            off <= 4096,
            base as int + 4096 <= u32::MAX,
            st.len() == 1 + off / PAGE_SIZE,
            forall|i: int| 0 <= i < st.len() ==> #[trigger] st[i] & 2 != 0,
            c0 == old(x).cmds(),
            x.cmds() == c0 + (wel_ok_cmds(st[0]) + seq![
                FlashCmd::Erase4k { addr: base, ok: true },
                FlashCmd::PollWip { budget: POLL_MAX, ok: true },
            ] + pages_cmds(base, bytes@, st, (off / PAGE_SIZE) as nat)),
        decreases 4096 - off,
    {
        let ghost cb = x.cmds();
        match write_enable_verified(x) {
            Ok(()) => {},
            Err(e) => {
                proof {
                    let p = (off / PAGE_SIZE) as int;
                    let (j, a) = choose|j: int, a: FlashCmd|
                        (j == 1 || j == 3) && #[trigger] fails_as(wel_ok_cmds(2)[j], a) && x.cmds() == cb
                            + wel_ok_cmds(2).take(j).push(a);
                    lemma_pad_status(st);
                    let stf = pad_status(st);
                    let log = x.cmds().skip(c0.len() as int);
                    assert(page_cmds(base, bytes@, stf, p).take(j) =~= wel_ok_cmds(2).take(j));
                    assert(log =~= erase_cmds(base, st) + pages_cmds(base, bytes@, st, p as nat) + page_cmds(
                        base,
                        bytes@,
                        stf,
                        p,
                    ).take(j).push(a));
                    assert(page_cmds(base, bytes@, stf, p)[j] == wel_ok_cmds(stf[1 + p])[j]);
                    assert(fails_as(page_cmds(base, bytes@, stf, p)[j], a));
                    lemma_fail_at(base, bytes@, st, stf, p, j, a, log);
                    lemma_write_prefix(base, bytes@, stf, p, j);
                }
                return Err(e);
            },
        }
        let ghost sp = choose|s: u8| s & 2 != 0 && #[trigger] wel_ok_cmds(s) == x.cmds().skip(cb.len() as int);
        let ghost cw = x.cmds();
        assert(cw =~= cb + wel_ok_cmds(sp));
        let page = &bytes.as_slice()[off..off + 256];
        assert(page@ == bytes@.subrange(off as int, off + 256));
        let ghost cp = x.cmds();
        if x.page_program_spi(base + off as u32, page).is_err() {
            proof {
                let p = (off / PAGE_SIZE) as int;
                let st2 = st.push(sp);
                lemma_pad_status(st2);
                let stf = pad_status(st2);
                let a = FlashCmd::PageProgram { addr: (base + off) as u32, data: page@, ok: false };
                let log = x.cmds().skip(c0.len() as int);
                assert(stf[1 + p] == sp);
                assert(page_cmds(base, bytes@, stf, p).take(5) =~= wel_ok_cmds(sp));
                assert(log =~= erase_cmds(base, st) + pages_cmds(base, bytes@, st, p as nat) + page_cmds(
                    base,
                    bytes@,
                    stf,
                    p,
                ).take(5).push(a));
                assert(forall|i: int| 0 <= i < 1 + p ==> #[trigger] st[i] == stf[i]);
                lemma_fail_at(base, bytes@, st, stf, p, 5, a, log);
                lemma_write_prefix(base, bytes@, stf, p, 5);
            }
            return Err(StateFlashError::ProgramTimeout);
        }
        if x.poll_wip_spi(POLL_MAX).is_err() {
            proof {
                let p = (off / PAGE_SIZE) as int;
                let st2 = st.push(sp);
                lemma_pad_status(st2);
                let stf = pad_status(st2);
                let a = FlashCmd::PollWip { budget: POLL_MAX, ok: false };
                let log = x.cmds().skip(c0.len() as int);
                assert(stf[1 + p] == sp);
                assert(page_cmds(base, bytes@, stf, p).take(6) =~= wel_ok_cmds(sp).push(
                    FlashCmd::PageProgram {
                        addr: (base + PAGE_SIZE * p) as u32,
                        data: bytes@.subrange(PAGE_SIZE * p, PAGE_SIZE * p + PAGE_SIZE),
                        ok: true,
                    },
                ));
                assert(log =~= erase_cmds(base, st) + pages_cmds(base, bytes@, st, p as nat) + page_cmds(
                    base,
                    bytes@,
                    stf,
                    p,
                ).take(6).push(a));
                assert(forall|i: int| 0 <= i < 1 + p ==> #[trigger] st[i] == stf[i]);
                lemma_fail_at(base, bytes@, st, stf, p, 6, a, log);
                lemma_write_prefix(base, bytes@, stf, p, 6);
            }
            return Err(StateFlashError::ProgramTimeout);
        }
        proof {
            let p = off / PAGE_SIZE;
            let st2 = st.push(sp);
            lemma_pages_cmds_prefix(base, bytes@, st, st2, p as nat);
            assert(pages_cmds(base, bytes@, st2, (p + 1) as nat) =~= pages_cmds(base, bytes@, st, p as nat)
                + wel_ok_cmds(sp) + seq![
                FlashCmd::PageProgram {
                    addr: (base + PAGE_SIZE * p) as u32,
                    data: bytes@.subrange(PAGE_SIZE * p, PAGE_SIZE * p + PAGE_SIZE),
                    ok: true,
                },
                FlashCmd::PollWip { budget: POLL_MAX, ok: true },
            ]);
            st = st2;
            assert(x.cmds() =~= c0 + (wel_ok_cmds(st[0]) + seq![
                FlashCmd::Erase4k { addr: base, ok: true },
                FlashCmd::PollWip { budget: POLL_MAX, ok: true },
            ] + pages_cmds(base, bytes@, st, (p + 1) as nat)));
        }
        off += 256;
    }
    proof {
        assert(sector_write_cmds(base, bytes@, st) =~= x.cmds().skip(c0.len() as int));
    }
    Ok(())
}

/// The erase part of a write: a confirmed write enable, the erase, its WIP
/// poll.
pub open spec fn erase_cmds(base: u32, st: Seq<u8>) -> Seq<FlashCmd> {
    wel_ok_cmds(st[0]) + seq![
        FlashCmd::Erase4k { addr: base, ok: true },
        FlashCmd::PollWip { budget: POLL_MAX, ok: true },
    ]
}

/// The commands programming page `p`: a confirmed write enable, the page
/// program, its WIP poll.
pub open spec fn page_cmds(base: u32, bytes: Seq<u8>, st: Seq<u8>, p: int) -> Seq<FlashCmd> {
    wel_ok_cmds(st[1 + p]) + seq![
        FlashCmd::PageProgram {
            addr: (base + PAGE_SIZE * p) as u32,
            data: bytes.subrange(PAGE_SIZE * p, PAGE_SIZE * p + PAGE_SIZE),
            ok: true,
        },
        FlashCmd::PollWip { budget: POLL_MAX, ok: true },
    ]
}

/// The write of `bytes` at `base` failed as `e`: its commands are those of
/// a successful write up to one command that came back failed, and `e` is
/// the error of that command.
pub open spec fn write_failed(base: u32, bytes: Seq<u8>, log: Seq<FlashCmd>, e: StateFlashError) -> bool {
    exists|st: Seq<u8>, k: int, a: FlashCmd|
        #[trigger] fails_at(base, bytes, st, k, a, log) && e == failure_error(
            sector_write_cmds(base, bytes, st)[k],
            k,
        )
}

/// The first `n` pages of `m` and the next one, and the length of all.
proof fn lemma_pages_split(base: u32, bytes: Seq<u8>, st: Seq<u8>, n: nat, m: nat)
    requires
        n < m,
    ensures
        pages_cmds(base, bytes, st, m).len() == 7 * m,
        pages_cmds(base, bytes, st, m).take((7 * n + 7) as int) == pages_cmds(base, bytes, st, n) + page_cmds(
            base,
            bytes,
            st,
            n as int,
        ),
    decreases m,
{
    lemma_pages_len(base, bytes, st, m);
    lemma_pages_len(base, bytes, st, n);
    let pm = pages_cmds(base, bytes, st, m);
    assert(pm =~= pages_cmds(base, bytes, st, (m - 1) as nat) + page_cmds(base, bytes, st, m - 1));
    if n + 1 < m {
        lemma_pages_split(base, bytes, st, n, (m - 1) as nat);
        lemma_pages_len(base, bytes, st, (m - 1) as nat);
        assert(pm.take((7 * n + 7) as int) =~= pages_cmds(base, bytes, st, (m - 1) as nat).take((7 * n + 7) as int));
    } else {
        assert(pm.take((7 * n + 7) as int) =~= pm);
    }
}

proof fn lemma_pages_len(base: u32, bytes: Seq<u8>, st: Seq<u8>, n: nat)
    ensures
        pages_cmds(base, bytes, st, n).len() == 7 * n,
    decreases n,
{
    if n > 0 {
        lemma_pages_len(base, bytes, st, (n - 1) as nat);
    }
}

/// The successful write up to command `j` of page `p` (or of the erase
/// part, `p == -1`), and that command.
proof fn lemma_write_prefix(base: u32, bytes: Seq<u8>, st: Seq<u8>, p: int, j: int)
    requires
        -1 <= p < 16,
        0 <= j < 7,
        st.len() == 17,
    ensures
        sector_write_cmds(base, bytes, st).len() == 119,
        p == -1 ==> sector_write_cmds(base, bytes, st).take(j) == erase_cmds(base, st).take(j)
            && sector_write_cmds(base, bytes, st)[j] == erase_cmds(base, st)[j],
        p >= 0 ==> sector_write_cmds(base, bytes, st).take(7 + 7 * p + j) == erase_cmds(base, st)
            + pages_cmds(base, bytes, st, p as nat) + page_cmds(base, bytes, st, p).take(j)
            && sector_write_cmds(base, bytes, st)[7 + 7 * p + j] == page_cmds(base, bytes, st, p)[j],
{
    let full = sector_write_cmds(base, bytes, st);
    let e = erase_cmds(base, st);
    let all = pages_cmds(base, bytes, st, 16);
    lemma_pages_len(base, bytes, st, 16);
    assert(full =~= e + all);
    if p == -1 {
        assert(full.take(j) =~= e.take(j));
    } else {
        lemma_pages_split(base, bytes, st, p as nat, 16);
        let pre = pages_cmds(base, bytes, st, p as nat);
        let g = page_cmds(base, bytes, st, p);
        lemma_pages_len(base, bytes, st, p as nat);
        assert(all.take(7 * p + 7) == pre + g);
        assert(all[7 * p + j] == all.take(7 * p + 7)[7 * p + j]);
        assert(full.take(7 + 7 * p + j) =~= e + pre + g.take(j)) by {
            assert forall|i: int| 0 <= i < 7 + 7 * p + j implies #[trigger] full.take(7 + 7 * p + j)[i]
                == (e + pre + g.take(j))[i] by {
                if i >= 7 {
                    assert(all[i - 7] == all.take(7 * p + 7)[i - 7]);
                }
            }
        }
    }
}

/// A log that follows a successful write with status bytes `stf` up to
/// command `j` of page `p` (of the erase part for `p == -1`; the pages
/// before it with status bytes `st`, agreeing with `stf`), then that command
/// failed as `a`, is a failed write at that command.
proof fn lemma_fail_at(
    base: u32,
    bytes: Seq<u8>,
    st: Seq<u8>,
    stf: Seq<u8>,
    p: int,
    j: int,
    a: FlashCmd,
    log: Seq<FlashCmd>,
)
    requires
        -1 <= p < 16,
        0 <= j < 7,
        stf.len() == 17,
        forall|i: int| 0 <= i < 17 ==> #[trigger] stf[i] & 2 != 0,
        p == -1 ==> log == erase_cmds(base, stf).take(j).push(a) && fails_as(erase_cmds(base, stf)[j], a),
        p >= 0 ==> {
            &&& st.len() >= 1 + p
            &&& forall|i: int| 0 <= i < 1 + p ==> #[trigger] st[i] == stf[i]
            &&& log == erase_cmds(base, st) + pages_cmds(base, bytes, st, p as nat) + page_cmds(
                base,
                bytes,
                stf,
                p,
            ).take(j).push(a)
            &&& fails_as(page_cmds(base, bytes, stf, p)[j], a)
        },
    ensures
        fails_at(base, bytes, stf, if p == -1 { j } else { 7 + 7 * p + j }, a, log),
{
    lemma_write_prefix(base, bytes, stf, p, j);
    let full = sector_write_cmds(base, bytes, stf);
    if p == -1 {
        assert(log =~= full.take(j).push(a));
    } else {
        lemma_pages_cmds_prefix(base, bytes, st, stf, p as nat);
        assert(st[0] == stf[0]);
        assert(erase_cmds(base, st) =~= erase_cmds(base, stf));
        assert(log =~= full.take(7 + 7 * p + j).push(a));
    }
}

/// The status bytes `st` padded to seventeen with a byte showing WEL.
pub open spec fn pad_status(st: Seq<u8>) -> Seq<u8> {
    st + Seq::new((17 - st.len()) as nat, |i: int| 2u8)
}

proof fn lemma_pad_status(st: Seq<u8>)
    requires
        st.len() <= 17,
        forall|i: int| 0 <= i < st.len() ==> #[trigger] st[i] & 2 != 0,
    ensures
        pad_status(st).len() == 17,
        forall|i: int| 0 <= i < 17 ==> #[trigger] pad_status(st)[i] & 2 != 0,
        forall|i: int| 0 <= i < st.len() ==> #[trigger] pad_status(st)[i] == st[i],
{
    assert(2u8 & 2 != 0) by (bit_vector);
    assert forall|i: int| 0 <= i < 17 implies #[trigger] pad_status(st)[i] & 2 != 0 by {
        if i >= st.len() {
            assert(pad_status(st)[i] == 2u8);
        }
    }
}

/// The page commands depend only on the status bytes they use.
proof fn lemma_pages_cmds_prefix(base: u32, bytes: Seq<u8>, st: Seq<u8>, st2: Seq<u8>, n: nat)
    requires
        st.len() >= 1 + n,
        st2.len() >= 1 + n,
        forall|i: int| 0 <= i < 1 + n ==> st[i] == st2[i],
    ensures
        pages_cmds(base, bytes, st, n) == pages_cmds(base, bytes, st2, n),
    decreases n,
{
    if n > 0 {
        lemma_pages_cmds_prefix(base, bytes, st, st2, (n - 1) as nat);
    }
}

/// The DCIMVAC writes that invalidate the data cache over `base..base + len`
/// through the system control block at `scb_base`: one per line address,
/// from `base` rounded down to a line.
pub open spec fn dcimvac_writes(scb_base: u32, base: u32, len: u32) -> Seq<MmioOp> {
    Seq::new(
        ((base + len - (base - base % 32) + 31) / 32) as nat,
        |i: int|
            MmioOp::Write {
                addr: scb_base.wrapping_add(crate::hpdma::SCB_DCIMVAC_OFFSET),
                value: (base - base % 32 + 32 * i) as u32,
            },
    )
}

/// Invalidate the data cache over `base..base + len`: one write of each line
/// address (from `base` rounded down to a line) to DCIMVAC, between barriers.
pub fn invalidate_dcache_region<M: MmioAccess>(scb: &mut M, base: u32, len: u32)
    requires
        base as int + len + 31 <= u32::MAX,
    ensures
        final(scb).base() == old(scb).base(),
        final(scb).ops() == old(scb).ops() + dcimvac_writes(old(scb).base(), base, len),
        final(scb).fences() == old(scb).fences() + 2,
{
    scb.barrier();
    let mut a = base & !31u32;
    proof {
        assert(base & !31u32 == base - base % 32) by (bit_vector);
    }
    let end = base + len;
    let ghost start = a as int;
    let ghost f = |i: int|
        MmioOp::Write {
            addr: old(scb).base().wrapping_add(crate::hpdma::SCB_DCIMVAC_OFFSET),
            value: (start + 32 * i) as u32,
        };
    while a < end
        invariant
            start == base - base % 32,
            start <= a,
            a <= end + 31,
            (a - start) % 32 == 0,
            end == base + len,
            base as int + len + 31 <= u32::MAX,
            scb.base() == old(scb).base(),
            scb.fences() == old(scb).fences() + 1,
            f == (|i: int|
                MmioOp::Write {
                    addr: old(scb).base().wrapping_add(crate::hpdma::SCB_DCIMVAC_OFFSET),
                    value: (start + 32 * i) as u32,
                }),
            scb.ops() == old(scb).ops() + Seq::new(((a - start) / 32) as nat, f),
        decreases end + 32 - a,
    {
        scb.write(crate::hpdma::SCB_DCIMVAC_OFFSET, a);
        proof {
            let k = (a - start) / 32;
            assert(Seq::new((k + 1) as nat, f) =~= Seq::new(k as nat, f).push(f(k)));
        }
        a += 32;
    }
    proof {
        assert((a - start) / 32 == (end - start + 31) / 32);
        assert(Seq::new(((a - start) / 32) as nat, f) =~= dcimvac_writes(old(scb).base(), base, len));
    }
    scb.barrier();
}

/// Erase and program the subsector of slot `slot` of logical sector `idx` with
/// `bytes`. On every path past the range check the controller is put back in
/// memory-mapped mode and the data cache over the subsector is invalidated.
pub fn write_state_sector<X: XspiFlash, M: MmioAccess>(
    x: &mut X,
    scb: &mut M,
    idx: usize,
    slot: usize,
    bytes: &[u8; 4096],
) -> (r: Result<(), StateFlashError>)
    ensures
        idx >= MAX_STATE_SECTORS ==> r == Err::<(), StateFlashError>(StateFlashError::IndexOutOfRange)
            && final(x).cmds() == old(x).cmds() && final(scb).ops() == old(scb).ops()
            && final(scb).fences() == old(scb).fences(),
        idx < MAX_STATE_SECTORS && slot >= SLOT_COUNT ==> r == Err::<(), StateFlashError>(
            StateFlashError::SlotOutOfRange,
        ) && final(x).cmds() == old(x).cmds() && final(scb).ops() == old(scb).ops()
            && final(scb).fences() == old(scb).fences(),
        idx < MAX_STATE_SECTORS && slot < SLOT_COUNT ==> {
            let base = sector_addr(idx as int, slot as int) as u32;
            let c = final(x).cmds();
            let n = old(x).cmds().len() as int;
            &&& c.len() >= n + 2
            &&& c.take(n) == old(x).cmds()
            &&& c[n] == FlashCmd::EnterIndirect
            &&& c.last() == FlashCmd::RestoreMemoryMapped
            &&& r is Ok ==> exists|st: Seq<u8>|
                st.len() == 17 && (forall|i: int| 0 <= i < 17 ==> #[trigger] st[i] & 2 != 0)
                    && #[trigger] sector_write_cmds(base, bytes@, st) == c.subrange(n + 1, c.len() - 1)
            &&& r is Err ==> write_failed(base, bytes@, c.subrange(n + 1, c.len() - 1), r->Err_0)
            &&& final(scb).base() == old(scb).base()
            &&& final(scb).ops() == old(scb).ops() + dcimvac_writes(old(scb).base(), base, 4096)
            &&& final(scb).fences() == old(scb).fences() + 2
        },
{
    let base = state_sector_addr(idx, slot)?;
    proof {
        lemma_sector_layout(idx as int, slot as int, idx as int, slot as int);
    }
    let ghost c0 = x.cmds();
    let _saved = x.enter_indirect_mode();
    let ghost c1 = x.cmds();
    let r = write_sector_inner(x, base, bytes);
    let ghost c2 = x.cmds();
    x.restore_memory_mapped_1_1_1();
    invalidate_dcache_region(scb, base, 4096);
    proof {
        assert(x.cmds()[c0.len() as int] == c1[c0.len() as int]);
        assert(x.cmds().take(c0.len() as int) =~= c0);
        assert(x.cmds().subrange(c0.len() as int + 1, x.cmds().len() - 1) =~= c2.skip(c1.len() as int));
    }
    r
}

} // verus!

//! The anti-rollback monotonic counter, backed by the TAMP backup registers
//! (see [`crate::tamp_store`]): one floor per enclave author, which only ever
//! rises.

use crate::mmio::MmioAccess;
use crate::tamp_store::{has_room, TampStore};
use vstd::prelude::*;

verus! {

/// Consecutive failed boots of one A/B slot after which that slot is
/// excluded and the other authenticated slot is booted.
pub const BOOT_FAIL_THRESHOLD: u32 = 3;

/// Per-author version floor kept in the TAMP backup registers.
pub struct BackupFloorCounter<M: MmioAccess> {
    bk: TampStore<M>,
}

impl<M: MmioAccess> BackupFloorCounter<M> {
    /// The floor of `author`, as the registers hold it.
    pub closed spec fn floor_of(&self, author: u32) -> u32 {
        self.bk.floor(author)
    }

    /// `author` has an entry, or a free one is left for it.
    pub closed spec fn room_for(&self, author: u32) -> bool {
        has_room(self.bk.cells(), author)
    }

    /// The backend behaves as storage (reads return what was written).
    pub closed spec fn is_storage(&self) -> bool {
        self.bk.is_storage()
    }

    /// A counter over an initialised backup domain.
    pub fn new(bk: TampStore<M>) -> (c: Self)
        ensures
            c.is_storage() == bk.is_storage(),
            forall|a: u32| #[trigger] c.floor_of(a) == bk.floor(a),
            forall|a: u32| #[trigger] c.room_for(a) == has_room(bk.cells(), a),
    {
        BackupFloorCounter { bk }
    }

    /// Lowest version of `author_id` that may still boot (0 if never bumped).
    pub fn floor(&mut self, author_id: u32) -> (r: u32)
        ensures
            old(self).is_storage() ==> r == old(self).floor_of(author_id),
            final(self).is_storage() == old(self).is_storage(),
            forall|a: u32| #[trigger] final(self).floor_of(a) == old(self).floor_of(a),
            forall|a: u32| #[trigger] final(self).room_for(a) == old(self).room_for(a),
    {
        self.bk.rb_floor(author_id)
    }

    /// Raise the floor of `author_id` to `version`; never lowers a floor and
    /// leaves every other author's floor as it was.
    pub fn bump(&mut self, author_id: u32, version: u32)
        ensures
            final(self).is_storage() == old(self).is_storage(),
            old(self).is_storage() ==> {
                &&& final(self).floor_of(author_id) == if old(self).room_for(author_id)
                    && version > old(self).floor_of(author_id) {
                    version
                } else {
                    old(self).floor_of(author_id)
                }
                &&& forall|a: u32|
                    a != author_id ==> #[trigger] final(self).floor_of(a) == old(self).floor_of(a)
                &&& forall|a: u32| #[trigger] final(self).floor_of(a) >= old(self).floor_of(a)
                &&& old(self).room_for(author_id) ==> final(self).room_for(author_id)
            },
    {
        self.bk.rb_bump(author_id, version);
    }
}

} // verus!

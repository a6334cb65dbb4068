//! The host-side resource table: opaque handles owning host values, with
//! use-after-disposal rejected rather than silently served.

use vstd::prelude::*;
use crate::values::WitVal;

verus! {

/// A table of live resource handles. A handle is an index that stays
/// dead forever once its resource is dropped.
pub struct HandleTable {
    slots: Vec<Option<WitVal>>,
}

impl HandleTable {
    /// The number of slots ever allocated.
    pub closed spec fn size(self) -> int {
        self.slots@.len() as int
    }

    /// Whether handle `h` is live.
    pub closed spec fn live(self, h: int) -> bool {
        0 <= h < self.slots@.len() && self.slots@[h] is Some
    }

    /// The value a live handle owns.
    pub closed spec fn value_of(self, h: int) -> WitVal {
        self.slots@[h]->0
    }

    /// An empty table.
    pub fn new() -> (r: HandleTable)
        ensures
            r.size() == 0,
            forall|h: int| !r.live(h),
    {
        HandleTable { slots: Vec::new() }
    }

    /// Stores a resource's value and hands out a fresh live handle;
    /// every other handle keeps its state.
    pub fn insert(&mut self, v: WitVal) -> (h: usize)
        ensures
            final(self).size() == old(self).size() + 1,
            h == old(self).size(),
            final(self).live(h as int),
            final(self).value_of(h as int) == v,
            forall|q: int| q != h ==> final(self).live(q) == old(self).live(q),
            forall|q: int|
                old(self).live(q) ==> final(self).value_of(q) == old(self).value_of(q),
    {
        let h = self.slots.len();
        self.slots.push(Some(v));
        h
    }

    /// Reads the value behind a handle; a dead or unknown handle is an
    /// error, never a stale value.
    pub fn get(&self, h: usize) -> (r: Option<&WitVal>)
        ensures
            (match r {
                Some(v) => self.live(h as int) && *v == self.value_of(h as int),
                None => !self.live(h as int),
            }),
    {
        if h < self.slots.len() {
            match &self.slots[h] {
                Some(v) => Some(v),
                None => None,
            }
        } else {
            None
        }
    }

    /// Disposes a handle: afterwards it is dead and any further use
    /// fails; every other handle keeps its state. Disposing a dead or
    /// unknown handle fails.
    pub fn drop_handle(&mut self, h: usize) -> (r: bool)
        ensures
            r == old(self).live(h as int),
            final(self).size() == old(self).size(),
            !final(self).live(h as int),
            forall|q: int| q != h ==> final(self).live(q) == old(self).live(q),
            forall|q: int|
                q != h && old(self).live(q) ==> final(self).value_of(q) == old(self).value_of(q),
    {
        if h < self.slots.len() {
            let was = matches!(&self.slots[h], Some(_));
            self.slots.set(h, None);
            was
        } else {
            false
        }
    }
}

} // verus!

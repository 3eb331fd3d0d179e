//! Slot-width buckets and the pool of free stack slots, one LIFO free
//! list per supported width. Reuse keeps frames small; it is not needed
//! for correctness.

use vstd::prelude::*;
use crate::func::width_ok;

verus! {

/// The five supported slot widths, named by their size in bits.
#[derive(Clone, Copy, PartialEq, Eq, Structural)]
pub enum SlotSize {
    Size8,
    Size16,
    Size32,
    Size64,
    Size128,
}

/// The bucket (and log2 width) for a supported byte width.
pub open spec fn spec_slot_size(bytes: u32) -> Option<SlotSize> {
    if bytes == 1 {
        Some(SlotSize::Size8)
    } else if bytes == 2 {
        Some(SlotSize::Size16)
    } else if bytes == 4 {
        Some(SlotSize::Size32)
    } else if bytes == 8 {
        Some(SlotSize::Size64)
    } else if bytes == 16 {
        Some(SlotSize::Size128)
    } else {
        None
    }
}

/// The index of a bucket; for the supported widths this is also the log2
/// of the byte width.
pub open spec fn spec_slot_index(s: SlotSize) -> int {
    match s {
        SlotSize::Size8 => 0,
        SlotSize::Size16 => 1,
        SlotSize::Size32 => 2,
        SlotSize::Size64 => 3,
        SlotSize::Size128 => 4,
    }
}

/// The bucket index for a supported byte width.
pub open spec fn bucket(bytes: u32) -> int {
    match spec_slot_size(bytes) {
        Some(s) => spec_slot_index(s),
        None => 0,
    }
}

impl SlotSize {
    /// The bucket for `bytes`, or `None` for a width stack maps do not
    /// support.
    pub fn new(bytes: u32) -> (r: Option<SlotSize>)
        ensures
            r == spec_slot_size(bytes),
    {
        if bytes == 1 {
            Some(SlotSize::Size8)
        } else if bytes == 2 {
            Some(SlotSize::Size16)
        } else if bytes == 4 {
            Some(SlotSize::Size32)
        } else if bytes == 8 {
            Some(SlotSize::Size64)
        } else if bytes == 16 {
            Some(SlotSize::Size128)
        } else {
            None
        }
    }

    /// The bucket for a width known to be supported.
    pub fn unwrap_new(bytes: u32) -> (r: SlotSize)
        requires
            width_ok(bytes),
        ensures
            Some(r) == spec_slot_size(bytes),
    {
        match SlotSize::new(bytes) {
            Some(s) => s,
            None => {
                proof {
                    assert(false);
                }
                SlotSize::Size8
            },
        }
    }

    /// This bucket's index.
    pub fn index(self) -> (r: usize)
        ensures
            r == spec_slot_index(self),
    {
        match self {
            SlotSize::Size8 => 0,
            SlotSize::Size16 => 1,
            SlotSize::Size32 => 2,
            SlotSize::Size64 => 3,
            SlotSize::Size128 => 4,
        }
    }
}

/// A map from every slot width to the stack of free slots of that width.
pub struct SlotSizeMap {
    pub s8: Vec<u32>,
    pub s16: Vec<u32>,
    pub s32: Vec<u32>,
    pub s64: Vec<u32>,
    pub s128: Vec<u32>,
}

/// The five free lists, in bucket order.
pub open spec fn pool_view(p: SlotSizeMap) -> Seq<Seq<u32>> {
    seq![p.s8@, p.s16@, p.s32@, p.s64@, p.s128@]
}

impl SlotSizeMap {
    pub fn new() -> (r: SlotSizeMap)
        ensures
            pool_view(r) == seq![
                Seq::<u32>::empty(),
                Seq::<u32>::empty(),
                Seq::<u32>::empty(),
                Seq::<u32>::empty(),
                Seq::<u32>::empty(),
            ],
    {
        let r = SlotSizeMap {
            s8: Vec::new(),
            s16: Vec::new(),
            s32: Vec::new(),
            s64: Vec::new(),
            s128: Vec::new(),
        };
        proof {
            assert(pool_view(r) =~~= seq![
                Seq::<u32>::empty(),
                Seq::<u32>::empty(),
                Seq::<u32>::empty(),
                Seq::<u32>::empty(),
                Seq::<u32>::empty(),
            ]);
        }
        r
    }

    /// Return a slot to the free list for `size` (LIFO).
    pub fn release(&mut self, size: SlotSize, slot: u32)
        ensures
            pool_view(*final(self)) == pool_view(*old(self)).update(
                spec_slot_index(size),
                pool_view(*old(self))[spec_slot_index(size)].push(slot),
            ),
    {
        match size {
            SlotSize::Size8 => self.s8.push(slot),
            SlotSize::Size16 => self.s16.push(slot),
            SlotSize::Size32 => self.s32.push(slot),
            SlotSize::Size64 => self.s64.push(slot),
            SlotSize::Size128 => self.s128.push(slot),
        }
        proof {
            assert(pool_view(*self) =~~= pool_view(*old(self)).update(
                spec_slot_index(size),
                pool_view(*old(self))[spec_slot_index(size)].push(slot),
            ));
        }
    }

    /// Take the most recently freed slot of this width, if any (LIFO).
    pub fn take(&mut self, size: SlotSize) -> (r: Option<u32>)
        ensures
            ({
                let i = spec_slot_index(size);
                let s = pool_view(*old(self))[i];
                if s.len() > 0 {
                    &&& r == Some(s.last())
                    &&& pool_view(*final(self)) == pool_view(*old(self)).update(i, s.drop_last())
                } else {
                    &&& r is None
                    &&& pool_view(*final(self)) == pool_view(*old(self))
                }
            }),
    {
        let r = match size {
            SlotSize::Size8 => self.s8.pop(),
            SlotSize::Size16 => self.s16.pop(),
            SlotSize::Size32 => self.s32.pop(),
            SlotSize::Size64 => self.s64.pop(),
            SlotSize::Size128 => self.s128.pop(),
        };
        proof {
            let i = spec_slot_index(size);
            let s = pool_view(*old(self))[i];
            if s.len() > 0 {
                assert(pool_view(*self) =~~= pool_view(*old(self)).update(i, s.drop_last()));
            } else {
                assert(pool_view(*self) =~~= pool_view(*old(self)));
            }
        }
        r
    }
}

} // verus!

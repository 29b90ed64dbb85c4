//! The size cache of the two-pass encoder.
//!
//! A nested message is written behind its encoded length, so an encoder has to
//! know that length before it writes the body. `compute_size` visits the
//! message tree once and records the size of every nested message in the order
//! in which it enters them; `write_to` visits the tree in the same order and
//! takes the sizes back out. Both passes are linear.
//!
//! The first sixteen sizes are held inline; only what is past them spills to
//! the heap.
use vstd::prelude::*;
use crate::encoding;
use crate::encoding::varint_len;

verus! {

/// The number of sizes held without a heap allocation.
pub const INLINE_CAP: usize = 16;

/// `Vec::capacity`: how many elements fit without another allocation, which is
/// at least as many as there are. Nothing more is claimed: the allocator
/// decides.
#[verifier::external_body]
pub(crate) fn capacity(buffer: &Vec<u32>) -> (n: usize)
    ensures
        n >= buffer@.len(),
{
    buffer.capacity()
}

/// A transient list of nested-message sizes: `reserve` and `set` fill it in
/// the order of entry, `consume_next` takes the sizes out in the same order.
///
/// The cache keeps track of whether its spill has an allocation, which a pool
/// can hand on. It has one from the first slot that spills, or from the buffer
/// that it was made on, and never gives it up.
pub struct SizeCache {
    inline: [u32; 16],
    spill: Vec<u32>,
    len: u32,
    cursor: u32,
    allocated: bool,
}

/// What a [`SizeCache`] holds, laid open for display.
#[derive(Debug)]
pub struct SizeCacheDump {
    /// The number of slots reserved.
    pub len: u32,
    /// The number of slots consumed.
    pub cursor: u32,
    /// The slots held inline.
    pub inline: Vec<u32>,
    /// The slots past those.
    pub spill: Vec<u32>,
}

impl SizeCache {
    /// The sizes held, in the order in which their slots were reserved.
    pub closed spec fn slots(&self) -> Seq<u32> {
        self.inline@.take(if self.len < 16 { self.len as int } else { 16 }) + self.spill@
    }

    /// How many sizes have been consumed.
    pub closed spec fn consumed(&self) -> nat {
        self.cursor as nat
    }

    /// Whether the spill has an allocation.
    pub closed spec fn allocated(&self) -> bool {
        self.allocated
    }

    /// The spill holds every slot past the inline ones, it has an allocation if
    /// there are any, and no more slots have been consumed than were reserved.
    pub closed spec fn wf(&self) -> bool {
        &&& self.spill@.len() == if self.len <= 16 { 0 } else { self.len - 16 }
        &&& self.spill@.len() > 0 ==> self.allocated
        &&& self.cursor <= self.len
    }

    /// The cache as it is before anything is reserved.
    pub open spec fn is_fresh(&self) -> bool {
        &&& self.wf()
        &&& self.slots() == Seq::<u32>::empty()
        &&& self.consumed() == 0
    }

    /// What a well-formed cache always satisfies: its slots are counted by a
    /// `u32`, the consumed ones are among them, and a cache that has spilled has
    /// an allocation.
    pub proof fn law_bounds(&self)
        requires
            self.wf(),
        ensures
            self.slots().len() <= u32::MAX,
            self.consumed() <= self.slots().len(),
            self.slots().len() > INLINE_CAP ==> self.allocated(),
    {
    }

    /// Create an empty cache. No heap allocation.
    pub fn new() -> (cache: Self)
        ensures
            cache.is_fresh(),
            !cache.allocated(),
    {
        let cache = SizeCache {
            inline: [0u32; 16],
            spill: Vec::new(),
            len: 0,
            cursor: 0,
            allocated: false,
        };
        assert(cache.slots() =~= Seq::<u32>::empty());
        cache
    }

    /// Empty the cache for reuse. The spill keeps its allocation.
    pub fn clear(&mut self)
        ensures
            final(self).is_fresh(),
            final(self).allocated() == old(self).allocated(),
    {
        self.spill.clear();
        self.len = 0;
        self.cursor = 0;
        assert(self.slots() =~= Seq::<u32>::empty());
    }

    /// Create an empty cache that spills into a buffer handed in. The buffer
    /// is cleared and keeps its allocation. One that held anything has an
    /// allocation; whether an empty one has is up to the allocator.
    pub fn with_spill_buffer(spill: Vec<u32>) -> (cache: Self)
        ensures
            cache.is_fresh(),
            spill@.len() > 0 ==> cache.allocated(),
    {
        let held: usize = capacity(&spill);
        Self::on_buffer(spill, held > 0)
    }

    /// Create an empty cache that spills into a buffer of which it is known
    /// whether it has an allocation.
    pub(crate) fn on_buffer(spill: Vec<u32>, allocated: bool) -> (cache: Self)
        ensures
            cache.is_fresh(),
            cache.allocated() == allocated,
    {
        let mut spill = spill;
        spill.clear();
        let cache = SizeCache { inline: [0u32; 16], spill, len: 0, cursor: 0, allocated };
        assert(cache.slots() =~= Seq::<u32>::empty());
        cache
    }

    /// Take the spill buffer out, with the slots past the inline ones in it.
    pub fn into_spill_buffer(self) -> (spill: Vec<u32>)
        requires
            self.wf(),
        ensures
            spill@ == if self.slots().len() > INLINE_CAP {
                self.slots().skip(INLINE_CAP as int)
            } else {
                Seq::<u32>::empty()
            },
    {
        proof {
            if self.len > 16 {
                assert(self.slots().skip(16) =~= self.spill@);
            } else {
                assert(self.spill@ =~= Seq::<u32>::empty());
            }
        }
        self.spill
    }

    /// Reserve the next slot, holding 0 until it is [`set`](Self::set), and
    /// return its index.
    ///
    /// Call just before descending into a nested message, and set the slot when
    /// its size is known: the slots are then in order of entry.
    pub fn reserve(&mut self) -> (idx: usize)
        requires
            old(self).wf(),
            old(self).slots().len() < u32::MAX,
        ensures
            final(self).wf(),
            idx == old(self).slots().len(),
            final(self).slots() == old(self).slots().push(0),
            final(self).consumed() == old(self).consumed(),
            final(self).allocated() == (old(self).allocated() || idx >= INLINE_CAP),
    {
        let idx: usize = self.len as usize;
        if idx < INLINE_CAP {
            self.inline[idx] = 0;
        } else {
            self.spill.push(0);
            self.allocated = true;
        }
        self.len = self.len + 1;
        assert(self.slots() =~= old(self).slots().push(0));
        idx
    }

    /// Fill a slot that has been reserved.
    pub fn set(&mut self, idx: usize, size: u32)
        requires
            old(self).wf(),
            idx < old(self).slots().len(),
        ensures
            final(self).wf(),
            final(self).slots() == old(self).slots().update(idx as int, size),
            final(self).consumed() == old(self).consumed(),
            final(self).allocated() == old(self).allocated(),
    {
        if idx < INLINE_CAP {
            self.inline[idx] = size;
        } else {
            self.spill.set(idx - INLINE_CAP, size);
        }
        assert(self.slots() =~= old(self).slots().update(idx as int, size));
    }

    /// Fill the slot of a nested message and return the bytes that it takes on
    /// the wire: its length prefix and its body.
    pub fn record_submessage(&mut self, slot: usize, inner_size: u32) -> (total: u64)
        requires
            old(self).wf(),
            slot < old(self).slots().len(),
        ensures
            final(self).wf(),
            final(self).slots() == old(self).slots().update(slot as int, inner_size),
            final(self).consumed() == old(self).consumed(),
            final(self).allocated() == old(self).allocated(),
            total == encoding::varint_bytes(inner_size as nat).len() + inner_size,
    {
        self.set(slot, inner_size);
        varint_len(inner_size as u64) as u64 + inner_size as u64
    }

    /// Consume the next size in order of entry. A size over the protobuf limit
    /// comes out as it was set.
    pub fn consume_next(&mut self) -> (size: u32)
        requires
            old(self).wf(),
            old(self).consumed() < old(self).slots().len(),
        ensures
            final(self).wf(),
            size == old(self).slots()[old(self).consumed() as int],
            final(self).slots() == old(self).slots(),
            final(self).consumed() == old(self).consumed() + 1,
            final(self).allocated() == old(self).allocated(),
    {
        let idx: usize = self.cursor as usize;
        self.cursor = self.cursor + 1;
        if idx < INLINE_CAP {
            self.inline[idx]
        } else {
            self.spill[idx - INLINE_CAP]
        }
    }

    /// The number of slots reserved.
    pub fn len(&self) -> (len: u32)
        requires
            self.wf(),
        ensures
            len == self.slots().len(),
    {
        self.len
    }

    /// Whether the spill has an allocation.
    pub fn is_allocated(&self) -> (allocated: bool)
        ensures
            allocated == self.allocated(),
    {
        self.allocated
    }

    /// The number of slots consumed.
    pub fn cursor(&self) -> (cursor: u32)
        ensures
            cursor == self.consumed(),
    {
        self.cursor
    }

    /// The slots past the inline ones.
    pub fn spill(&self) -> (spill: &Vec<u32>)
        requires
            self.wf(),
        ensures
            spill@ == if self.slots().len() > INLINE_CAP {
                self.slots().skip(INLINE_CAP as int)
            } else {
                Seq::<u32>::empty()
            },
    {
        proof {
            if self.len > 16 {
                assert(self.slots().skip(16) =~= self.spill@);
            } else {
                assert(self.spill@ =~= Seq::<u32>::empty());
            }
        }
        &self.spill
    }

    /// Lay the cache open for display: only slots that are in use are shown.
    pub fn dump(&self) -> (dump: SizeCacheDump)
        requires
            self.wf(),
        ensures
            dump.len == self.slots().len(),
            dump.cursor == self.consumed(),
            dump.inline@ + dump.spill@ == self.slots(),
            dump.inline@.len() <= INLINE_CAP,
            dump.spill@.len() > 0 ==> dump.inline@.len() == INLINE_CAP,
    {
        let shown: usize = if (self.len as usize) < INLINE_CAP {
            self.len as usize
        } else {
            INLINE_CAP
        };
        let mut inline: Vec<u32> = Vec::new();
        let mut i: usize = 0;
        while i < shown
            invariant
                i <= shown <= 16,
                inline@ == self.inline@.take(i as int),
            decreases shown - i,
        {
            inline.push(self.inline[i]);
            i = i + 1;
            assert(inline@ =~= self.inline@.take(i as int));
        }
        let mut spill: Vec<u32> = Vec::new();
        let mut j: usize = 0;
        while j < self.spill.len()
            invariant
                j <= self.spill@.len(),
                spill@ == self.spill@.take(j as int),
            decreases self.spill@.len() - j,
        {
            spill.push(self.spill[j]);
            j = j + 1;
            assert(spill@ =~= self.spill@.take(j as int));
        }
        assert(spill@ =~= self.spill@);
        SizeCacheDump { len: self.len, cursor: self.cursor, inline, spill }
    }
}

impl Default for SizeCache {
    fn default() -> (cache: Self)
        ensures
            cache.is_fresh(),
            !cache.allocated(),
    {
        Self::new()
    }
}

} // verus!

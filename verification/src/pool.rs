//! A free list of spill buffers, for encodes that outgrow the inline cache.
use vstd::prelude::*;
use crate::buf::EncodeSink;
use crate::error::EncodeError;
use crate::message::{Message, ViewEncode};
use crate::size_cache::{capacity, SizeCache, INLINE_CAP};
use crate::two_pass;
use crate::two_pass::{checked_encode_size, TwoPassEncode, MAX_MESSAGE_BYTES};

verus! {

/// `Vec::shrink_to`: gives memory back, and leaves the elements as they are.
/// How much is given back is up to the allocator.
#[verifier::external_body]
fn shrink_to(buffer: &mut Vec<u32>, min_capacity: usize)
    ensures
        final(buffer)@ == old(buffer)@,
{
    buffer.shrink_to(min_capacity)
}

/// A free list of spill buffers.
///
/// An encode of more nested messages than the inline cache holds allocates a
/// spill buffer. Encodes that share a pool use the same buffers again. The pool
/// keeps at most `max_buffers` of them, and shrinks one that has grown past
/// `max_capacity` slots when it is returned, so that one large message does not
/// pin its memory. An encode that fails returns its buffer as one that succeeds
/// does.
#[derive(Debug)]
pub struct SizeCachePool {
    free: Vec<Vec<u32>>,
    max_buffers: usize,
    max_capacity: usize,
}

impl SizeCachePool {
    /// The contents of the buffers kept.
    pub closed spec fn kept(&self) -> Seq<Vec<u32>> {
        self.free@
    }

    /// How many buffers the pool keeps at most.
    pub closed spec fn buffer_bound(&self) -> usize {
        self.max_buffers
    }

    /// The capacity past which a returned buffer is shrunk.
    pub closed spec fn capacity_bound(&self) -> usize {
        self.max_capacity
    }

    /// The pool is within its bound, every buffer it keeps is empty, and it
    /// keeps none where its bound on capacity is 0.
    pub open spec fn wf(&self) -> bool {
        &&& self.kept().len() <= self.buffer_bound()
        &&& self.capacity_bound() == 0 ==> self.kept().len() == 0
        &&& forall|i: int| 0 <= i < self.kept().len() ==> (#[trigger] self.kept()[i])@.len() == 0
    }

    /// The bounds are as they were.
    pub open spec fn same_bounds(&self, other: &Self) -> bool {
        &&& self.buffer_bound() == other.buffer_bound()
        &&& self.capacity_bound() == other.capacity_bound()
    }

    /// What an encode through the pool leaves in it, `before` being the pool
    /// before the encode. A buffer that was taken for it is back, behind the
    /// others; an encode that found none and spilled leaves its own, where the
    /// pool keeps any.
    pub open spec fn reused<T: TwoPassEncode + ?Sized>(&self, before: &Self, message: &T) -> bool {
        &&& self.wf()
        &&& self.same_bounds(before)
        &&& self.kept().len() == if before.kept().len() > 0 {
            before.kept().len()
        } else if before.buffer_bound() > 0 && before.capacity_bound() > 0
            && message.nested_sizes().len() > INLINE_CAP {
            1
        } else {
            0
        }
        &&& before.kept().len() > 0 ==> self.kept().drop_last() == before.kept().drop_last()
    }

    /// No encode through the pool costs it a buffer, whether it succeeds or
    /// fails; and once a buffer is kept, a further encode adds none.
    pub proof fn law_encode_costs_no_buffer<T: TwoPassEncode + ?Sized>(
        before: &Self,
        after: &Self,
        message: &T,
    )
        requires
            before.wf(),
            after.reused(before, message),
        ensures
            after.kept().len() >= before.kept().len(),
            before.kept().len() > 0 ==> after.kept().len() == before.kept().len(),
            after.kept().len() <= after.buffer_bound(),
    {
    }

    /// A pool's fallible length is the message's own, whatever the pool holds: the
    /// size if it is within the protobuf limit, and otherwise the error. Either
    /// way the pool keeps at least as many buffers as before.
    pub proof fn law_pooled_length_is_the_messages_own<T: TwoPassEncode + ?Sized>(
        before: &Self,
        after: &Self,
        message: &T,
        pooled: Result<u32, EncodeError>,
        own: Result<u32, EncodeError>,
    )
        requires
            before.wf(),
            after.reused(before, message),
            pooled == two_pass::checked_size(message.declared_size()),
            own == two_pass::checked_size(message.declared_size()),
        ensures
            pooled == own,
            pooled is Ok <==> message.declared_size() <= MAX_MESSAGE_BYTES,
            pooled is Ok ==> pooled->Ok_0 == message.declared_size(),
            pooled is Err ==> pooled->Err_0 == EncodeError::MessageTooLarge,
            after.kept().len() >= before.kept().len(),
    {
    }

    /// An empty pool. Nothing is allocated until the first encode that spills.
    pub fn new(max_buffers: usize, max_capacity: usize) -> (pool: Self)
        ensures
            pool.wf(),
            pool.kept().len() == 0,
            pool.buffer_bound() == max_buffers,
            pool.capacity_bound() == max_capacity,
    {
        SizeCachePool { free: Vec::new(), max_buffers, max_capacity }
    }

    /// An empty pool for one cache at a time.
    pub fn sequential(max_capacity: usize) -> (pool: Self)
        ensures
            pool.wf(),
            pool.kept().len() == 0,
            pool.buffer_bound() == 1,
            pool.capacity_bound() == max_capacity,
    {
        Self::new(1, max_capacity)
    }

    /// The buffers kept.
    pub fn free(&self) -> (free: &Vec<Vec<u32>>)
        ensures
            free@ == self.kept(),
    {
        &self.free
    }

    /// How many buffers the pool keeps at most.
    pub fn max_buffers(&self) -> (n: usize)
        ensures
            n == self.buffer_bound(),
    {
        self.max_buffers
    }

    /// Check out a fresh cache, on a buffer of the pool where there is one. Only
    /// a buffer with an allocation is ever kept, so the cache then has one.
    pub fn acquire(&mut self) -> (cache: SizeCache)
        requires
            old(self).wf(),
        ensures
            final(self).wf(),
            final(self).same_bounds(old(self)),
            cache.is_fresh(),
            cache.allocated() == (old(self).kept().len() > 0),
            final(self).kept() == if old(self).kept().len() == 0 {
                old(self).kept()
            } else {
                old(self).kept().drop_last()
            },
    {
        match self.free.pop() {
            Some(buf) => SizeCache::on_buffer(buf, true),
            None => SizeCache::new(),
        }
    }

    /// Return a cache's spill buffer to the pool.
    ///
    /// It is dropped if it has no allocation, if the pool is full or if the
    /// pool's bound on capacity is 0. Otherwise it is emptied, shrunk if it has
    /// grown past the bound, and kept behind the others.
    pub fn release(&mut self, cache: SizeCache)
        requires
            old(self).wf(),
            cache.wf(),
        ensures
            final(self).wf(),
            final(self).same_bounds(old(self)),
            if cache.allocated() && old(self).kept().len() < old(self).buffer_bound() && old(
                self,
            ).capacity_bound() > 0 {
                &&& final(self).kept().len() == old(self).kept().len() + 1
                &&& final(self).kept().drop_last() == old(self).kept()
            } else {
                final(self).kept() == old(self).kept()
            },
    {
        if self.free.len() >= self.max_buffers || self.max_capacity == 0 || !cache.is_allocated() {
            return;
        }
        let mut buf: Vec<u32> = cache.into_spill_buffer();
        // Emptied first, so that its length does not stand in the way of
        // shrinking it.
        buf.clear();
        if capacity(&buf) > self.max_capacity {
            shrink_to(&mut buf, self.max_capacity);
        }
        self.free.push(buf);
        assert(self.kept().drop_last() =~= old(self).kept());
    }

    /// The encoded size of a message that is within the protobuf limit.
    pub fn encoded_len<M: Message>(&mut self, msg: &M) -> (len: u32)
        requires
            old(self).wf(),
            msg.nested_sizes().len() <= u32::MAX,
            msg.declared_size() <= MAX_MESSAGE_BYTES,
        ensures
            final(self).reused(old(self), msg),
            len == msg.declared_size(),
    {
        let mut cache = self.acquire();
        let len: u32 = msg.compute_size(&mut cache);
        assert(cache.slots() =~= msg.nested_sizes());
        self.release(cache);
        len
    }

    /// Encode a message that is within the protobuf limit.
    pub fn encode<M: Message, S: EncodeSink>(&mut self, msg: &M, buf: &mut S)
        requires
            old(self).wf(),
            two_pass::can_encode(msg, 0, old(buf)),
            msg.declared_size() <= MAX_MESSAGE_BYTES,
        ensures
            final(self).reused(old(self), msg),
            final(buf).written() == old(buf).written() + msg.encoding(),
    {
        let _ = self.try_encode(msg, buf);
    }

    /// Encode a view of a message that is within the protobuf limit.
    pub fn encode_view<'a, V: ViewEncode<'a>, S: EncodeSink>(&mut self, view: &V, buf: &mut S)
        requires
            old(self).wf(),
            two_pass::can_encode(view, 0, old(buf)),
            view.declared_size() <= MAX_MESSAGE_BYTES,
        ensures
            final(self).reused(old(self), view),
            final(buf).written() == old(buf).written() + view.encoding(),
    {
        let _ = self.try_encode_view(view, buf);
    }

    /// The encoded size of a message, or an error if it is over the protobuf
    /// limit.
    pub fn try_encoded_len<M: Message>(&mut self, msg: &M) -> (result: Result<u32, EncodeError>)
        requires
            old(self).wf(),
            msg.nested_sizes().len() <= u32::MAX,
        ensures
            final(self).reused(old(self), msg),
            result == two_pass::checked_size(msg.declared_size()),
    {
        let mut cache = self.acquire();
        let len: u32 = msg.compute_size(&mut cache);
        assert(cache.slots() =~= msg.nested_sizes());
        self.release(cache);
        checked_encode_size(len)
    }

    /// Encode a message, or fail with nothing written if it is over the
    /// protobuf limit.
    pub fn try_encode<M: Message, S: EncodeSink>(&mut self, msg: &M, buf: &mut S) -> (result: Result<
        (),
        EncodeError,
    >)
        requires
            old(self).wf(),
            two_pass::can_encode(msg, 0, old(buf)),
        ensures
            final(self).reused(old(self), msg),
            two_pass::plain_encode(msg, old(buf), final(buf), result),
    {
        let mut cache = self.acquire();
        let result = msg.try_encode_with_cache(&mut cache, buf);
        self.release(cache);
        result
    }

    /// Encode a view of a message, or fail with nothing written if it is over
    /// the protobuf limit.
    pub fn try_encode_view<'a, V: ViewEncode<'a>, S: EncodeSink>(
        &mut self,
        view: &V,
        buf: &mut S,
    ) -> (result: Result<(), EncodeError>)
        requires
            old(self).wf(),
            two_pass::can_encode(view, 0, old(buf)),
        ensures
            final(self).reused(old(self), view),
            two_pass::plain_encode(view, old(buf), final(buf), result),
    {
        let mut cache = self.acquire();
        let result = view.try_encode_with_cache(&mut cache, buf);
        self.release(cache);
        result
    }

    /// Encode a message if it fits in `max_bytes`, and return its size. On
    /// failure nothing is written.
    pub fn try_encode_bounded<M: Message, S: EncodeSink>(
        &mut self,
        msg: &M,
        max_bytes: u32,
        buf: &mut S,
    ) -> (result: Result<u32, EncodeError>)
        requires
            old(self).wf(),
            two_pass::can_encode(msg, 0, old(buf)),
        ensures
            final(self).reused(old(self), msg),
            two_pass::bounded_encode(msg, max_bytes, old(buf), final(buf), result),
    {
        let mut cache = self.acquire();
        let result = msg.try_encode_bounded_with_cache(max_bytes, &mut cache, buf);
        self.release(cache);
        result
    }

    /// Encode a view of a message if it fits in `max_bytes`, and return its
    /// size. On failure nothing is written.
    pub fn try_encode_view_bounded<'a, V: ViewEncode<'a>, S: EncodeSink>(
        &mut self,
        view: &V,
        max_bytes: u32,
        buf: &mut S,
    ) -> (result: Result<u32, EncodeError>)
        requires
            old(self).wf(),
            two_pass::can_encode(view, 0, old(buf)),
        ensures
            final(self).reused(old(self), view),
            two_pass::bounded_encode(view, max_bytes, old(buf), final(buf), result),
    {
        let mut cache = self.acquire();
        let result = view.try_encode_bounded_with_cache(max_bytes, &mut cache, buf);
        self.release(cache);
        result
    }
}

} // verus!

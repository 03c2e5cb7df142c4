//! An encoder that reuses its byte vectors: encoded buffers return to a
//! bounded pool when they drop, and the next message is written into a
//! pooled vector when one is there.

use vstd::prelude::*;

use std::sync::Arc;

use crossbeam::queue::ArrayQueue;

use crate::codec::{Encoder, OutboundBuffer, Serialize};

verus! {

#[verifier::external_type_specification]
#[verifier::external_body]
#[verifier::reject_recursive_types(T)]
pub struct ExArrayQueue<T>(ArrayQueue<T>);

/// The number of slots a pool was made with.
pub uninterp spec fn pool_capacity(pool: ArrayQueue<Vec<u8>>) -> nat;

/// `ArrayQueue::new`: an empty bounded queue of `capacity` slots (it panics
/// on a capacity of zero). The capacity it was made with is stated.
#[verifier::external_body]
fn new_pool(capacity: usize) -> (pool: Arc<ArrayQueue<Vec<u8>>>)
    requires
        0 < capacity <= isize::MAX,
    ensures
        pool_capacity(*pool) == capacity,
{
    Arc::new(ArrayQueue::new(capacity))
}

/// `ArrayQueue::pop`: a vector from the pool, if one is there. The pool is
/// shared between threads, so what comes back is not stated.
#[verifier::external_body]
fn pool_pop(pool: &ArrayQueue<Vec<u8>>) -> Option<Vec<u8>> {
    pool.pop()
}

/// `ArrayQueue::push`: offer `value` to the pool; a full pool hands it
/// back. It neither unwinds nor opens an invariant. What the pool holds
/// afterwards is not stated: other threads share it.
#[verifier::external_body]
fn pool_push(pool: &ArrayQueue<Vec<u8>>, value: Vec<u8>) -> (result: Result<(), Vec<u8>>)
    ensures
        result matches Err(returned) ==> returned == value,
    opens_invariants none
    no_unwind
{
    pool.push(value)
}

/// `Vec::clear`: the vector is emptied (keeping its allocation). It neither
/// unwinds nor opens an invariant.
#[verifier::external_body]
fn clear_bytes(buffer: &mut Vec<u8>)
    ensures
        final(buffer)@ == Seq::<u8>::empty(),
    opens_invariants none
    no_unwind
{
    buffer.clear()
}

/// `std::mem::take`: the vector is moved out, leaving an empty one. It
/// neither unwinds nor opens an invariant.
#[verifier::external_body]
fn take_bytes(buffer: &mut Vec<u8>) -> (taken: Vec<u8>)
    ensures
        taken@ == old(buffer)@,
        final(buffer)@ == Seq::<u8>::empty(),
    opens_invariants none
    no_unwind
{
    std::mem::take(buffer)
}

/// A pooled byte vector with a write cursor. When it drops, the vector is
/// emptied and offered back to its pool (and dropped if the pool is full).
#[derive(Clone, Debug)]
pub struct Reusable {
    inner: Vec<u8>,
    cursor: usize,
    reused_buffers: Arc<ArrayQueue<Vec<u8>>>,
}

impl Reusable {
    /// All bytes held, written or not.
    pub closed spec fn bytes(&self) -> Seq<u8> {
        self.inner@
    }

    /// The pool this buffer returns to when it drops.
    pub closed spec fn pool(&self) -> Arc<ArrayQueue<Vec<u8>>> {
        self.reused_buffers
    }

    /// Wrap `buffer`, with nothing written yet, returning to `pool`.
    pub fn new(buffer: Vec<u8>, pool: Arc<ArrayQueue<Vec<u8>>>) -> (reusable: Self)
        ensures
            reusable.bytes() == buffer@,
            reusable.unsent() == buffer@,
            reusable.pool() == pool,
    {
        let reusable = Reusable { inner: buffer, cursor: 0, reused_buffers: pool };
        assert(reusable.unsent() =~= buffer@);
        reusable
    }

    /// All bytes held, written or not.
    pub fn as_slice(&self) -> (bytes: &[u8])
        ensures
            bytes@ == self.bytes(),
    {
        self.inner.as_slice()
    }

    /// Whether unwritten bytes remain.
    pub fn has_remaining(&self) -> (remaining: bool)
        ensures
            remaining == (self.unsent().len() > 0),
    {
        self.cursor < self.inner.len()
    }
}

impl OutboundBuffer for Reusable {
    closed spec fn unsent(&self) -> Seq<u8> {
        if self.cursor <= self.inner@.len() {
            self.inner@.subrange(self.cursor as int, self.inner@.len() as int)
        } else {
            Seq::empty()
        }
    }

    fn remaining(&self) -> (count: usize) {
        if self.cursor <= self.inner.len() {
            self.inner.len() - self.cursor
        } else {
            0
        }
    }

    fn chunk(&self) -> (bytes: &[u8])
        ensures
            bytes@ == self.unsent(),
    {
        if self.cursor <= self.inner.len() {
            let bytes = vstd::slice::slice_subrange(self.inner.as_slice(), self.cursor, self.inner.len());
            assert(bytes@ =~= self.unsent().subrange(0, bytes@.len() as int));
            bytes
        } else {
            let bytes = vstd::slice::slice_subrange(self.inner.as_slice(), 0, 0);
            assert(bytes@ =~= self.unsent().subrange(0, 0));
            bytes
        }
    }

    fn advance(&mut self, count: usize) {
        if self.cursor <= self.inner.len() {
            self.cursor = self.cursor + count;
            assert(self.unsent() =~= old(self).unsent().subrange(count as int, old(self).unsent().len() as int));
        } else {
            assert(old(self).unsent().subrange(0, 0) =~= Seq::<u8>::empty());
        }
    }
}

impl Drop for Reusable {
    fn drop(&mut self)
        opens_invariants none
        no_unwind
    {
        clear_bytes(&mut self.inner);
        let recycled = take_bytes(&mut self.inner);
        assert(recycled@ == Seq::<u8>::empty());
        let _ = pool_push(&self.reused_buffers, recycled);
    }
}

/// An encoder that wraps a serializer, offering it pooled byte vectors. The
/// vectors are emptied and reused to minimize allocation.
pub struct PooledEncoder<TSerializer> {
    serializer: TSerializer,
    reused_buffers: Arc<ArrayQueue<Vec<u8>>>,
}

/// The pool size of `PooledEncoder::new`.
pub const DEFAULT_POOL_SIZE: usize = 8;

impl<TSerializer> PooledEncoder<TSerializer> {
    /// The serializer that writes each message.
    pub closed spec fn serializer(&self) -> TSerializer {
        self.serializer
    }

    /// The pool that encoded buffers return to.
    pub closed spec fn pool(&self) -> Arc<ArrayQueue<Vec<u8>>> {
        self.reused_buffers
    }
}

impl<TSerializer: Serialize> PooledEncoder<TSerializer> {
    /// A pooled encoder with the default pool size (8).
    ///
    /// Small pools do well even on busy systems: when demand outgrows the
    /// pool, the extra buffers are simply allocated.
    pub fn new(serializer: TSerializer) -> (encoder: Self)
        ensures
            encoder.serializer() == serializer,
            pool_capacity(*encoder.pool()) == DEFAULT_POOL_SIZE,
    {
        Self::new_with_pool_size(DEFAULT_POOL_SIZE, serializer)
    }

    /// A pooled encoder whose pool holds up to `pool_size` vectors.
    pub fn new_with_pool_size(pool_size: usize, serializer: TSerializer) -> (encoder: Self)
        requires
            0 < pool_size <= isize::MAX,
        ensures
            encoder.serializer() == serializer,
            pool_capacity(*encoder.pool()) == pool_size,
    {
        PooledEncoder { serializer, reused_buffers: new_pool(pool_size) }
    }

}

impl<TSerializer: Serialize + Default> Default for PooledEncoder<TSerializer> {
    /// A pooled encoder with the default pool size and serializer.
    fn default() -> Self {
        Self::new_with_pool_size(DEFAULT_POOL_SIZE, TSerializer::default())
    }
}

impl<TSerializer: Serialize> Encoder for PooledEncoder<TSerializer> {
    type Message = TSerializer::Message;
    type Serialized = Reusable;

    open spec fn obeys_encoded() -> bool {
        TSerializer::obeys_serialized()
    }

    open spec fn encoded(&self) -> Seq<(Self::Message, Seq<u8>)> {
        self.serializer().serialized()
    }

    open spec fn takes_back(&self, buffer: Reusable, after: &Self) -> bool {
        *after == *self
    }

    /// Write `message` into a pooled vector, emptied first (or a new one),
    /// and hand it out as a buffer that returns to the pool when dropped.
    fn encode(&mut self, message: TSerializer::Message) -> (encoded: Reusable)
        ensures
            encoded.unsent() == encoded.bytes(),
            encoded.pool() == old(self).pool(),
            final(self).pool() == old(self).pool(),
    {
        let mut buffer = match pool_pop(&self.reused_buffers) {
            Some(mut pooled) => {
                pooled.clear();
                pooled
            },
            None => Vec::new(),
        };
        self.serializer.serialize_into_buffer(message, &mut buffer);
        Reusable::new(buffer, self.reused_buffers.clone())
    }

    /// A written buffer goes back to the pool when it drops.
    fn return_buffer(&mut self, buffer: Reusable) {
    }
}

} // verus!

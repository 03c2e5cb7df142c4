//! The byte-stream side of a fabric connection: how received chunks are
//! handed out to readers in order, and how writes are cut into chunks that
//! fit one send buffer.

use vstd::prelude::*;

use super::driver::BUFFER_SIZE;

verus! {

/// The received bytes a reader has not taken yet: a chunk and how much of it
/// has been read.
pub struct StreamReadState {
    partial: Option<(Vec<u8>, usize)>,
    received: Ghost<Seq<u8>>,
    delivered: Ghost<Seq<u8>>,
}

impl StreamReadState {
    /// The internal invariant: a held chunk always has unread bytes.
    pub closed spec fn wf(&self) -> bool {
        &&& (self.partial matches Some((chunk, offset)) ==> offset < chunk@.len())
        &&& self.delivered@ + self.buffered() == self.received@
    }

    /// Every byte of every chunk accepted so far, in order.
    pub closed spec fn received(&self) -> Seq<u8> {
        self.received@
    }

    /// Every byte handed to a reader so far, in order.
    pub closed spec fn delivered(&self) -> Seq<u8> {
        self.delivered@
    }

    /// The bytes received and not yet read.
    pub closed spec fn buffered(&self) -> Seq<u8> {
        match self.partial {
            Some((chunk, offset)) => chunk@.subrange(offset as int, chunk@.len() as int),
            None => Seq::empty(),
        }
    }

    /// Nothing buffered.
    pub fn new() -> (state: Self)
        ensures
            state.wf(),
            state.buffered() == Seq::<u8>::empty(),
            state.received() == Seq::<u8>::empty(),
            state.delivered() == Seq::<u8>::empty(),
    {
        let state = StreamReadState { partial: None, received: Ghost(Seq::empty()), delivered: Ghost(Seq::empty()) };
        assert(state.delivered@ + state.buffered() =~= state.received@);
        state
    }

    /// Whether received bytes are waiting to be read.
    pub fn has_buffered(&self) -> (has: bool)
        requires
            self.wf(),
        ensures
            has == (self.buffered().len() > 0),
    {
        self.partial.is_some()
    }

    /// Hold a received chunk for reading. An empty chunk is ignored (returns
    /// `false`), since it carries nothing to read.
    pub fn accept_chunk(&mut self, chunk: Vec<u8>) -> (held: bool)
        requires
            old(self).wf(),
            old(self).buffered().len() == 0,
        ensures
            final(self).wf(),
            held == (chunk@.len() > 0),
            final(self).buffered() == chunk@,
            final(self).received() == old(self).received() + chunk@,
            final(self).delivered() == old(self).delivered(),
    {
        let ghost bytes = chunk@;
        self.received = Ghost(self.received@ + bytes);
        if chunk.len() == 0 {
            assert(old(self).buffered() =~= chunk@);
            assert(self.received@ =~= old(self).received@);
            false
        } else {
            self.partial = Some((chunk, 0));
            assert(self.buffered() =~= bytes);
            assert(old(self).buffered() =~= Seq::<u8>::empty());
            assert(self.delivered@ + self.buffered() =~= self.received@);
            true
        }
    }

    /// Copy as many buffered bytes as fit into the front of `destination`.
    /// Returns how many were copied.
    pub fn read_into(&mut self, destination: &mut [u8]) -> (count: usize)
        requires
            old(self).wf(),
        ensures
            final(self).wf(),
            count == vstd::math::min(old(self).buffered().len() as int, old(destination)@.len() as int),
            final(destination)@.len() == old(destination)@.len(),
            final(destination)@.subrange(0, count as int) == old(self).buffered().subrange(0, count as int),
            final(destination)@.subrange(count as int, old(destination)@.len() as int)
                == old(destination)@.subrange(count as int, old(destination)@.len() as int),
            final(self).buffered() == old(self).buffered().subrange(count as int, old(self).buffered().len() as int),
            final(self).received() == old(self).received(),
            final(self).delivered() == old(self).delivered() + final(destination)@.subrange(0, count as int),
    {
        let taken = self.partial.take();
        match taken {
            Some((chunk, offset)) => {
                let chunk_len = chunk.len();
                let available = chunk_len - offset;
                let count = if available < destination.len() { available } else { destination.len() };
                let mut i: usize = 0;
                while i < count
                    invariant
                        i <= count,
                        count <= available,
                        available == chunk@.len() - offset,
                        chunk_len == chunk@.len(),
                        offset < chunk@.len(),
                        destination@.len() == old(destination)@.len(),
                        count <= destination@.len(),
                        forall|j: int| 0 <= j < i ==> #[trigger] destination@[j] == chunk@[offset + j],
                        forall|j: int| i <= j < destination@.len() ==> #[trigger] destination@[j] == old(destination)@[j],
                    decreases count - i,
                {
                    destination[i] = chunk[offset + i];
                    i = i + 1;
                }
                let ghost buffered = chunk@.subrange(offset as int, chunk@.len() as int);
                assert(destination@.subrange(0, count as int) =~= buffered.subrange(0, count as int));
                assert(destination@.subrange(count as int, destination@.len() as int)
                    =~= old(destination)@.subrange(count as int, old(destination)@.len() as int));
                let ghost copied = destination@.subrange(0, count as int);
                self.delivered = Ghost(self.delivered@ + copied);
                if count < available {
                    self.partial = Some((chunk, offset + count));
                    assert(self.buffered() =~= buffered.subrange(count as int, buffered.len() as int));
                } else {
                    assert(buffered.subrange(count as int, buffered.len() as int) =~= Seq::<u8>::empty());
                }
                assert(copied + buffered.subrange(count as int, buffered.len() as int) =~= buffered);
                assert(self.delivered@ + self.buffered() =~= old(self).delivered@ + buffered);
                count
            },
            None => {
                assert(destination@.subrange(0, 0) =~= Seq::<u8>::empty());
                assert(destination@.subrange(0, destination@.len() as int) =~= destination@);
                assert(self.delivered@ + destination@.subrange(0, 0) =~= self.delivered@);
                0
            },
        }
    }
}

/// Reads hand out the received bytes in order: what readers have been given,
/// laid end to end, followed by what is still buffered, is every byte
/// received; so what was given is a prefix of what was received.
pub proof fn lemma_reads_follow_receives(state: &StreamReadState)
    requires
        state.wf(),
    ensures
        state.delivered() + state.buffered() == state.received(),
        state.delivered().len() <= state.received().len(),
        state.received().subrange(0, state.delivered().len() as int) == state.delivered(),
{
    assert((state.delivered() + state.buffered()).subrange(0, state.delivered().len() as int) =~= state.delivered());
}

/// The bytes of a write that one send buffer accepts: at most `BUFFER_SIZE`
/// from the front of `source`.
pub fn take_write_chunk(source: &[u8]) -> (chunk: Vec<u8>)
    ensures
        chunk@ == source@.subrange(0, vstd::math::min(source@.len() as int, BUFFER_SIZE as int)),
{
    let count = if source.len() < BUFFER_SIZE { source.len() } else { BUFFER_SIZE };
    vstd::slice::slice_to_vec(vstd::slice::slice_subrange(source, 0, count))
}

/// The bytes of several buffers laid end to end.
pub open spec fn concat(buffers: Seq<Seq<u8>>) -> Seq<u8>
    decreases buffers.len(),
{
    if buffers.len() == 0 {
        Seq::empty()
    } else {
        concat(buffers.drop_last()) + buffers.last()
    }
}

/// The views of a list of byte slices.
pub open spec fn slice_views(buffers: Seq<&[u8]>) -> Seq<Seq<u8>> {
    Seq::new(buffers.len(), |i: int| buffers[i]@)
}

proof fn lemma_concat_push(buffers: Seq<Seq<u8>>, next: Seq<u8>)
    ensures
        concat(buffers.push(next)) == concat(buffers) + next,
{
    assert(buffers.push(next).drop_last() =~= buffers);
}

/// A vectored write coalesced into one chunk: the buffers laid end to end,
/// cut at `BUFFER_SIZE` bytes.
pub fn coalesce(buffers: &[&[u8]]) -> (chunk: Vec<u8>)
    ensures
        chunk@ == concat(slice_views(buffers@)).subrange(
            0,
            vstd::math::min(concat(slice_views(buffers@)).len() as int, BUFFER_SIZE as int),
        ),
{
    let ghost views = slice_views(buffers@);
    let mut chunk: Vec<u8> = Vec::new();
    let mut i: usize = 0;
    while i < buffers.len()
        invariant
            i <= buffers@.len(),
            views == slice_views(buffers@),
            chunk@.len() <= BUFFER_SIZE,
            chunk@ == concat(views.subrange(0, i as int)).subrange(
                0,
                vstd::math::min(concat(views.subrange(0, i as int)).len() as int, BUFFER_SIZE as int),
            ),
        ensures
            i == buffers@.len(),
            views == slice_views(buffers@),
            chunk@ == concat(views.subrange(0, i as int)).subrange(
                0,
                vstd::math::min(concat(views.subrange(0, i as int)).len() as int, BUFFER_SIZE as int),
            ),
        decreases buffers@.len() - i,
    {
        let ghost prefix = concat(views.subrange(0, i as int));
        proof {
            assert(views.subrange(0, i + 1) =~= views.subrange(0, i as int).push(views[i as int]));
            lemma_concat_push(views.subrange(0, i as int), views[i as int]);
        }
        if chunk.len() >= BUFFER_SIZE {
            proof {
                let longer = concat(views.subrange(0, i + 1));
                assert(longer.subrange(0, BUFFER_SIZE as int) =~= prefix.subrange(0, BUFFER_SIZE as int));
                assert(concat(views).len() >= longer.len()) by {
                    lemma_concat_prefix(views, i + 1);
                }
                lemma_concat_prefix(views, i + 1);
                assert(concat(views).subrange(0, BUFFER_SIZE as int) =~= longer.subrange(0, BUFFER_SIZE as int));
                assert(concat(views.subrange(0, buffers@.len() as int)) == concat(views)) by {
                    assert(views.subrange(0, buffers@.len() as int) =~= views);
                }
            }
            i = buffers.len();
            assert(chunk@ == concat(views.subrange(0, i as int)).subrange(
                0,
                vstd::math::min(concat(views.subrange(0, i as int)).len() as int, BUFFER_SIZE as int),
            )) by {
                assert(views.subrange(0, i as int) =~= views);
                lemma_concat_prefix(views, (buffers@.len() - 0) as int);
            }
            break;
        }
        let buffer: &[u8] = buffers[i];
        let room = BUFFER_SIZE - chunk.len();
        let take = if room < buffer.len() { room } else { buffer.len() };
        let mut k: usize = 0;
        let ghost start = chunk@;
        while k < take
            invariant
                k <= take,
                take <= buffer@.len(),
                start.len() + take <= BUFFER_SIZE,
                chunk@ == start + buffer@.subrange(0, k as int),
            decreases take - k,
        {
            chunk.push(buffer[k]);
            k = k + 1;
            assert(chunk@ =~= start + buffer@.subrange(0, k as int));
        }
        i = i + 1;
        assert(buffer@ == views[i - 1]);
        assert(chunk@ =~= concat(views.subrange(0, i as int)).subrange(
            0,
            vstd::math::min(concat(views.subrange(0, i as int)).len() as int, BUFFER_SIZE as int),
        ));
    }
    assert(views.subrange(0, buffers@.len() as int) =~= views);
    chunk
}

/// A prefix of the buffers lays out a prefix of their bytes.
pub proof fn lemma_concat_prefix(buffers: Seq<Seq<u8>>, count: int)
    requires
        0 <= count <= buffers.len(),
    ensures
        concat(buffers.subrange(0, count)).len() <= concat(buffers).len(),
        concat(buffers).subrange(0, concat(buffers.subrange(0, count)).len() as int) == concat(buffers.subrange(0, count)),
    decreases buffers.len() - count,
{
    if count == buffers.len() {
        assert(buffers.subrange(0, count) =~= buffers);
        assert(concat(buffers).subrange(0, concat(buffers).len() as int) =~= concat(buffers));
    } else {
        lemma_concat_prefix(buffers, count + 1);
        assert(buffers.subrange(0, count + 1) =~= buffers.subrange(0, count).push(buffers[count]));
        lemma_concat_push(buffers.subrange(0, count), buffers[count]);
        let short = concat(buffers.subrange(0, count));
        let long = concat(buffers.subrange(0, count + 1));
        assert(long.subrange(0, short.len() as int) =~= short);
        assert(concat(buffers).subrange(0, short.len() as int) =~= long.subrange(0, short.len() as int));
    }
}

} // verus!

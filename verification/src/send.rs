//! The send side of a connection: a queue of encoded buffers waiting to be
//! written, the bookkeeping after a vectored write, and the budget that bounds
//! how many encoded messages may wait.

use vstd::prelude::*;

use std::collections::VecDeque;

use crate::codec::{takes_back_in_order, Encoder, OutboundBuffer};
use crate::io_errors::{kind_interrupted, kind_would_block};

verus! {

/// The bytes still to be written from a sequence of buffers, front first.
pub open spec fn queued_bytes<B: OutboundBuffer>(buffers: Seq<B>) -> Seq<u8>
    decreases buffers.len(),
{
    if buffers.len() == 0 {
        Seq::empty()
    } else {
        buffers[0].unsent() + queued_bytes(buffers.subrange(1, buffers.len() as int))
    }
}

/// Byte sequences laid end to end, front first.
pub open spec fn laid_end_to_end(chunks: Seq<Seq<u8>>) -> Seq<u8>
    decreases chunks.len(),
{
    if chunks.len() == 0 {
        Seq::empty()
    } else {
        chunks[0] + laid_end_to_end(chunks.subrange(1, chunks.len() as int))
    }
}

/// When each chunk offered to a write is the whole unsent part of its
/// buffer, the chunks laid end to end are the front of the queued bytes, in
/// order: a write that takes `n` bytes of them writes the first `n` queued
/// bytes, which is what dropping `n` bytes from the queue assumes.
pub proof fn lemma_whole_chunks_are_queue_front<B: OutboundBuffer>(buffers: Seq<B>, chunks: Seq<Seq<u8>>)
    requires
        chunks.len() <= buffers.len(),
        forall|i: int| 0 <= i < chunks.len() ==> #[trigger] chunks[i] == buffers[i].unsent(),
    ensures
        laid_end_to_end(chunks).len() <= queued_bytes(buffers).len(),
        laid_end_to_end(chunks) == queued_bytes(buffers).subrange(0, laid_end_to_end(chunks).len() as int),
    decreases chunks.len(),
{
    if chunks.len() == 0 {
        assert(queued_bytes(buffers).subrange(0, 0) =~= Seq::<u8>::empty());
    } else {
        let rest_chunks = chunks.subrange(1, chunks.len() as int);
        let rest_buffers = buffers.subrange(1, buffers.len() as int);
        assert forall|i: int| 0 <= i < rest_chunks.len() implies #[trigger] rest_chunks[i] == rest_buffers[i].unsent() by {
            assert(rest_chunks[i] == chunks[i + 1]);
            assert(rest_buffers[i] == buffers[i + 1]);
        }
        lemma_whole_chunks_are_queue_front(rest_buffers, rest_chunks);
        let front = chunks[0];
        assert(front == buffers[0].unsent());
        let tail = laid_end_to_end(rest_chunks);
        assert(laid_end_to_end(chunks) == front + tail);
        assert(queued_bytes(buffers) == front + queued_bytes(rest_buffers));
        assert(laid_end_to_end(chunks) =~= queued_bytes(buffers).subrange(0, laid_end_to_end(chunks).len() as int));
    }
}

/// The bytes of each chunk offered to a write.
pub open spec fn chunk_views(chunks: Seq<&[u8]>) -> Seq<Seq<u8>> {
    Seq::new(chunks.len(), |i: int| chunks[i]@)
}

/// A vectored write of chunks that are each the whole unsent part of a
/// queued buffer writes the queue's own bytes: whatever number `n` of the
/// offered bytes the stream takes, those are the first `n` bytes queued, so
/// dropping `n` bytes from the front of the queue leaves exactly what was not
/// written.
pub proof fn lemma_written_prefix_is_queue_prefix<B: OutboundBuffer>(buffers: Seq<B>, chunks: Seq<Seq<u8>>, n: int)
    requires
        chunks.len() <= buffers.len(),
        forall|i: int| 0 <= i < chunks.len() ==> #[trigger] chunks[i] == buffers[i].unsent(),
        0 <= n <= laid_end_to_end(chunks).len(),
    ensures
        laid_end_to_end(chunks).subrange(0, n) == queued_bytes(buffers).subrange(0, n),
        laid_end_to_end(chunks).subrange(0, n) + queued_bytes(buffers).subrange(n, queued_bytes(buffers).len() as int)
            == queued_bytes(buffers),
{
    lemma_whole_chunks_are_queue_front(buffers, chunks);
    let all = queued_bytes(buffers);
    let laid = laid_end_to_end(chunks);
    assert(laid.subrange(0, n) =~= all.subrange(0, laid.len() as int).subrange(0, n));
    assert(all.subrange(0, n) + all.subrange(n, all.len() as int) =~= all);
}

/// The most buffers one vectored write is offered.
pub const MAX_WRITE_BUFFERS: usize = 128;

/// What a vectored write of the queued chunks came back with.
pub enum WriteOutcome {
    /// The stream took this many bytes; none means it is closed.
    Written(usize),
    /// The write failed with `error`, whose kind is `kind`.
    Failed { error: std::io::Error, kind: std::io::ErrorKind },
    /// The stream is not ready; it will signal readiness.
    NotReady,
}

/// What the connection does after a write.
#[derive(Debug)]
pub enum WriteStep {
    /// Serialize and write again.
    Continue,
    /// Wait for the stream or for more messages.
    Idle,
    /// The stream is closed: the connection ends.
    Closed,
    /// The write failed: the connection ends with this error.
    Failed(std::io::Error),
}

/// Encoded buffers waiting to be written, in wire order.
pub struct SendQueue<B> {
    buffers: VecDeque<B>,
}

impl<B: OutboundBuffer> SendQueue<B> {
    /// The queued buffers, front first.
    pub closed spec fn buffers(&self) -> Seq<B> {
        self.buffers@
    }

    /// The bytes still to be written, front first.
    pub open spec fn bytes(&self) -> Seq<u8> {
        queued_bytes(self.buffers())
    }

    /// An empty queue.
    pub fn new() -> (queue: Self)
        ensures
            queue.buffers() == Seq::<B>::empty(),
    {
        Self { buffers: VecDeque::new() }
    }

    /// How many buffers are queued.
    pub fn len(&self) -> (count: usize)
        ensures
            count == self.buffers().len(),
    {
        self.buffers.len()
    }

    /// Whether no buffer is queued.
    pub fn is_empty(&self) -> (empty: bool)
        ensures
            empty == (self.buffers().len() == 0),
    {
        self.buffers.len() == 0
    }

    /// The queued buffer at `index`, counting from the front.
    pub fn get(&self, index: usize) -> (buffer: &B)
        requires
            index < self.buffers().len(),
        ensures
            *buffer == self.buffers()[index as int],
    {
        &self.buffers[index]
    }

    /// Queue a buffer behind the others.
    pub fn push_back(&mut self, buffer: B)
        ensures
            final(self).buffers() == old(self).buffers().push(buffer),
    {
        self.buffers.push_back(buffer);
    }

    /// After a write of `total_written` bytes, drop what was written: buffers
    /// that were written completely are returned to the encoder, and a
    /// partially written front buffer is advanced and stays in front.
    ///
    /// Returns how many written bytes were more than the queue held (0 when
    /// the write fits in the queue, which is what a stream reports). The
    /// buffers returned to the encoder are the ones dropped from the front,
    /// each once, in queue order; a partly written front buffer stays in front
    /// with the rest of the queue behind it.
    pub fn advance_send_buffers<E: Encoder<Serialized = B>>(&mut self, encoder: &mut E, total_written: usize) -> (unaccounted: usize)
        ensures
            total_written <= old(self).bytes().len() ==> {
                &&& final(self).bytes() == old(self).bytes().subrange(total_written as int, old(self).bytes().len() as int)
                &&& unaccounted == 0
            },
            total_written > old(self).bytes().len() ==> {
                &&& final(self).buffers().len() == 0
                &&& unaccounted == total_written - old(self).bytes().len()
            },
            final(self).buffers().len() <= old(self).buffers().len(),
            E::obeys_encoded() ==> exists|states: Seq<E>|
                #[trigger] takes_back_in_order(
                    states,
                    old(self).buffers().subrange(0, old(self).buffers().len() - final(self).buffers().len()),
                ) && states[0] == *old(encoder) && states.last() == *final(encoder),
            E::obeys_encoded() ==> final(encoder).encoded() == old(encoder).encoded(),
            final(self).buffers().len() > 0 ==> final(self).buffers().subrange(1, final(self).buffers().len() as int)
                == old(self).buffers().subrange(
                old(self).buffers().len() - final(self).buffers().len() + 1,
                old(self).buffers().len() as int,
            ),
    {
        let ghost all = old(self).bytes();
        let ghost queued = old(self).buffers();
        let mut written = total_written;
        let ghost mut states: Seq<E> = seq![*encoder];
        assert(states.len() == queued.subrange(0, 0).len() + 1);
        while 0 < written
            invariant_except_break
                self.buffers() == queued.subrange(queued.len() - self.buffers().len(), queued.len() as int),
            invariant
                written <= total_written,
                total_written - written <= all.len(),
                self.bytes() == all.subrange(total_written - written, all.len() as int),
                queued == old(self).buffers(),
                self.buffers().len() <= queued.len(),
                states.len() == queued.len() - self.buffers().len() + 1,
                E::obeys_encoded() ==> takes_back_in_order(states, queued.subrange(0, queued.len() - self.buffers().len())),
                states[0] == *old(encoder),
                states.last() == *encoder,
                E::obeys_encoded() ==> encoder.encoded() == old(encoder).encoded(),
            ensures
                self.buffers().len() <= queued.len(),
                states.len() == queued.len() - self.buffers().len() + 1,
                E::obeys_encoded() ==> takes_back_in_order(states, queued.subrange(0, queued.len() - self.buffers().len())),
                states[0] == *old(encoder),
                states.last() == *encoder,
                E::obeys_encoded() ==> encoder.encoded() == old(encoder).encoded(),
                self.buffers().len() > 0 ==> self.buffers().subrange(1, self.buffers().len() as int)
                    == queued.subrange(queued.len() - self.buffers().len() + 1, queued.len() as int),
                written == 0 ==> self.bytes() == all.subrange(total_written as int, all.len() as int),
                written > 0 ==> self.buffers().len() == 0 && all.len() == total_written - written,
            decreases self.buffers().len(), written,
        {
            let ghost before = self.buffers();
            match self.buffers.pop_front() {
                Some(mut front) => {
                    assert(before.subrange(1, before.len() as int) == self.buffers());
                    assert(queued_bytes(before) == front.unsent() + self.bytes());
                    let remaining = front.remaining();
                    let ghost offset = total_written - written;
                    let ghost rest = self.bytes();
                    let ghost unsent = front.unsent();
                    assert(all.subrange(offset, all.len() as int) == unsent + rest);
                    if remaining <= written {
                        written = written - remaining;
                        assert(rest =~= all.subrange(offset + remaining, all.len() as int)) by {
                            assert forall|k: int| 0 <= k < rest.len() implies rest[k] == all[offset + remaining + k] by {
                                assert((unsent + rest)[remaining + k] == rest[k]);
                            }
                        }
                        assert(self.bytes() =~= all.subrange(total_written - written, all.len() as int));
                        let ghost r = queued.len() - before.len();
                        let ghost encoder_before = *encoder;
                        let ghost states_before = states;
                        proof {
                            assert(front == queued[r]);
                            assert(queued.subrange(0, r + 1) =~= queued.subrange(0, r).push(front));
                            assert(self.buffers() =~= queued.subrange(r + 1, queued.len() as int));
                        }
                        encoder.return_buffer(front);
                        proof {
                            states = states.push(*encoder);
                            if E::obeys_encoded() {
                            let done = queued.subrange(0, r + 1);
                            assert forall|i: int| 0 <= i < done.len() implies #[trigger] states[i].takes_back(
                                done[i],
                                &states[i + 1],
                            ) by {
                                if i < r {
                                    assert(states_before[i].takes_back(queued.subrange(0, r)[i], &states_before[i + 1]));
                                    assert(done[i] == queued.subrange(0, r)[i]);
                                } else {
                                    assert(states[i] == encoder_before);
                                }
                            }
                            }
                        }
                    } else {
                        front.advance(written);
                        assert(front.unsent() == unsent.subrange(written as int, unsent.len() as int));
                        self.buffers.push_front(front);
                        assert(self.buffers().subrange(1, self.buffers().len() as int) =~= before.subrange(1, before.len() as int));
                        assert(self.buffers().subrange(1, self.buffers().len() as int) =~= queued.subrange(
                            queued.len() - self.buffers().len() + 1,
                            queued.len() as int,
                        ));
                        assert(self.bytes() == front.unsent() + queued_bytes(before.subrange(1, before.len() as int)));
                        assert(self.bytes() =~= all.subrange(total_written as int, all.len() as int)) by {
                            assert forall|k: int| 0 <= k < self.bytes().len() implies self.bytes()[k] == all[total_written as int + k] by {
                                assert((unsent + rest)[written + k] == all[offset + written + k]);
                                if k < unsent.len() - written {
                                    assert(self.bytes()[k] == unsent[written + k]);
                                } else {
                                    assert(self.bytes()[k] == rest[k - (unsent.len() - written)]);
                                }
                            }
                        }
                        written = 0;
                        break;
                    }
                },
                None => {
                    assert(self.bytes() =~= Seq::<u8>::empty());
                    break;
                },
            }
        }
        written
    }

    /// The chunks to offer one vectored write: the leading unsent bytes of
    /// each of the first `MAX_WRITE_BUFFERS` queued buffers, in order.
    pub fn write_chunks(&self) -> (chunks: Vec<&[u8]>)
        ensures
            chunks@.len() == vstd::math::min(self.buffers().len() as int, MAX_WRITE_BUFFERS as int),
            forall|i: int| 0 <= i < chunks@.len() ==> {
                &&& (#[trigger] chunks@[i])@.len() <= self.buffers()[i].unsent().len()
                &&& chunks@[i]@ == self.buffers()[i].unsent().subrange(0, chunks@[i]@.len() as int)
                &&& self.buffers()[i].unsent().len() > 0 ==> chunks@[i]@.len() > 0
                &&& chunks@[i]@ == self.buffers()[i].unsent()
            },
            laid_end_to_end(chunk_views(chunks@)).len() <= self.bytes().len(),
            laid_end_to_end(chunk_views(chunks@)) == self.bytes().subrange(0, laid_end_to_end(chunk_views(chunks@)).len() as int),
    {
        let count = if self.buffers.len() < MAX_WRITE_BUFFERS { self.buffers.len() } else { MAX_WRITE_BUFFERS };
        let mut chunks: Vec<&[u8]> = Vec::new();
        let mut i: usize = 0;
        while i < count
            invariant
                i <= count,
                count <= self.buffers@.len(),
                count == vstd::math::min(self.buffers().len() as int, MAX_WRITE_BUFFERS as int),
                chunks@.len() == i,
                forall|j: int| 0 <= j < i ==> {
                    &&& (#[trigger] chunks@[j])@.len() <= self.buffers()[j].unsent().len()
                    &&& chunks@[j]@ == self.buffers()[j].unsent().subrange(0, chunks@[j]@.len() as int)
                    &&& self.buffers()[j].unsent().len() > 0 ==> chunks@[j]@.len() > 0
                    &&& chunks@[j]@ == self.buffers()[j].unsent()
                },
            decreases count - i,
        {
            chunks.push(self.buffers[i].chunk());
            i = i + 1;
        }
        proof {
            let views = chunk_views(chunks@);
            assert forall|k: int| 0 <= k < views.len() implies #[trigger] views[k] == self.buffers()[k].unsent() by {
                assert(views[k] == chunks@[k]@);
            }
            lemma_whole_chunks_are_queue_front(self.buffers(), views);
        }
        chunks
    }

    /// Take in what a vectored write came back with: written bytes are
    /// dropped from the queue (and the write is tried again); a write of
    /// nothing means the stream closed; "would block" and "interrupted" try
    /// again; other errors end the connection; a stream that is not ready
    /// leaves the queue waiting.
    pub fn complete_write<E: Encoder<Serialized = B>>(&mut self, encoder: &mut E, outcome: WriteOutcome) -> (step: WriteStep)
        ensures
            match outcome {
                WriteOutcome::Written(written) => if written == 0 {
                    step is Closed && final(self).buffers() == old(self).buffers()
                } else {
                    step is Continue && (written <= old(self).bytes().len() ==> final(self).bytes()
                        == old(self).bytes().subrange(written as int, old(self).bytes().len() as int))
                        && (written > old(self).bytes().len() ==> final(self).buffers().len() == 0)
                },
                WriteOutcome::Failed { error, kind } => final(self).buffers() == old(self).buffers() && if kind
                    == std::io::ErrorKind::WouldBlock || kind == std::io::ErrorKind::Interrupted {
                    step is Continue
                } else {
                    step == WriteStep::Failed(error)
                },
                WriteOutcome::NotReady => step is Idle && final(self).buffers() == old(self).buffers(),
            },
    {
        match outcome {
            WriteOutcome::Written(written) => {
                if written == 0 {
                    WriteStep::Closed
                } else {
                    self.advance_send_buffers(encoder, written);
                    WriteStep::Continue
                }
            },
            WriteOutcome::Failed { error, kind } => {
                if kind_would_block(kind) || kind_interrupted(kind) {
                    WriteStep::Continue
                } else {
                    WriteStep::Failed(error)
                }
            },
            WriteOutcome::NotReady => WriteStep::Idle,
        }
    }

    /// Encode pending messages into the queue until it holds
    /// `max_queued_send_messages` buffers or no message is left.
    ///
    /// `pending` is a stack: messages are taken from its end, oldest last
    /// pushed first. Returns how many messages were encoded. The encoder's
    /// record grows by exactly those messages, in the order taken, each with
    /// the bytes of the buffer queued for it.
    pub fn serialize_outbound_messages<E: Encoder<Serialized = B>>(
        &mut self,
        encoder: &mut E,
        pending: &mut Vec<E::Message>,
        max_queued_send_messages: usize,
    ) -> (count: usize)
        ensures
            count == if old(self).buffers().len() >= max_queued_send_messages {
                0
            } else {
                vstd::math::min(old(pending)@.len() as int, max_queued_send_messages - old(self).buffers().len()) as nat
            },
            final(pending)@ == old(pending)@.subrange(0, old(pending)@.len() - count),
            final(self).buffers().len() == old(self).buffers().len() + count,
            final(self).buffers().subrange(0, old(self).buffers().len() as int) == old(self).buffers(),
            old(self).buffers().len() <= max_queued_send_messages ==> final(self).buffers().len() <= max_queued_send_messages,
            E::obeys_encoded() ==> final(encoder).encoded().len() == old(encoder).encoded().len() + count,
            E::obeys_encoded() ==> final(encoder).encoded().subrange(0, old(encoder).encoded().len() as int)
                == old(encoder).encoded(),
            E::obeys_encoded() ==> forall|i: int|
                0 <= i < count ==> #[trigger] final(encoder).encoded()[old(encoder).encoded().len() + i] == (
                    old(pending)@[old(pending)@.len() - 1 - i],
                    final(self).buffers()[old(self).buffers().len() + i].unsent(),
                ),
    {
        let queued = self.buffers.len();
        if queued >= max_queued_send_messages {
            return 0;
        }
        let max_outbound = max_queued_send_messages - queued;
        let mut count: usize = 0;
        while count < max_outbound
            invariant
                count <= max_outbound,
                max_outbound == max_queued_send_messages - queued,
                queued == old(self).buffers().len(),
                count <= old(pending)@.len(),
                pending@ == old(pending)@.subrange(0, old(pending)@.len() - count),
                self.buffers().len() == queued + count,
                self.buffers().subrange(0, queued as int) == old(self).buffers(),
                E::obeys_encoded() ==> encoder.encoded().len() == old(encoder).encoded().len() + count,
                E::obeys_encoded() ==> encoder.encoded().subrange(0, old(encoder).encoded().len() as int)
                    == old(encoder).encoded(),
                E::obeys_encoded() ==> forall|i: int|
                    0 <= i < count ==> #[trigger] encoder.encoded()[old(encoder).encoded().len() + i] == (
                        old(pending)@[old(pending)@.len() - 1 - i],
                        self.buffers()[queued + i].unsent(),
                    ),
            ensures
                count <= max_outbound,
                count <= old(pending)@.len(),
                count == max_outbound || count == old(pending)@.len(),
                pending@ == old(pending)@.subrange(0, old(pending)@.len() - count),
                self.buffers().len() == queued + count,
                self.buffers().subrange(0, queued as int) == old(self).buffers(),
                E::obeys_encoded() ==> encoder.encoded().len() == old(encoder).encoded().len() + count,
                E::obeys_encoded() ==> encoder.encoded().subrange(0, old(encoder).encoded().len() as int)
                    == old(encoder).encoded(),
                E::obeys_encoded() ==> forall|i: int|
                    0 <= i < count ==> #[trigger] encoder.encoded()[old(encoder).encoded().len() + i] == (
                        old(pending)@[old(pending)@.len() - 1 - i],
                        self.buffers()[queued + i].unsent(),
                    ),
            decreases max_outbound - count,
        {
            match pending.pop() {
                Some(message) => {
                    let ghost encoded_before = encoder.encoded();
                    assert(message == old(pending)@[old(pending)@.len() - 1 - count]);
                    let buffer = encoder.encode(message);
                    let ghost before = self.buffers();
                    self.buffers.push_back(buffer);
                    assert(self.buffers().subrange(0, queued as int) =~= before.subrange(0, queued as int));
                    proof {
                        if E::obeys_encoded() {
                            assert(encoder.encoded().subrange(0, old(encoder).encoded().len() as int)
                                =~= encoded_before.subrange(0, old(encoder).encoded().len() as int));
                            assert forall|i: int| 0 <= i < count + 1 implies #[trigger] encoder.encoded()[old(
                                encoder,
                            ).encoded().len() + i] == (
                                old(pending)@[old(pending)@.len() - 1 - i],
                                self.buffers()[queued + i].unsent(),
                            ) by {
                                if i < count {
                                    assert(encoded_before[old(encoder).encoded().len() + i] == (
                                        old(pending)@[old(pending)@.len() - 1 - i],
                                        before[queued + i].unsent(),
                                    ));
                                    assert(self.buffers()[queued + i] == before[queued + i]);
                                } else {
                                    assert(self.buffers()[queued + i] == buffer);
                                }
                            }
                        }
                    }
                    count = count + 1;
                    assert(pending@ =~= old(pending)@.subrange(0, old(pending)@.len() - count));
                },
                None => {
                    break;
                },
            }
        }
        count
    }
}

/// A bounded lease on a connection's send capacity: each permit taken from it
/// lets one message be encoded into the send queue.
pub struct SendBudget {
    remaining: usize,
}

impl SendBudget {
    /// How many more messages this budget admits.
    pub closed spec fn admits(&self) -> nat {
        self.remaining as nat
    }

    /// A budget for the room left in a queue that holds `queued` buffers out
    /// of at most `max_queued_send_messages`.
    pub fn new(max_queued_send_messages: usize, queued: usize) -> (budget: Self)
        ensures
            budget.admits() == if queued <= max_queued_send_messages { max_queued_send_messages - queued } else { 0 },
    {
        if queued <= max_queued_send_messages {
            Self { remaining: max_queued_send_messages - queued }
        } else {
            Self { remaining: 0 }
        }
    }

    /// How many more messages this budget admits.
    pub fn remaining(&self) -> (count: usize)
        ensures
            count == self.admits(),
    {
        self.remaining
    }

    /// Take a permit to send one message, or `None` when the budget is spent.
    /// The permit borrows the budget: spend or drop it before reserving
    /// another. Dropping a permit unused returns its capacity.
    pub fn reserve(&mut self) -> (permit: Option<SendPermit<'_>>)
        ensures
            permit is Some <==> old(self).admits() > 0,
            permit matches Some(p) ==> *p.budget == *old(self) && *final(p.budget) == *final(self),
            permit is None ==> *final(self) == *old(self),
    {
        if self.remaining == 0 {
            None
        } else {
            Some(SendPermit { budget: self })
        }
    }
}

/// A reserved slot in a connection's send queue. Spending it consumes it.
pub struct SendPermit<'a> {
    /// The budget this permit was reserved from.
    pub budget: &'a mut SendBudget,
}

impl<'a> SendPermit<'a> {
    /// Spend the permit: encode `message` into the back of `queue`.
    pub fn send<B: OutboundBuffer, E: Encoder<Serialized = B>>(self, encoder: &mut E, queue: &mut SendQueue<B>, message: E::Message)
        requires
            old(self.budget).admits() > 0,
        ensures
            final(self.budget).admits() == old(self.budget).admits() - 1,
            E::obeys_encoded() ==> final(encoder).encoded() == old(encoder).encoded().push(
                (message, final(queue).buffers().last().unsent()),
            ),
            final(queue).buffers().len() == old(queue).buffers().len() + 1,
            final(queue).buffers().subrange(0, old(queue).buffers().len() as int) == old(queue).buffers(),
    {
        self.budget.remaining = self.budget.remaining - 1;
        let buffer = encoder.encode(message);
        let ghost before = queue.buffers();
        queue.push_back(buffer);
        assert(queue.buffers().subrange(0, before.len() as int) =~= before);
    }
}

} // verus!

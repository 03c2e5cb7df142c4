//! The receive side of a connection: a growable buffer of bytes read from
//! the stream, and the loop that decodes messages out of it and hands them to
//! the reactor.

use vstd::prelude::*;

use crate::codec::{Decoder, DeserializeError, MessageReactor, ReactorStatus};
use crate::io_errors::{kind_interrupted, kind_would_block};

verus! {

/// What the receive side should do next.
#[derive(Debug)]
pub enum ReadBufferState {
    /// Done consuming until the stream signals readiness again.
    Pending,
    /// There may be more to read right away.
    MoreToRead,
    /// The connection is disconnected or is to be disconnected.
    Disconnected,
    /// The connection failed with an I/O error, whose kind is `kind`.
    Error { error: std::io::Error, kind: std::io::ErrorKind },
}

/// `std::io::Error::new(ErrorKind::InvalidData, message)`: an I/O error of
/// kind `InvalidData`. Nothing about the error value is stated; its kind is
/// carried beside it in `ReadBufferState::Error`.
#[verifier::external_body]
fn invalid_data(message: &str) -> std::io::Error {
    std::io::Error::new(std::io::ErrorKind::InvalidData, message)
}

/// What a read from the stream produced.
pub enum ReadOutcome {
    /// These bytes were read; none means the stream is closed.
    Filled(Vec<u8>),
    /// The read failed with `error`, whose kind is `kind`.
    Failed { error: std::io::Error, kind: std::io::ErrorKind },
    /// The stream is not ready; it will signal readiness.
    NotReady,
}

/// What a receive pass does with one decode result.
#[derive(Debug, PartialEq, Eq, Structural)]
pub enum PassStep {
    /// Deliver the decoded message, which took `length` bytes.
    Deliver { length: usize },
    /// Move past `distance` bytes without a message.
    Skip { distance: usize },
    /// End the pass and wait for more bytes.
    Wait,
    /// Close the connection.
    Disconnect,
}

/// What a receive pass does with a decode result (the message's length, or
/// the decoder's error), when the decoder was offered `available` bytes of a
/// buffer that holds at most `max_buffer_length` bytes.
pub open spec fn pass_decision(available: int, max_buffer_length: int, decoded: Result<usize, DeserializeError>) -> PassStep {
    match decoded {
        Ok(length) => PassStep::Deliver { length },
        Err(DeserializeError::IncompleteBuffer { next_message_size }) => if max_buffer_length < next_message_size {
            PassStep::Disconnect
        } else {
            PassStep::Wait
        },
        Err(DeserializeError::InvalidBuffer) => PassStep::Disconnect,
        Err(DeserializeError::SkipMessage { distance }) => if available < distance {
            PassStep::Wait
        } else {
            PassStep::Skip { distance }
        },
    }
}

/// Decide what a receive pass does with a decode result, as
/// [`pass_decision`] says:
///
/// * A message is delivered.
/// * `IncompleteBuffer` waits for more bytes, unless the announced message
///   is longer than the buffer can ever hold: then the connection closes.
/// * `InvalidBuffer` closes the connection.
/// * `SkipMessage` skips when the bytes to skip are all here, and otherwise
///   waits for them.
pub fn pass_step(available: usize, max_buffer_length: usize, decoded: Result<usize, DeserializeError>) -> (step: PassStep)
    ensures
        step == pass_decision(available as int, max_buffer_length as int, decoded),
{
    match decoded {
        Ok(length) => PassStep::Deliver { length },
        Err(DeserializeError::IncompleteBuffer { next_message_size }) => {
            if max_buffer_length < next_message_size {
                PassStep::Disconnect
            } else {
                PassStep::Wait
            }
        },
        Err(DeserializeError::InvalidBuffer) => PassStep::Disconnect,
        Err(DeserializeError::SkipMessage { distance }) => {
            if available < distance {
                PassStep::Wait
            } else {
                PassStep::Skip { distance }
            }
        },
    }
}

/// One decode of a receive pass: where in the unread bytes the decoder's
/// window began (it ran to the end of the unread bytes), what the decoder
/// answered, and, for a delivered message, what the reactor answered
/// (`Continue` otherwise).
pub struct DecodeRecord {
    pub cursor: usize,
    pub decoded: Result<usize, DeserializeError>,
    pub status: ReactorStatus,
}

/// The decision a pass of `unread` bytes made at a record.
pub open spec fn record_step(record: DecodeRecord, unread: int, max_buffer_length: int) -> PassStep {
    pass_decision(unread - record.cursor, max_buffer_length, record.decoded)
}

/// How far a decision moves the cursor.
pub open spec fn step_advance(step: PassStep) -> int {
    match step {
        PassStep::Deliver { length } => length as int,
        PassStep::Skip { distance } => distance as int,
        _ => 0,
    }
}

/// Whether a pass goes on to decode again after a record: a delivered
/// message that took some of the bytes offered and was accepted by the
/// reactor, or a skip of some bytes.
pub open spec fn record_continues(record: DecodeRecord, unread: int, max_buffer_length: int) -> bool {
    match record_step(record, unread, max_buffer_length) {
        PassStep::Deliver { length } => 0 < length <= unread - record.cursor && record.status == ReactorStatus::Continue,
        PassStep::Skip { distance } => 0 < distance,
        _ => false,
    }
}

/// The record at `i` starts inside the unread bytes, and only a delivered
/// message records a reactor answer other than `Continue`.
pub open spec fn well_placed(trace: Seq<DecodeRecord>, i: int, unread: int, max_buffer_length: int) -> bool {
    &&& 0 <= trace[i].cursor < unread
    &&& !(record_step(trace[i], unread, max_buffer_length) is Deliver) ==> trace[i].status == ReactorStatus::Continue
}

/// The pass goes on after the record at `i`, and the next window starts
/// where that decision moved the cursor.
pub open spec fn moves_on(trace: Seq<DecodeRecord>, i: int, unread: int, max_buffer_length: int) -> bool {
    &&& record_continues(trace[i], unread, max_buffer_length)
    &&& trace[i + 1].cursor == trace[i].cursor + step_advance(record_step(trace[i], unread, max_buffer_length))
}

/// A pass over `unread` bytes decodes first at the start, each window runs
/// from its cursor to the end of the unread bytes and is not empty, and each
/// record but the last goes on to the next decode where the decision moved
/// the cursor.
pub open spec fn pass_is_ordered(trace: Seq<DecodeRecord>, unread: int, max_buffer_length: int) -> bool {
    &&& forall|i: int| 0 <= i < trace.len() ==> #[trigger] well_placed(trace, i, unread, max_buffer_length)
    &&& trace.len() > 0 ==> trace[0].cursor == 0
    &&& forall|i: int| 0 <= i < trace.len() - 1 ==> #[trigger] moves_on(trace, i, unread, max_buffer_length)
}

/// Every record of the trace goes on.
pub open spec fn all_go_on(trace: Seq<DecodeRecord>, unread: int, max_buffer_length: int) -> bool {
    forall|i: int| 0 <= i < trace.len() ==> #[trigger] goes_on(trace, i, unread, max_buffer_length)
}

/// The record at `i` goes on.
pub open spec fn goes_on(trace: Seq<DecodeRecord>, i: int, unread: int, max_buffer_length: int) -> bool {
    record_continues(trace[i], unread, max_buffer_length)
}

/// How a pass over `pending` ended at its last decode, and what is left:
///
/// * a message the reactor refused, or a `Disconnect` decision: the state is
///   `Disconnected` and the bytes stay as they were;
/// * a message longer than the bytes offered: `Error` of kind `InvalidData`,
///   bytes as they were;
/// * a message or a skip of no bytes: `MoreToRead`, the bytes from its
///   cursor left;
/// * `Wait`: `Pending`, the bytes from its cursor left;
/// * otherwise the last message or skip reached the end of the bytes:
///   `Pending`, nothing left.
pub open spec fn pass_ends(
    last: DecodeRecord,
    pending: Seq<u8>,
    max_buffer_length: int,
    left: Seq<u8>,
    state: ReadBufferState,
) -> bool {
    let unread = pending.len() as int;
    let available = unread - last.cursor;
    let from_cursor = pending.subrange(last.cursor as int, unread);
    match record_step(last, unread, max_buffer_length) {
        PassStep::Deliver { length } => if last.status == ReactorStatus::Disconnect {
            state is Disconnected && left == pending
        } else if length > available {
            state matches ReadBufferState::Error { kind, .. } && kind == std::io::ErrorKind::InvalidData && left == pending
        } else if length == 0 {
            state is MoreToRead && left == from_cursor
        } else {
            last.cursor + length == unread && state is Pending && left == Seq::<u8>::empty()
        },
        PassStep::Skip { distance } => if distance == 0 {
            state is MoreToRead && left == from_cursor
        } else {
            last.cursor + distance == unread && state is Pending && left == Seq::<u8>::empty()
        },
        PassStep::Wait => state is Pending && left == from_cursor,
        PassStep::Disconnect => state is Disconnected && left == pending,
    }
}

/// The length, or the error, of a decoder's answer.
pub open spec fn outcome_of<M>(decoded: Result<(usize, M), DeserializeError>) -> Result<usize, DeserializeError> {
    match decoded {
        Ok((length, _)) => Ok(length),
        Err(error) => Err(error),
    }
}

/// A decode the decoder recorded (the bytes offered and its answer) is the
/// one a record of a pass over `pending` describes: the bytes from the
/// record's cursor to the end, and the answer's length or error.
pub open spec fn offered_as_traced<M>(
    entry: (Seq<u8>, Result<(usize, M), DeserializeError>),
    record: DecodeRecord,
    pending: Seq<u8>,
) -> bool {
    &&& entry.0 == pending.subrange(record.cursor as int, pending.len() as int)
    &&& outcome_of(entry.1) == record.decoded
}

/// The decodes a decoder recorded are, one for one and in order, those the
/// records of a pass over `pending` describe.
pub open spec fn decoded_as_traced<M>(
    log: Seq<(Seq<u8>, Result<(usize, M), DeserializeError>)>,
    trace: Seq<DecodeRecord>,
    pending: Seq<u8>,
) -> bool {
    &&& log.len() == trace.len()
    &&& forall|i: int| 0 <= i < trace.len() ==> #[trigger] offered_as_traced(log[i], trace[i], pending)
}

/// How many records of a pass over `unread` bytes delivered a message.
pub open spec fn deliveries(trace: Seq<DecodeRecord>, unread: int, max_buffer_length: int) -> nat
    decreases trace.len(),
{
    if trace.len() == 0 {
        0
    } else {
        deliveries(trace.drop_last(), unread, max_buffer_length) + if record_step(
            trace.last(),
            unread,
            max_buffer_length,
        ) is Deliver {
            1nat
        } else {
            0nat
        }
    }
}

/// The messages a reactor received are, in order, the messages the decoder
/// answered at the records that delivered one, each with the answer the
/// record holds; the reactor received nothing else.
pub open spec fn delivered_as_traced<M>(
    received: Seq<(M, ReactorStatus)>,
    log: Seq<(Seq<u8>, Result<(usize, M), DeserializeError>)>,
    trace: Seq<DecodeRecord>,
    unread: int,
    max_buffer_length: int,
) -> bool {
    &&& received.len() == deliveries(trace, unread, max_buffer_length)
    &&& forall|i: int|
        0 <= i < trace.len() && record_step(trace[i], unread, max_buffer_length) is Deliver
            ==> #[trigger] received[deliveries(trace.subrange(0, i), unread, max_buffer_length) as int] == (
            log[i].1->Ok_0.1,
            trace[i].status,
        )
}

proof fn lemma_deliveries_push(trace: Seq<DecodeRecord>, record: DecodeRecord, unread: int, max: int)
    ensures
        deliveries(trace.push(record), unread, max) == deliveries(trace, unread, max) + if record_step(
            record,
            unread,
            max,
        ) is Deliver {
            1nat
        } else {
            0nat
        },
        forall|i: int|
            0 <= i <= trace.len() ==> deliveries(#[trigger] trace.push(record).subrange(0, i), unread, max)
                == deliveries(trace.subrange(0, i), unread, max),
        deliveries(trace.subrange(0, trace.len() as int), unread, max) == deliveries(trace, unread, max),
{
    assert(trace.push(record).drop_last() =~= trace);
    assert forall|i: int| 0 <= i <= trace.len() implies deliveries(#[trigger] trace.push(record).subrange(0, i), unread, max)
        == deliveries(trace.subrange(0, i), unread, max) by {
        assert(trace.push(record).subrange(0, i) =~= trace.subrange(0, i));
    }
    assert(trace.subrange(0, trace.len() as int) =~= trace);
}

proof fn lemma_deliveries_before(trace: Seq<DecodeRecord>, j: int, unread: int, max: int)
    requires
        0 <= j <= trace.len(),
    ensures
        deliveries(trace.subrange(0, j), unread, max) <= deliveries(trace, unread, max),
        j < trace.len() && record_step(trace[j], unread, max) is Deliver ==> deliveries(trace.subrange(0, j), unread, max)
            < deliveries(trace, unread, max),
    decreases trace.len() - j,
{
    if j < trace.len() {
        lemma_deliveries_before(trace, j + 1, unread, max);
        assert(trace.subrange(0, j + 1).drop_last() =~= trace.subrange(0, j));
        assert(trace.subrange(0, j + 1).last() == trace[j]);
    } else {
        assert(trace.subrange(0, j) =~= trace);
    }
}

proof fn lemma_traced_push<M>(
    log: Seq<(Seq<u8>, Result<(usize, M), DeserializeError>)>,
    trace: Seq<DecodeRecord>,
    pending: Seq<u8>,
    entry: (Seq<u8>, Result<(usize, M), DeserializeError>),
    record: DecodeRecord,
)
    requires
        decoded_as_traced(log, trace, pending),
        offered_as_traced(entry, record, pending),
    ensures
        decoded_as_traced(log.push(entry), trace.push(record), pending),
{
    assert forall|i: int| 0 <= i < trace.len() + 1 implies #[trigger] offered_as_traced(
        log.push(entry)[i],
        trace.push(record)[i],
        pending,
    ) by {
        if i < trace.len() {
            assert(offered_as_traced(log[i], trace[i], pending));
        }
    }
}

proof fn lemma_delivered_push<M>(
    received: Seq<(M, ReactorStatus)>,
    log: Seq<(Seq<u8>, Result<(usize, M), DeserializeError>)>,
    trace: Seq<DecodeRecord>,
    unread: int,
    max: int,
    entry: (Seq<u8>, Result<(usize, M), DeserializeError>),
    record: DecodeRecord,
    received_after: Seq<(M, ReactorStatus)>,
)
    requires
        delivered_as_traced(received, log, trace, unread, max),
        log.len() == trace.len(),
        record_step(record, unread, max) is Deliver ==> received_after == received.push((entry.1->Ok_0.1, record.status)),
        !(record_step(record, unread, max) is Deliver) ==> received_after == received,
    ensures
        delivered_as_traced(received_after, log.push(entry), trace.push(record), unread, max),
{
    lemma_deliveries_push(trace, record, unread, max);
    let t = trace.push(record);
    let l = log.push(entry);
    assert forall|i: int| 0 <= i < t.len() && record_step(t[i], unread, max) is Deliver implies #[trigger] received_after[deliveries(
        t.subrange(0, i),
        unread,
        max,
    ) as int] == (l[i].1->Ok_0.1, t[i].status) by {
        if i < trace.len() {
            assert(t[i] == trace[i]);
            lemma_deliveries_before(trace, i, unread, max);
            assert(received[deliveries(trace.subrange(0, i), unread, max) as int] == (log[i].1->Ok_0.1, trace[i].status));
        }
    }
}

proof fn lemma_push_ordered(trace: Seq<DecodeRecord>, record: DecodeRecord, unread: int, max: int)
    requires
        pass_is_ordered(trace, unread, max),
        all_go_on(trace, unread, max),
        trace.len() == 0 ==> record.cursor == 0,
        trace.len() > 0 ==> record.cursor == trace.last().cursor + step_advance(record_step(trace.last(), unread, max)),
        0 <= record.cursor < unread,
        !(record_step(record, unread, max) is Deliver) ==> record.status == ReactorStatus::Continue,
    ensures
        pass_is_ordered(trace.push(record), unread, max),
        trace.push(record).last() == record,
        record_continues(record, unread, max) ==> all_go_on(trace.push(record), unread, max),
{
    let t = trace.push(record);
    assert forall|i: int| 0 <= i < t.len() implies #[trigger] well_placed(t, i, unread, max) by {
        if i < trace.len() {
            assert(well_placed(trace, i, unread, max));
            assert(t[i] == trace[i]);
        }
    }
    assert forall|i: int| 0 <= i < t.len() - 1 implies #[trigger] moves_on(t, i, unread, max) by {
        assert(goes_on(trace, i, unread, max));
        assert(t[i] == trace[i]);
        if i < trace.len() - 1 {
            assert(moves_on(trace, i, unread, max));
            assert(t[i + 1] == trace[i + 1]);
        } else {
            assert(t[i + 1] == record);
        }
    }
    if record_continues(record, unread, max) {
        assert forall|i: int| 0 <= i < t.len() implies #[trigger] goes_on(t, i, unread, max) by {
            if i < trace.len() {
                assert(goes_on(trace, i, unread, max));
                assert(t[i] == trace[i]);
            }
        }
    }
}

/// A buffer of bytes read from a stream and not yet decoded.
///
/// The bytes `buffer[0..unread]` have been read and not consumed; the rest of
/// the buffer is space for the next read. The buffer grows by
/// `buffer_allocation_increment` while it is shorter than
/// `max_buffer_length`.
pub struct ReceiveBuffer {
    buffer: Vec<u8>,
    unread: usize,
    max_buffer_length: usize,
    buffer_allocation_increment: usize,
    last_pass: Ghost<Seq<DecodeRecord>>,
}

impl ReceiveBuffer {
    /// The internal invariant: the unread bytes lie inside the buffer, and a
    /// growth step cannot overflow.
    pub closed spec fn wf(&self) -> bool {
        &&& self.unread <= self.buffer@.len()
        &&& self.max_buffer_length + self.buffer_allocation_increment <= usize::MAX
        &&& self.buffer@.len() <= self.max_buffer_length + self.buffer_allocation_increment
    }

    /// The bytes read and not yet consumed.
    pub closed spec fn pending(&self) -> Seq<u8> {
        self.buffer@.subrange(0, self.unread as int)
    }

    /// How many bytes the buffer can hold right now.
    pub closed spec fn capacity(&self) -> nat {
        self.buffer@.len()
    }

    /// The most the buffer grows to (give or take one increment).
    pub closed spec fn max_buffer_length(&self) -> nat {
        self.max_buffer_length as nat
    }

    /// The size of one growth step.
    pub closed spec fn allocation_increment(&self) -> nat {
        self.buffer_allocation_increment as nat
    }

    /// An empty receive buffer.
    pub fn new(max_buffer_length: usize, buffer_allocation_increment: usize) -> (receive: Self)
        requires
            max_buffer_length + buffer_allocation_increment <= usize::MAX,
        ensures
            receive.wf(),
            receive.pending() == Seq::<u8>::empty(),
            receive.capacity() == 0,
            receive.max_buffer_length() == max_buffer_length,
            receive.allocation_increment() == buffer_allocation_increment,
    {
        let receive = Self {
            buffer: Vec::new(),
            unread: 0,
            max_buffer_length,
            buffer_allocation_increment,
            last_pass: Ghost(Seq::empty()),
        };
        assert(receive.pending() =~= Seq::<u8>::empty());
        receive
    }

    /// How many bytes are read and not yet consumed.
    pub fn unread_len(&self) -> (count: usize)
        requires
            self.wf(),
        ensures
            count == self.pending().len(),
    {
        self.unread
    }

    /// How many bytes the buffer can hold right now.
    pub fn capacity_len(&self) -> (count: usize)
        requires
            self.wf(),
        ensures
            count == self.capacity(),
    {
        self.buffer.len()
    }

    /// Make room for the next read. While the buffer is shorter than its
    /// maximum and has less than one increment of free space, it grows by one
    /// increment. Returns how many bytes the next read may fill (0 when the
    /// buffer is full of unconsumed bytes).
    pub fn prepare_read(&mut self) -> (space: usize)
        requires
            old(self).wf(),
        ensures
            final(self).wf(),
            final(self).pending() == old(self).pending(),
            final(self).max_buffer_length() == old(self).max_buffer_length(),
            final(self).allocation_increment() == old(self).allocation_increment(),
            final(self).capacity() == if old(self).capacity() < old(self).max_buffer_length()
                && old(self).capacity() - old(self).pending().len() < old(self).allocation_increment() {
                old(self).capacity() + old(self).allocation_increment()
            } else {
                old(self).capacity()
            },
            space == final(self).capacity() - final(self).pending().len(),
    {
        if self.buffer.len() < self.max_buffer_length
            && self.buffer.len() - self.unread < self.buffer_allocation_increment
        {
            let new_len = self.buffer.len() + self.buffer_allocation_increment;
            self.buffer.resize(new_len, 0u8);
        }
        assert(self.pending() =~= old(self).pending());
        self.buffer.len() - self.unread
    }

    /// Append freshly read bytes after the unconsumed ones.
    pub fn commit_read(&mut self, data: &[u8])
        requires
            old(self).wf(),
            data@.len() <= old(self).capacity() - old(self).pending().len(),
        ensures
            final(self).wf(),
            final(self).pending() == old(self).pending() + data@,
            final(self).capacity() == old(self).capacity(),
            final(self).max_buffer_length() == old(self).max_buffer_length(),
            final(self).allocation_increment() == old(self).allocation_increment(),
    {
        let ghost start = self.pending();
        let mut i: usize = 0;
        while i < data.len()
            invariant
                self.wf(),
                i <= data@.len(),
                self.unread + data@.len() - i <= self.buffer@.len(),
                self.buffer@.len() == old(self).buffer@.len(),
                self.max_buffer_length == old(self).max_buffer_length,
                self.buffer_allocation_increment == old(self).buffer_allocation_increment,
                self.pending() == start + data@.subrange(0, i as int),
            decreases data@.len() - i,
        {
            let index = self.unread;
            let ghost prior = self.buffer@;
            assert(self.pending() == prior.subrange(0, index as int));
            self.buffer.set(index, data[i]);
            self.unread = self.unread + 1;
            assert(self.pending() =~= prior.subrange(0, index as int).push(data@[i as int]));
            i = i + 1;
            assert(self.pending() =~= start + data@.subrange(0, i as int));
        }
        assert(data@.subrange(0, data@.len() as int) =~= data@);
    }

    /// Make room for the next read (as [`ReceiveBuffer::prepare_read`] does)
    /// and return how many bytes it may fill; with no room at all, the
    /// buffer is full of unconsumed bytes and the state is `MoreToRead`: decode
    /// before reading again.
    pub fn begin_read(&mut self) -> (space: Result<usize, ReadBufferState>)
        requires
            old(self).wf(),
        ensures
            final(self).wf(),
            final(self).pending() == old(self).pending(),
            final(self).max_buffer_length() == old(self).max_buffer_length(),
            final(self).allocation_increment() == old(self).allocation_increment(),
            final(self).capacity() == if old(self).capacity() < old(self).max_buffer_length()
                && old(self).capacity() - old(self).pending().len() < old(self).allocation_increment() {
                old(self).capacity() + old(self).allocation_increment()
            } else {
                old(self).capacity()
            },
            match space {
                Ok(count) => count > 0 && count == final(self).capacity() - final(self).pending().len(),
                Err(state) => state is MoreToRead && final(self).capacity() == final(self).pending().len(),
            },
    {
        let space = self.prepare_read();
        if space == 0 {
            Err(ReadBufferState::MoreToRead)
        } else {
            Ok(space)
        }
    }

    /// Take in the outcome of a read into the free space: bytes read are
    /// appended (`MoreToRead`); a read of nothing means the stream closed
    /// (`Disconnected`); "would block" and "not ready" wait (`Pending`); an
    /// interrupted read is retried (`MoreToRead`); other errors fail the
    /// connection.
    pub fn complete_read(&mut self, outcome: ReadOutcome) -> (state: ReadBufferState)
        requires
            old(self).wf(),
            outcome matches ReadOutcome::Filled(data) ==> data@.len() <= old(self).capacity() - old(self).pending().len(),
        ensures
            final(self).wf(),
            final(self).capacity() == old(self).capacity(),
            final(self).max_buffer_length() == old(self).max_buffer_length(),
            final(self).allocation_increment() == old(self).allocation_increment(),
            match outcome {
                ReadOutcome::Filled(data) => if data@.len() == 0 {
                    state is Disconnected && final(self).pending() == old(self).pending()
                } else {
                    state is MoreToRead && final(self).pending() == old(self).pending() + data@
                },
                ReadOutcome::Failed { error, kind } => final(self).pending() == old(self).pending() && if kind
                    == std::io::ErrorKind::WouldBlock {
                    state is Pending
                } else if kind == std::io::ErrorKind::Interrupted {
                    state is MoreToRead
                } else {
                    state == (ReadBufferState::Error { error, kind })
                },
                ReadOutcome::NotReady => state is Pending && final(self).pending() == old(self).pending(),
            },
    {
        match outcome {
            ReadOutcome::Filled(data) => {
                if data.len() == 0 {
                    ReadBufferState::Disconnected
                } else {
                    self.commit_read(data.as_slice());
                    ReadBufferState::MoreToRead
                }
            },
            ReadOutcome::Failed { error, kind } => {
                if kind_would_block(kind) {
                    ReadBufferState::Pending
                } else if kind_interrupted(kind) {
                    ReadBufferState::MoreToRead
                } else {
                    ReadBufferState::Error { error, kind }
                }
            },
            ReadOutcome::NotReady => ReadBufferState::Pending,
        }
    }

    /// Drop the first `count` unconsumed bytes, moving the rest to the front.
    pub fn consume(&mut self, count: usize)
        requires
            old(self).wf(),
            count <= old(self).pending().len(),
        ensures
            final(self).wf(),
            final(self).pending() == old(self).pending().subrange(count as int, old(self).pending().len() as int),
            final(self).capacity() == old(self).capacity(),
            final(self).max_buffer_length() == old(self).max_buffer_length(),
            final(self).allocation_increment() == old(self).allocation_increment(),
            final(self).last_pass() == old(self).last_pass(),
    {
        if count == self.unread {
            self.unread = 0;
            assert(self.pending() =~= old(self).pending().subrange(count as int, old(self).pending().len() as int));
        } else if count != 0 {
            let ghost before = self.buffer@;
            let total = self.unread;
            let mut i: usize = 0;
            while i < total - count
                invariant
                    count <= total,
                    total == old(self).unread,
                    total <= before.len(),
                    self.buffer@.len() == before.len(),
                    self.unread == total,
                    self.max_buffer_length == old(self).max_buffer_length,
                    self.buffer_allocation_increment == old(self).buffer_allocation_increment,
                    self.last_pass == old(self).last_pass,
                    old(self).wf(),
                    i <= total - count,
                    forall|j: int| 0 <= j < i ==> self.buffer@[j] == before[j + count],
                    forall|j: int| i + count <= j < before.len() ==> self.buffer@[j] == before[j],
                decreases total - count - i,
            {
                let byte = self.buffer[i + count];
                self.buffer.set(i, byte);
                i = i + 1;
            }
            self.unread = total - count;
            assert(self.pending() =~= old(self).pending().subrange(count as int, old(self).pending().len() as int));
        }
    }

    /// The decodes of the most recent receive pass, in order.
    pub closed spec fn last_pass(&self) -> Seq<DecodeRecord> {
        self.last_pass@
    }

    /// Decode messages out of the unconsumed bytes and hand each one to the
    /// reactor, until the decoder needs more bytes or the connection is to
    /// close. Each decode is offered the unconsumed bytes from the cursor to
    /// the end, and its result is handled as [`pass_decision`] says:
    ///
    /// * A decoded message is handed to the reactor and the cursor moves past
    ///   its bytes; if the reactor asks to disconnect, the state is
    ///   `Disconnected`. A decoder that claims more bytes than it was offered
    ///   fails the connection (`Error`) once its message is delivered.
    /// * `Skip` moves the cursor past the skipped bytes.
    /// * `Wait` ends the pass (`Pending`); `Disconnect` is `Disconnected`.
    /// * A message or a skip of no bytes ends the pass with `MoreToRead`, so
    ///   that decoding starts again at the same place after the next read
    ///   while every pass finishes.
    ///
    /// When a pass ends with `Pending` or `MoreToRead`, the bytes before the
    /// cursor are dropped from the front of the buffer; otherwise the buffer
    /// is left as it was, since the connection is closing. The decodes made,
    /// with what the decoder and the reactor answered, are `last_pass()`;
    /// the decoder's own record grows by exactly those decodes (the bytes
    /// from each cursor, and the answer), and the reactor's by exactly the
    /// messages decoded at the records that delivered one, in order.
    pub fn read_inbound_messages_and_react<D: Decoder, R: MessageReactor<Inbound = D::Message>>(
        &mut self,
        decoder: &mut D,
        reactor: &mut R,
    ) -> (state: ReadBufferState)
        requires
            old(self).wf(),
        ensures
            final(self).wf(),
            final(self).capacity() == old(self).capacity(),
            final(self).max_buffer_length() == old(self).max_buffer_length(),
            final(self).allocation_increment() == old(self).allocation_increment(),
            pass_is_ordered(final(self).last_pass(), old(self).pending().len() as int, old(self).max_buffer_length() as int),
            final(self).last_pass().len() == 0 <==> old(self).pending().len() == 0,
            D::obeys_decodes() ==> final(decoder).decodes().len() == old(decoder).decodes().len() + final(self).last_pass().len(),
            D::obeys_decodes() ==> final(decoder).decodes().subrange(0, old(decoder).decodes().len() as int) == old(decoder).decodes(),
            D::obeys_decodes() ==> decoded_as_traced(
                final(decoder).decodes().subrange(old(decoder).decodes().len() as int, final(decoder).decodes().len() as int),
                final(self).last_pass(),
                old(self).pending(),
            ),
            R::obeys_received() ==> final(reactor).received().len() == old(reactor).received().len() + deliveries(
                final(self).last_pass(),
                old(self).pending().len() as int,
                old(self).max_buffer_length() as int,
            ),
            R::obeys_received() ==> final(reactor).received().subrange(0, old(reactor).received().len() as int) == old(reactor).received(),
            D::obeys_decodes() && R::obeys_received() ==> delivered_as_traced(
                final(reactor).received().subrange(old(reactor).received().len() as int, final(reactor).received().len() as int),
                final(decoder).decodes().subrange(old(decoder).decodes().len() as int, final(decoder).decodes().len() as int),
                final(self).last_pass(),
                old(self).pending().len() as int,
                old(self).max_buffer_length() as int,
            ),
            old(self).pending().len() == 0 ==> state is Pending && final(self).pending() == old(self).pending(),
            final(self).last_pass().len() > 0 ==> pass_ends(
                final(self).last_pass().last(),
                old(self).pending(),
                old(self).max_buffer_length() as int,
                final(self).pending(),
                state,
            ),
    {
        let unread = self.unread;
        let max_buffer_length = self.max_buffer_length;
        let ghost pending = self.pending();
        let ghost max = max_buffer_length as int;
        let ghost decodes0 = decoder.decodes().len() as int;
        let ghost received0 = reactor.received().len() as int;
        self.last_pass = Ghost(Seq::empty());
        let mut cursor: usize = 0;
        assert(decoder.decodes().subrange(decodes0, decoder.decodes().len() as int) =~= Seq::empty());
        assert(reactor.received().subrange(received0, reactor.received().len() as int) =~= Seq::empty());
        assert(decoder.decodes().subrange(0, decodes0) =~= old(decoder).decodes());
        assert(reactor.received().subrange(0, received0) =~= old(reactor).received());
        while cursor < unread
            invariant
                self.wf(),
                self.unread == unread,
                self.buffer@ == old(self).buffer@,
                self.max_buffer_length == old(self).max_buffer_length,
                self.buffer_allocation_increment == old(self).buffer_allocation_increment,
                max_buffer_length == self.max_buffer_length,
                max == max_buffer_length as int,
                pending == old(self).pending(),
                pending.len() == unread,
                unread == old(self).unread,
                cursor <= unread,
                pass_is_ordered(self.last_pass@, unread as int, max),
                all_go_on(self.last_pass@, unread as int, max),
                decodes0 == old(decoder).decodes().len(),
                received0 == old(reactor).received().len(),
                D::obeys_decodes() ==> decoder.decodes().len() == decodes0 + self.last_pass@.len(),
                D::obeys_decodes() ==> decoder.decodes().subrange(0, decodes0) == old(decoder).decodes(),
                D::obeys_decodes() ==> decoded_as_traced(
                    decoder.decodes().subrange(decodes0, decoder.decodes().len() as int),
                    self.last_pass@,
                    pending,
                ),
                R::obeys_received() ==> reactor.received().len() == received0 + deliveries(self.last_pass@, unread as int, max),
                R::obeys_received() ==> reactor.received().subrange(0, received0) == old(reactor).received(),
                D::obeys_decodes() && R::obeys_received() ==> delivered_as_traced(
                    reactor.received().subrange(received0, reactor.received().len() as int),
                    decoder.decodes().subrange(decodes0, decoder.decodes().len() as int),
                    self.last_pass@,
                    unread as int,
                    max,
                ),
                self.last_pass@.len() == 0 ==> cursor == 0,
                self.last_pass@.len() > 0 ==> cursor == self.last_pass@.last().cursor + step_advance(
                    record_step(self.last_pass@.last(), unread as int, max),
                ),
            decreases unread - cursor,
        {
            let available = unread - cursor;
            let window = vstd::slice::slice_subrange(self.buffer.as_slice(), cursor, unread);
            assert(window@ =~= pending.subrange(cursor as int, unread as int));
            let ghost log_before = decoder.decodes().subrange(decodes0, decoder.decodes().len() as int);
            let ghost received_before = reactor.received().subrange(received0, reactor.received().len() as int);
            let ghost decodes_before = decoder.decodes();
            let (outcome, message) = match decoder.decode(window) {
                Ok((length, message)) => (Ok(length), Some(message)),
                Err(error) => (Err(error), None),
            };
            assert(outcome is Ok <==> message is Some);
            let ghost entry = decoder.decodes().last();
            proof {
                if D::obeys_decodes() {
                    assert(entry.0 == window@);
                    assert(outcome == outcome_of(entry.1));
                    assert(entry.1 is Ok ==> message == Some(entry.1->Ok_0.1));
                    assert(decoder.decodes().subrange(decodes0, decoder.decodes().len() as int) =~= log_before.push(entry));
                    assert(decoder.decodes().subrange(0, decodes0) =~= decodes_before.subrange(0, decodes0));
                }
            }
            let ghost decoded = outcome;
            let step = pass_step(available, max_buffer_length, outcome);
            let ghost before = self.last_pass@;
            let ghost received_prior = reactor.received();
            let status = match step {
                PassStep::Deliver { .. } => match message {
                    Some(message) => reactor.on_inbound_message(message),
                    None => ReactorStatus::Continue,
                },
                _ => ReactorStatus::Continue,
            };
            let ghost record = DecodeRecord { cursor, decoded, status };
            self.last_pass = Ghost(before.push(record));
            proof {
                lemma_push_ordered(before, record, unread as int, max);
                lemma_deliveries_push(before, record, unread as int, max);
                if D::obeys_decodes() {
                    lemma_traced_push(log_before, before, pending, entry, record);
                }
                if R::obeys_received() {
                    if step is Deliver {
                        assert(reactor.received().subrange(0, received0) =~= received_prior.subrange(0, received0));
                        assert(reactor.received().subrange(received0, reactor.received().len() as int)
                            =~= received_before.push((message->Some_0, status)));
                    } else {
                        assert(reactor.received().subrange(received0, reactor.received().len() as int) =~= received_before);
                    }
                }
                if D::obeys_decodes() && R::obeys_received() {
                    lemma_delivered_push(
                        received_before,
                        log_before,
                        before,
                        unread as int,
                        max,
                        entry,
                        record,
                        reactor.received().subrange(received0, reactor.received().len() as int),
                    );
                }
            }
            assert(record_step(record, unread as int, max) == step);
            match step {
                PassStep::Deliver { length } => {
                    assert(self.pending() =~= pending);
                    if status == ReactorStatus::Disconnect {
                        assert(pass_ends(record, pending, max, self.pending(), ReadBufferState::Disconnected));
                        return ReadBufferState::Disconnected;
                    }
                    if length > available {
                        return ReadBufferState::Error {
                            error: invalid_data(
                                "buffer cursor is beyond the end of the receive buffer. Deserializer must not consume more than the buffer length",
                            ),
                            kind: std::io::ErrorKind::InvalidData,
                        };
                    }
                    if length == 0 {
                        assert(self.pending() =~= pending);
                        self.consume(cursor);
                        assert(self.pending() =~= pending.subrange(cursor as int, unread as int));
                        return ReadBufferState::MoreToRead;
                    }
                    cursor = cursor + length;
                },
                PassStep::Skip { distance } => {
                    if distance == 0 {
                        assert(self.pending() =~= pending);
                        self.consume(cursor);
                        assert(self.pending() =~= pending.subrange(cursor as int, unread as int));
                        return ReadBufferState::MoreToRead;
                    }
                    cursor = cursor + distance;
                },
                PassStep::Wait => {
                    assert(self.pending() =~= pending);
                    self.consume(cursor);
                    assert(self.pending() =~= pending.subrange(cursor as int, unread as int));
                    return ReadBufferState::Pending;
                },
                PassStep::Disconnect => {
                    return ReadBufferState::Disconnected;
                },
            }
        }
        proof {
            if self.last_pass@.len() > 0 {
                assert(well_placed(self.last_pass@, self.last_pass@.len() - 1, unread as int, max));
                assert(goes_on(self.last_pass@, self.last_pass@.len() - 1, unread as int, max));
            }
        }
        assert(self.pending() =~= pending);
        self.consume(cursor);
        assert(self.pending() =~= pending.subrange(cursor as int, unread as int));
        proof {
            let trace = self.last_pass@;
            if trace.len() > 0 {
                let last = trace.last();
                assert(goes_on(trace, trace.len() - 1, unread as int, max));
                assert(record_continues(last, unread as int, max));
                assert(cursor == unread);
                assert(self.pending() =~= Seq::<u8>::empty());
                assert(pass_ends(last, pending, max, self.pending(), ReadBufferState::Pending));
            }
        }
        ReadBufferState::Pending
    }
}

} // verus!

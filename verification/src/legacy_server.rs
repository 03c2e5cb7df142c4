//! The buffer and pacing logic of the readiness-driven connection server:
//! each connection reads into a growable buffer and decodes requests from it,
//! writes encoded responses from a queue of byte vectors that are recycled
//! once sent, and the server adapts how long it waits for readiness.

use vstd::prelude::*;

use std::collections::VecDeque;

verus! {

/// Errors a request deserializer reports.
#[derive(Debug, PartialEq, Eq, Structural)]
pub enum DeserializeError {
    /// The buffer is retained and decoding resumes when more bytes arrive.
    IncompleteBuffer {
        /// How long the next message is, when known.
        next_message_size: usize,
    },
    /// The message is bad; the bytes read so far are discarded.
    InvalidMessage,
}

/// Decodes requests from inbound bytes.
pub trait Deserializer {
    /// The request type produced.
    type Request;

    /// Whether this deserializer keeps `decodes()` as `decode` says. A
    /// deserializer that keeps no such record says nothing (the default), and
    /// nothing is then claimed of its decodes.
    open spec fn obeys_decodes() -> bool {
        false
    }

    /// Every decode this deserializer has made, when it keeps the record:
    /// the bytes it was offered and what it answered, in order.
    open spec fn decodes(&self) -> Seq<(Seq<u8>, Result<(usize, Self::Request), DeserializeError>)> {
        Seq::empty()
    }

    /// Decode a request from the front of `buffer`, returning how many bytes
    /// it took. The decode is added to `decodes()`.
    fn decode(&mut self, buffer: &[u8]) -> (decoded: Result<(usize, Self::Request), DeserializeError>)
        ensures
            Self::obeys_decodes() ==> final(self).decodes() == old(self).decodes().push((buffer@, decoded)),
    ;
}

/// Encodes responses into outbound bytes.
pub trait Serializer {
    /// The response type consumed.
    type Response;

    /// Whether this serializer keeps `encoded()` as `encode` says. A
    /// serializer that keeps no such record says nothing (the default), and
    /// nothing is then claimed of what it encoded.
    open spec fn obeys_encoded() -> bool {
        false
    }

    /// Every response this serializer has encoded, when it keeps the record,
    /// with the buffer's bytes before and after, in order.
    open spec fn encoded(&self) -> Seq<(Self::Response, Seq<u8>, Seq<u8>)> {
        Seq::empty()
    }

    /// Append the encoding of `response` to `buffer`. The response and the
    /// buffer's bytes before and after are added to `encoded()`.
    fn encode(&mut self, response: Self::Response, buffer: &mut Vec<u8>)
        ensures
            Self::obeys_encoded() ==> final(self).encoded() == old(self).encoded().push(
                (response, old(buffer)@, final(buffer)@),
            ),
    ;
}

/// Hand out the next connection token: the count so far, which then goes up
/// by one, so every connection gets its own token.
pub fn next_connection_token(count: &mut usize) -> (token: usize)
    requires
        *old(count) < usize::MAX,
    ensures
        token == *old(count),
        *final(count) == *old(count) + 1,
{
    let token = *count;
    *count = token + 1;
    token
}

/// The receive buffer grows in steps of this many bytes.
pub const BUFFER_INCREMENT: usize = 32768;
/// The receive buffer grows to at most this many bytes.
pub const MAX_RECEIVE_BUFFER: usize = 2097152;
/// Each connection starts with this many recycled response buffers.
pub const SERIALIZER_BUFFERS: usize = 16;

/// The size the receive buffer is resized to when it has less than one
/// increment of free space: a quarter of its size, at least one increment,
/// at most `MAX_RECEIVE_BUFFER`, and never less than what it holds.
pub open spec fn grown_size(capacity: nat, length: nat) -> nat {
    let target = vstd::math::min(
        MAX_RECEIVE_BUFFER as int,
        vstd::math::max(BUFFER_INCREMENT as int, (capacity / 4) as int),
    ) as nat;
    if target < length { length } else { target }
}

/// What decoding does with one deserializer result.
#[derive(Debug, PartialEq, Eq, Structural)]
pub enum RequestStep {
    /// Keep the request and move past its `length` bytes.
    Take { length: usize },
    /// Keep the request and end the pass, having consumed `consumed` of the
    /// bytes offered.
    TakeAndStop { consumed: usize },
    /// End the pass; the bytes stay for the next read.
    Stop,
    /// Discard every byte read so far.
    DiscardAll,
}

/// Decide what decoding does with a deserializer result (the request's
/// length, or the error) when `available` bytes were offered.
///
/// A request that takes no bytes ends the pass after it is kept, and one that
/// claims more bytes than were offered ends it with all of them consumed, so
/// that a pass always finishes.
pub fn request_step(available: usize, decoded: Result<usize, DeserializeError>) -> (step: RequestStep)
    ensures
        step == request_decision(available as int, decoded),
        step == match decoded {
            Ok(length) => if length == 0 {
                RequestStep::TakeAndStop { consumed: 0 }
            } else if length > available {
                RequestStep::TakeAndStop { consumed: available }
            } else {
                RequestStep::Take { length }
            },
            Err(DeserializeError::IncompleteBuffer { .. }) => RequestStep::Stop,
            Err(DeserializeError::InvalidMessage) => RequestStep::DiscardAll,
        },
{
    match decoded {
        Ok(length) => {
            if length == 0 {
                RequestStep::TakeAndStop { consumed: 0 }
            } else if length > available {
                RequestStep::TakeAndStop { consumed: available }
            } else {
                RequestStep::Take { length }
            }
        },
        Err(DeserializeError::IncompleteBuffer { .. }) => RequestStep::Stop,
        Err(DeserializeError::InvalidMessage) => RequestStep::DiscardAll,
    }
}

/// What [`request_step`] decides for a result when `available` bytes were
/// offered.
pub open spec fn request_decision(available: int, decoded: Result<usize, DeserializeError>) -> RequestStep {
    match decoded {
        Ok(length) => if length == 0 {
            RequestStep::TakeAndStop { consumed: 0 }
        } else if length > available {
            RequestStep::TakeAndStop { consumed: available as usize }
        } else {
            RequestStep::Take { length }
        },
        Err(DeserializeError::IncompleteBuffer { .. }) => RequestStep::Stop,
        Err(DeserializeError::InvalidMessage) => RequestStep::DiscardAll,
    }
}

/// One decode of a decoding pass: where in the undecoded bytes the window
/// handed to the deserializer began (it ran to their end), and what the
/// deserializer answered.
pub struct RequestRecord {
    pub cursor: usize,
    pub decoded: Result<usize, DeserializeError>,
}

/// The decision a pass over `unread` bytes made at a record.
pub open spec fn record_decision(record: RequestRecord, unread: int) -> RequestStep {
    request_decision(unread - record.cursor, record.decoded)
}

/// The record at `i` starts inside the undecoded bytes.
pub open spec fn request_placed(trace: Seq<RequestRecord>, i: int, unread: int) -> bool {
    0 <= trace[i].cursor < unread
}

/// The decode at `i` kept a request and went on to decode again right after
/// its bytes.
pub open spec fn request_moves_on(trace: Seq<RequestRecord>, i: int, unread: int) -> bool {
    &&& record_decision(trace[i], unread) is Take
    &&& trace[i + 1].cursor == trace[i].cursor + record_decision(trace[i], unread)->Take_length
}

/// A decoding pass over `unread` bytes decodes first at the start, each
/// window is not empty, and each decode but the last kept a request and the
/// next began right after it.
pub open spec fn requests_in_order(trace: Seq<RequestRecord>, unread: int) -> bool {
    &&& forall|i: int| 0 <= i < trace.len() ==> #[trigger] request_placed(trace, i, unread)
    &&& trace.len() > 0 ==> trace[0].cursor == 0
    &&& forall|i: int| 0 <= i < trace.len() - 1 ==> #[trigger] request_moves_on(trace, i, unread)
}

/// What is left of `pending` after a decoding pass whose last decode was
/// `last`: nothing after a request that reached the end or an invalid
/// message; the bytes from the cursor after an incomplete message; the bytes
/// after a request that ended the pass.
pub open spec fn requests_end(last: RequestRecord, pending: Seq<u8>, left: Seq<u8>) -> bool {
    let unread = pending.len() as int;
    match record_decision(last, unread) {
        RequestStep::Take { length } => last.cursor + length == unread && left == Seq::<u8>::empty(),
        RequestStep::TakeAndStop { consumed } => left == pending.subrange(last.cursor + consumed, unread),
        RequestStep::Stop => left == pending.subrange(last.cursor as int, unread),
        RequestStep::DiscardAll => left == Seq::<u8>::empty(),
    }
}

/// The length, or the error, of a deserializer's answer.
pub open spec fn request_outcome<R>(decoded: Result<(usize, R), DeserializeError>) -> Result<usize, DeserializeError> {
    match decoded {
        Ok((length, _)) => Ok(length),
        Err(error) => Err(error),
    }
}

/// A decode the deserializer recorded is the one a record of a pass over
/// `pending` describes: the bytes from the record's cursor to the end, and
/// the answer's length or error.
pub open spec fn request_as_traced<R>(
    entry: (Seq<u8>, Result<(usize, R), DeserializeError>),
    record: RequestRecord,
    pending: Seq<u8>,
) -> bool {
    &&& entry.0 == pending.subrange(record.cursor as int, pending.len() as int)
    &&& request_outcome(entry.1) == record.decoded
}

/// The decodes a deserializer recorded are, one for one and in order, those
/// the records of a pass over `pending` describe.
pub open spec fn requests_as_traced<R>(
    log: Seq<(Seq<u8>, Result<(usize, R), DeserializeError>)>,
    trace: Seq<RequestRecord>,
    pending: Seq<u8>,
) -> bool {
    &&& log.len() == trace.len()
    &&& forall|i: int| 0 <= i < trace.len() ==> #[trigger] request_as_traced(log[i], trace[i], pending)
}

proof fn lemma_push_request(trace: Seq<RequestRecord>, record: RequestRecord, unread: int)
    requires
        requests_in_order(trace, unread),
        forall|i: int| 0 <= i < trace.len() ==> record_decision(#[trigger] trace[i], unread) is Take,
        trace.len() == 0 ==> record.cursor == 0,
        trace.len() > 0 ==> record.cursor == trace.last().cursor + record_decision(trace.last(), unread)->Take_length,
        0 <= record.cursor < unread,
    ensures
        requests_in_order(trace.push(record), unread),
        trace.push(record).last() == record,
{
    let t = trace.push(record);
    assert forall|i: int| 0 <= i < t.len() implies #[trigger] request_placed(t, i, unread) by {
        if i < trace.len() {
            assert(request_placed(trace, i, unread));
            assert(t[i] == trace[i]);
        }
    }
    assert forall|i: int| 0 <= i < t.len() - 1 implies #[trigger] request_moves_on(t, i, unread) by {
        assert(t[i] == trace[i]);
        assert(record_decision(trace[i], unread) is Take);
        if i < trace.len() - 1 {
            assert(request_moves_on(trace, i, unread));
            assert(t[i + 1] == trace[i + 1]);
        } else {
            assert(t[i + 1] == record);
        }
    }
}

/// Bytes read from a connection and not yet decoded.
pub struct ReceiveState {
    buffer: Vec<u8>,
    length: usize,
    last_decode: Ghost<Seq<RequestRecord>>,
}

impl ReceiveState {
    /// The internal invariant.
    pub closed spec fn wf(&self) -> bool {
        self.length <= self.buffer@.len()
    }

    /// The bytes read and not yet decoded.
    pub closed spec fn pending(&self) -> Seq<u8> {
        self.buffer@.subrange(0, self.length as int)
    }

    /// How many bytes the buffer holds, decoded or not.
    pub closed spec fn capacity(&self) -> nat {
        self.buffer@.len()
    }

    /// An empty receive buffer.
    pub fn new() -> (state: Self)
        ensures
            state.wf(),
            state.pending() == Seq::<u8>::empty(),
            state.capacity() == 0,
    {
        let state = ReceiveState { buffer: Vec::new(), length: 0, last_decode: Ghost(Seq::empty()) };
        assert(state.pending() =~= Seq::<u8>::empty());
        state
    }

    /// Make room for a read: when less than one increment of the buffer is
    /// free, resize it to [`grown_size`]. Returns how many bytes the next read
    /// may fill.
    pub fn prepare_read(&mut self) -> (space: usize)
        requires
            old(self).wf(),
        ensures
            final(self).wf(),
            final(self).pending() == old(self).pending(),
            final(self).capacity() == if old(self).capacity() - old(self).pending().len() < BUFFER_INCREMENT {
                grown_size(old(self).capacity(), old(self).pending().len())
            } else {
                old(self).capacity()
            },
            space == final(self).capacity() - final(self).pending().len(),
    {
        let capacity = self.buffer.len();
        if capacity - self.length < BUFFER_INCREMENT {
            let quarter = capacity / 4;
            let at_least = if BUFFER_INCREMENT < quarter { quarter } else { BUFFER_INCREMENT };
            let target = if at_least < MAX_RECEIVE_BUFFER { at_least } else { MAX_RECEIVE_BUFFER };
            let size = if target < self.length { self.length } else { target };
            self.buffer.resize(size, 0u8);
        }
        assert(self.pending() =~= old(self).pending());
        self.buffer.len() - self.length
    }

    /// Append freshly read bytes after the undecoded ones.
    pub fn commit_read(&mut self, data: &[u8])
        requires
            old(self).wf(),
            data@.len() <= old(self).capacity() - old(self).pending().len(),
        ensures
            final(self).wf(),
            final(self).pending() == old(self).pending() + data@,
            final(self).capacity() == old(self).capacity(),
    {
        let ghost start = self.pending();
        let capacity = self.buffer.len();
        let mut i: usize = 0;
        while i < data.len()
            invariant
                self.wf(),
                capacity == self.buffer@.len(),
                i <= data@.len(),
                self.length + data@.len() - i <= self.buffer@.len(),
                self.buffer@.len() == old(self).buffer@.len(),
                self.pending() == start + data@.subrange(0, i as int),
            decreases data@.len() - i,
        {
            let index = self.length;
            let ghost prior = self.buffer@;
            assert(self.pending() == prior.subrange(0, index as int));
            self.buffer.set(index, data[i]);
            self.length = self.length + 1;
            assert(self.pending() =~= prior.subrange(0, index as int).push(data@[i as int]));
            i = i + 1;
            assert(self.pending() =~= start + data@.subrange(0, i as int));
        }
        assert(data@.subrange(0, data@.len() as int) =~= data@);
    }

    /// The decodes of the most recent decoding pass, in order.
    pub closed spec fn last_decode(&self) -> Seq<RequestRecord> {
        self.last_decode@
    }

    /// Decode every whole request in the buffer, in order, handling each
    /// deserializer result as [`request_step`] says. Each decode is offered
    /// the undecoded bytes from the cursor to the end. Decoding stops at an
    /// incomplete message, whose bytes stay for the next read; an invalid
    /// message discards everything read so far. Decoded bytes are removed
    /// from the front of the buffer. The requests returned are the ones the
    /// deserializer produced, in order: one for every decode that succeeded.
    /// The decodes made are `last_decode()`.
    pub fn decode_requests<D: Deserializer>(&mut self, deserializer: &mut D) -> (requests: Vec<D::Request>)
        requires
            old(self).wf(),
        ensures
            final(self).wf(),
            final(self).capacity() == old(self).capacity(),
            requests_in_order(final(self).last_decode(), old(self).pending().len() as int),
            final(self).last_decode().len() == 0 <==> old(self).pending().len() == 0,
            old(self).pending().len() == 0 ==> requests@.len() == 0 && final(self).pending() == old(self).pending(),
            final(self).last_decode().len() > 0 ==> {
                &&& requests_end(final(self).last_decode().last(), old(self).pending(), final(self).pending())
                &&& requests@.len() == final(self).last_decode().len() - 1
                    + if final(self).last_decode().last().decoded is Ok { 1int } else { 0int }
            },
            D::obeys_decodes() ==> final(deserializer).decodes().len() == old(deserializer).decodes().len() + final(self).last_decode().len(),
            D::obeys_decodes() ==> final(deserializer).decodes().subrange(0, old(deserializer).decodes().len() as int) == old(deserializer).decodes(),
            D::obeys_decodes() ==> requests_as_traced(
                final(deserializer).decodes().subrange(
                    old(deserializer).decodes().len() as int,
                    final(deserializer).decodes().len() as int,
                ),
                final(self).last_decode(),
                old(self).pending(),
            ),
            D::obeys_decodes() ==> forall|i: int|
                0 <= i < requests@.len() ==> #[trigger] requests@[i] == final(deserializer).decodes()[old(deserializer).decodes().len() + i].1->Ok_0.1,
    {
        let mut requests: Vec<D::Request> = Vec::new();
        let mut consumed: usize = 0;
        let length = self.length;
        let ghost pending = self.pending();
        let ghost decodes0 = deserializer.decodes().len() as int;
        self.last_decode = Ghost(Seq::empty());
        assert(deserializer.decodes().subrange(decodes0, deserializer.decodes().len() as int) =~= Seq::empty());
        assert(deserializer.decodes().subrange(0, decodes0) =~= old(deserializer).decodes());
        loop
            invariant_except_break
                requests@.len() == self.last_decode@.len(),
                forall|i: int| 0 <= i < self.last_decode@.len() ==> record_decision(#[trigger] self.last_decode@[i], length as int) is Take,
                self.last_decode@.len() == 0 ==> consumed == 0,
                self.last_decode@.len() > 0 ==> consumed == self.last_decode@.last().cursor + record_decision(
                    self.last_decode@.last(),
                    length as int,
                )->Take_length,
            invariant
                self.wf(),
                self.length == length,
                length == old(self).length,
                self.buffer@ == old(self).buffer@,
                pending == old(self).pending(),
                pending.len() == length,
                consumed <= length,
                requests_in_order(self.last_decode@, length as int),
                decodes0 == old(deserializer).decodes().len(),
                D::obeys_decodes() ==> deserializer.decodes().len() == decodes0 + self.last_decode@.len(),
                D::obeys_decodes() ==> deserializer.decodes().subrange(0, decodes0) == old(deserializer).decodes(),
                D::obeys_decodes() ==> requests_as_traced(
                    deserializer.decodes().subrange(decodes0, deserializer.decodes().len() as int),
                    self.last_decode@,
                    pending,
                ),
                requests@.len() <= self.last_decode@.len(),
                D::obeys_decodes() ==> forall|i: int|
                    0 <= i < requests@.len() ==> #[trigger] requests@[i] == deserializer.decodes()[decodes0 + i].1->Ok_0.1,
            ensures
                self.last_decode@.len() == 0 ==> consumed == 0 && requests@.len() == 0 && length == 0,
                self.last_decode@.len() > 0 ==> {
                    &&& requests_end(self.last_decode@.last(), pending, pending.subrange(consumed as int, length as int))
                    &&& requests@.len() == self.last_decode@.len() - 1
                        + if self.last_decode@.last().decoded is Ok { 1int } else { 0int }
                },
            decreases length - consumed,
        {
            if consumed == length {
                proof {
                    let t = self.last_decode@;
                    if t.len() > 0 {
                        assert(record_decision(t[t.len() - 1], length as int) is Take);
                        assert(pending.subrange(consumed as int, length as int) =~= Seq::<u8>::empty());
                    }
                }
                break;
            }
            let available = length - consumed;
            let window = vstd::slice::slice_subrange(self.buffer.as_slice(), consumed, length);
            assert(window@ =~= pending.subrange(consumed as int, length as int));
            let ghost log_before = deserializer.decodes().subrange(decodes0, deserializer.decodes().len() as int);
            let ghost decodes_before = deserializer.decodes();
            let ghost requests_before = requests@;
            let (outcome, request) = match deserializer.decode(window) {
                Ok((taken, request)) => (Ok(taken), Some(request)),
                Err(error) => (Err(error), None),
            };
            assert(outcome is Ok <==> request is Some);
            let ghost entry = deserializer.decodes().last();
            proof {
                if D::obeys_decodes() {
                    assert(outcome == request_outcome(entry.1));
                    assert(entry.1 is Ok ==> request == Some(entry.1->Ok_0.1));
                    assert(deserializer.decodes().subrange(decodes0, deserializer.decodes().len() as int) =~= log_before.push(entry));
                    assert(deserializer.decodes().subrange(0, decodes0) =~= decodes_before.subrange(0, decodes0));
                }
            }
            let ghost decoded = outcome;
            let step = request_step(available, outcome);
            if let Some(request) = request {
                requests.push(request);
            }
            let ghost record = RequestRecord { cursor: consumed, decoded };
            let ghost before = self.last_decode@;
            self.last_decode = Ghost(before.push(record));
            proof {
                lemma_push_request(before, record, length as int);
                assert(record_decision(record, length as int) == step);
                if D::obeys_decodes() {
                    let t = before.push(record);
                    let l = log_before.push(entry);
                    assert forall|i: int| 0 <= i < t.len() implies #[trigger] request_as_traced(l[i], t[i], pending) by {
                        if i < before.len() {
                            assert(request_as_traced(log_before[i], before[i], pending));
                        }
                    }
                    assert forall|i: int| 0 <= i < requests@.len() implies #[trigger] requests@[i]
                        == deserializer.decodes()[decodes0 + i].1->Ok_0.1 by {
                        if i < requests_before.len() {
                            assert(requests@[i] == requests_before[i]);
                            assert(deserializer.decodes()[decodes0 + i] == decodes_before[decodes0 + i]);
                        }
                    }
                }
            }
            match step {
                RequestStep::Take { length: taken } => {
                    consumed = consumed + taken;
                    proof {
                        let t = self.last_decode@;
                        assert forall|i: int| 0 <= i < t.len() implies record_decision(#[trigger] t[i], length as int) is Take by {
                            if i < before.len() {
                                assert(t[i] == before[i]);
                            }
                        }
                        if consumed == length {
                            assert(pending.subrange(consumed as int, length as int) =~= Seq::<u8>::empty());
                        }
                    }
                },
                RequestStep::TakeAndStop { consumed: taken } => {
                    consumed = consumed + taken;
                    break;
                },
                RequestStep::Stop => {
                    break;
                },
                RequestStep::DiscardAll => {
                    consumed = length;
                    assert(pending.subrange(consumed as int, length as int) =~= Seq::<u8>::empty());
                    break;
                },
            }
        }
        proof {
            if self.last_decode@.len() > 0 {
                assert(request_placed(self.last_decode@, self.last_decode@.len() - 1, length as int));
            }
        }
        assert(self.pending() =~= pending);
        self.consume(consumed);
        requests
    }

    /// Drop the first `count` undecoded bytes, moving the rest to the front.
    fn consume(&mut self, count: usize)
        requires
            old(self).wf(),
            count <= old(self).pending().len(),
        ensures
            final(self).wf(),
            final(self).pending() == old(self).pending().subrange(count as int, old(self).pending().len() as int),
            final(self).capacity() == old(self).capacity(),
            final(self).last_decode@ == old(self).last_decode@,
    {
        if count != 0 {
            let ghost before = self.buffer@;
            let total = self.length;
            let mut i: usize = 0;
            while i < total - count
                invariant
                    count <= total,
                    total == old(self).length,
                    total <= before.len(),
                    self.length == total,
                    self.buffer@.len() == before.len(),
                    self.last_decode == old(self).last_decode,
                    i <= total - count,
                    forall|j: int| 0 <= j < i ==> self.buffer@[j] == before[j + count],
                    forall|j: int| i + count <= j < before.len() ==> self.buffer@[j] == before[j],
                decreases total - count - i,
            {
                let byte = self.buffer[i + count];
                self.buffer.set(i, byte);
                i = i + 1;
            }
            self.length = total - count;
            assert(self.pending() =~= old(self).pending().subrange(count as int, old(self).pending().len() as int));
        } else {
            assert(self.pending() =~= old(self).pending().subrange(0, old(self).pending().len() as int));
        }
    }
}

/// The bytes of a queue of byte vectors laid end to end.
pub open spec fn queued(buffers: Seq<Vec<u8>>) -> Seq<u8>
    decreases buffers.len(),
{
    if buffers.len() == 0 {
        Seq::empty()
    } else {
        buffers[0]@ + queued(buffers.subrange(1, buffers.len() as int))
    }
}

/// Queuing a vector behind others appends its bytes.
proof fn lemma_queued_push(buffers: Seq<Vec<u8>>, next: Vec<u8>)
    ensures
        queued(buffers.push(next)) == queued(buffers) + next@,
    decreases buffers.len(),
{
    if buffers.len() == 0 {
        let single = buffers.push(next);
        assert(single.subrange(1, 1) =~= Seq::<Vec<u8>>::empty());
        assert(queued(single.subrange(1, 1)) == Seq::<u8>::empty());
        assert(queued(single) == single[0]@ + queued(single.subrange(1, 1)));
        assert(queued(single) =~= next@);
        assert(queued(buffers) == Seq::<u8>::empty());
    } else {
        let tail = buffers.subrange(1, buffers.len() as int);
        lemma_queued_push(tail, next);
        assert(buffers.push(next).subrange(1, buffers.len() + 1 as int) =~= tail.push(next));
        assert(queued(buffers.push(next)) =~= queued(buffers) + next@);
    }
}

/// Encoded responses waiting to be written, and emptied vectors waiting to
/// be reused for the next responses.
pub struct SendState {
    send_buffer: VecDeque<Vec<u8>>,
    serializer_buffers: Vec<Vec<u8>>,
}

impl SendState {
    /// The bytes still to be written, front first.
    pub closed spec fn unsent(&self) -> Seq<u8> {
        queued(self.send_buffer@)
    }

    /// The responses waiting to be written, front first.
    pub closed spec fn queued_buffers(&self) -> Seq<Vec<u8>> {
        self.send_buffer@
    }

    /// How many responses wait to be written.
    pub closed spec fn queued_count(&self) -> nat {
        self.send_buffer@.len()
    }

    /// How many vectors are free for encoding.
    pub closed spec fn free_count(&self) -> nat {
        self.serializer_buffers@.len()
    }

    /// The free vectors, the next to be used last.
    pub closed spec fn free_buffers(&self) -> Seq<Vec<u8>> {
        self.serializer_buffers@
    }

    /// Every free vector is empty.
    pub closed spec fn free_are_empty(&self) -> bool {
        forall|i: int| 0 <= i < self.serializer_buffers@.len() ==> (#[trigger] self.serializer_buffers@[i])@.len() == 0
    }

    /// A connection's send state: nothing queued, `SERIALIZER_BUFFERS` free
    /// empty vectors.
    pub fn new() -> (state: Self)
        ensures
            state.unsent() == Seq::<u8>::empty(),
            state.queued_count() == 0,
            state.free_count() == SERIALIZER_BUFFERS,
            state.free_are_empty(),
    {
        let mut serializer_buffers: Vec<Vec<u8>> = Vec::new();
        let mut i: usize = 0;
        while i < SERIALIZER_BUFFERS
            invariant
                i <= SERIALIZER_BUFFERS,
                serializer_buffers@.len() == i,
                forall|j: int| 0 <= j < i ==> (#[trigger] serializer_buffers@[j])@.len() == 0,
            decreases SERIALIZER_BUFFERS - i,
        {
            serializer_buffers.push(Vec::new());
            i = i + 1;
        }
        SendState { send_buffer: VecDeque::new(), serializer_buffers }
    }

    /// Whether a free vector is available for the next response.
    pub fn has_free_buffer(&self) -> (available: bool)
        ensures
            available == (self.free_count() > 0),
    {
        self.serializer_buffers.len() > 0
    }

    /// How many responses wait to be written.
    pub fn queued_len(&self) -> (count: usize)
        ensures
            count == self.queued_count(),
    {
        self.send_buffer.len()
    }

    /// The queued response at `index`, counting from the front.
    pub fn queued_at(&self, index: usize) -> (bytes: &Vec<u8>)
        requires
            index < self.queued_count(),
        ensures
            *bytes == self.queued_buffers()[index as int],
    {
        &self.send_buffer[index]
    }

    /// Encode `response` into a free vector and queue it behind the others.
    pub fn enqueue_response<S: Serializer>(&mut self, serializer: &mut S, response: S::Response)
        requires
            old(self).free_count() > 0,
        ensures
            final(self).free_count() == old(self).free_count() - 1,
            final(self).queued_count() == old(self).queued_count() + 1,
            final(self).unsent().len() >= old(self).unsent().len(),
            final(self).unsent().subrange(0, old(self).unsent().len() as int) == old(self).unsent(),
            old(self).free_are_empty() ==> final(self).free_are_empty(),
            final(self).queued_buffers().subrange(0, old(self).queued_buffers().len() as int) == old(self).queued_buffers(),
            S::obeys_encoded() ==> final(serializer).encoded() == old(serializer).encoded().push(
                (response, old(self).free_buffers().last()@, final(self).queued_buffers().last()@),
            ),
            old(self).free_are_empty() ==> old(self).free_buffers().last()@ == Seq::<u8>::empty(),
    {
        let ghost handed = self.serializer_buffers@.last();
        let mut buffer = match self.serializer_buffers.pop() {
            Some(buffer) => buffer,
            None => Vec::new(),
        };
        serializer.encode(response, &mut buffer);
        let ghost before = self.send_buffer@;
        self.send_buffer.push_back(buffer);
        assert(self.send_buffer@.subrange(0, before.len() as int) =~= before);
        proof {
            lemma_queued_push(before, buffer);
            assert(self.unsent().subrange(0, old(self).unsent().len() as int) =~= old(self).unsent());
        }
    }

    /// After a write of `written` bytes, drop what was written: vectors
    /// written completely are emptied and become free again, one free vector
    /// for each that leaves the queue; a partially written front vector is
    /// replaced by its unwritten rest.
    pub fn rotate_send_buffers(&mut self, written: usize)
        ensures
            old(self).free_are_empty() ==> final(self).free_are_empty(),
            written <= old(self).unsent().len() ==> final(self).unsent()
                == old(self).unsent().subrange(written as int, old(self).unsent().len() as int),
            written > old(self).unsent().len() ==> final(self).unsent() == Seq::<u8>::empty(),
            final(self).queued_buffers().len() <= old(self).queued_buffers().len(),
            final(self).free_count() == old(self).free_count() + (old(self).queued_buffers().len()
                - final(self).queued_buffers().len()),
    {
        let ghost all = old(self).unsent();
        let mut left = written;
        loop
            invariant_except_break
                left <= written,
                written - left <= all.len(),
                self.unsent() == all.subrange(written - left, all.len() as int),
            invariant
                old(self).free_are_empty() ==> self.free_are_empty(),
                self.serializer_buffers@.len() >= old(self).serializer_buffers@.len(),
                self.serializer_buffers@.len() + self.send_buffer@.len() == old(self).serializer_buffers@.len()
                    + old(self).send_buffer@.len(),
            ensures
                old(self).free_are_empty() ==> self.free_are_empty(),
                self.serializer_buffers@.len() >= old(self).serializer_buffers@.len(),
                self.serializer_buffers@.len() + self.send_buffer@.len() == old(self).serializer_buffers@.len()
                    + old(self).send_buffer@.len(),
                written <= all.len() ==> self.unsent() == all.subrange(written as int, all.len() as int),
                written > all.len() ==> self.unsent() == Seq::<u8>::empty(),
            decreases self.send_buffer@.len(),
        {
            if left == 0 {
                break;
            }
            let ghost before = self.send_buffer@;
            match self.send_buffer.pop_front() {
                Some(mut front) => {
                    assert(before.subrange(1, before.len() as int) == self.send_buffer@);
                    let ghost offset = written - left;
                    let ghost rest = self.unsent();
                    let ghost bytes = front@;
                    assert(all.subrange(offset, all.len() as int) == bytes + rest);
                    if front.len() <= left {
                        left = left - front.len();
                        assert(rest =~= all.subrange(offset + bytes.len(), all.len() as int)) by {
                            assert forall|k: int| 0 <= k < rest.len() implies rest[k] == all[offset + bytes.len() + k] by {
                                assert((bytes + rest)[bytes.len() + k] == rest[k]);
                            }
                        }
                        front.clear();
                        self.serializer_buffers.push(front);
                    } else {
                        let replacement = vstd::slice::slice_to_vec(
                            vstd::slice::slice_subrange(front.as_slice(), left, front.len()),
                        );
                        self.send_buffer.push_front(replacement);
                        assert(self.send_buffer@.subrange(1, self.send_buffer@.len() as int) =~= before.subrange(1, before.len() as int));
                        assert(self.unsent() =~= all.subrange(written as int, all.len() as int)) by {
                            assert(self.unsent() == replacement@ + rest);
                            assert forall|k: int| 0 <= k < self.unsent().len() implies self.unsent()[k] == all[written + k] by {
                                assert((bytes + rest)[left + k] == all[offset + left + k]);
                                if k < bytes.len() - left {
                                    assert(self.unsent()[k] == bytes[left + k]);
                                } else {
                                    assert(self.unsent()[k] == rest[k - (bytes.len() - left)]);
                                }
                            }
                        }
                        break;
                    }
                },
                None => {
                    assert(self.unsent() =~= Seq::<u8>::empty());
                    break;
                },
            }
        }
    }
}

/// The bytes still to be written are the queued responses laid end to end,
/// front first; so writing the responses in index order writes them.
pub proof fn lemma_unsent_is_queued(state: &SendState)
    ensures
        state.unsent() == queued(state.queued_buffers()),
        state.queued_count() == state.queued_buffers().len(),
{
}

/// How long the server waits for readiness events, adapted to traffic:
/// halved (down to 1ms) after a poll that saw events, lengthened by 10ms (up
/// to 1s) after a quiet one.
pub struct PollBackoff {
    nanos: u64,
}

/// One millisecond, in nanoseconds.
pub const MILLISECOND: u64 = 1000000;

impl PollBackoff {
    /// The current wait, in nanoseconds.
    pub closed spec fn wait_nanos(&self) -> nat {
        self.nanos as nat
    }

    /// The initial wait: 200ms.
    pub fn new() -> (backoff: Self)
        ensures
            backoff.wait_nanos() == 200 * MILLISECOND,
    {
        PollBackoff { nanos: 200 * MILLISECOND }
    }

    /// The current wait, in nanoseconds.
    pub fn nanos(&self) -> (nanos: u64)
        ensures
            nanos == self.wait_nanos(),
    {
        self.nanos
    }

    /// Events arrived: wait half as long, but at least 1ms.
    pub fn increase_poll_rate(&mut self)
        ensures
            final(self).wait_nanos() == vstd::math::max(MILLISECOND as int, (old(self).wait_nanos() / 2) as int),
    {
        let half = self.nanos / 2;
        self.nanos = if half < MILLISECOND { MILLISECOND } else { half };
    }

    /// Whether the wait lies between 1ms and 1s.
    pub open spec fn in_bounds(&self) -> bool {
        MILLISECOND <= self.wait_nanos() <= 1000 * MILLISECOND
    }

    /// No events: wait 10ms longer, but at most 1s.
    pub fn decrease_poll_rate(&mut self)
        ensures
            final(self).wait_nanos() == vstd::math::min(1000 * MILLISECOND as int, old(self).wait_nanos() + 10 * MILLISECOND),
    {
        let limit = 1000 * MILLISECOND;
        if self.nanos >= limit - 10 * MILLISECOND {
            self.nanos = limit;
        } else {
            self.nanos = self.nanos + 10 * MILLISECOND;
        }
    }
}

/// Adapting the wait keeps it between 1ms and 1s: the initial wait is in
/// range, and neither a halving nor a lengthening leaves the range.
pub proof fn lemma_backoff_stays_in_bounds(wait: nat)
    requires
        MILLISECOND <= wait <= 1000 * MILLISECOND,
    ensures
        MILLISECOND <= vstd::math::max(MILLISECOND as int, (wait / 2) as int) <= 1000 * MILLISECOND,
        MILLISECOND <= vstd::math::min(1000 * MILLISECOND as int, wait + 10 * MILLISECOND) <= 1000 * MILLISECOND,
        MILLISECOND <= 200 * MILLISECOND <= 1000 * MILLISECOND,
{
}

} // verus!

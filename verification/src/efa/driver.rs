//! The connection state that the completion driver keeps for each fabric
//! connection, and the decisions it makes: which bytes go into which send
//! buffer, when a connection can retire, and what a received frame carries.
//!
//! Every fabric message begins with a one-byte opcode: `OP_DATA` followed by
//! stream bytes, or a lone `OP_FIN` when the writer shut down. A FIN is one
//! byte rather than zero because some providers fault on zero-length sends.

use vstd::prelude::*;

use super::error::EfaError;

verus! {

/// Size of each registered send/recv buffer, and the largest chunk a single
/// write accepts. Larger writes are split across messages.
pub const BUFFER_SIZE: usize = 65536;
/// Number of buffers in each per-connection send pool.
pub const SEND_POOL: usize = 16;
/// Number of buffers in each per-connection receive pool.
pub const RECV_POOL: usize = 16;
/// Outbound channel capacity (chunks): the write-side backpressure bound.
pub const OUTBOUND_CAPACITY: u64 = 64;
/// Completion kind of a send operation.
pub const KIND_SEND: u8 = 0;
/// Completion kind of a receive operation.
pub const KIND_RECV: u8 = 1;
/// Opcode of a message that carries stream bytes.
pub const OP_DATA: u8 = 0;
/// Opcode of the message that ends the stream.
pub const OP_FIN: u8 = 1;
/// Payload bytes carried per message (buffer minus the opcode).
pub const MAX_PAYLOAD: usize = 65535;

/// The fabric message that carries `payload`.
pub open spec fn data_frame(payload: Seq<u8>) -> Seq<u8> {
    seq![OP_DATA] + payload
}

/// The fabric message that ends a stream.
pub open spec fn fin_frame() -> Seq<u8> {
    seq![OP_FIN]
}

/// A unit of outbound work from a stream to the driver.
pub enum Out {
    /// Stream bytes to send.
    Data(Vec<u8>),
    /// The local side finished writing; send a FIN to the peer.
    Fin,
}

/// A created-but-not-yet-active endpoint, plus its raw local fabric address
/// (to send to the peer over the bootstrap channel).
pub struct PendingConn {
    /// The driver-assigned connection id.
    pub conn_id: u64,
    /// This endpoint's raw local fabric address.
    pub local_address: Vec<u8>,
}

/// The result of polling a channel without blocking.
pub enum Polled<T> {
    /// An item, or `None` when the channel is closed.
    Ready(Option<T>),
    /// Nothing available right now.
    Pending,
}

/// Why posting a send did not happen.
pub enum PostError {
    /// The fabric is momentarily full or still connecting: retry later.
    Again,
    /// The post failed for good.
    Failed(EfaError),
}

/// Where a connection's outbound work comes from.
pub trait OutboundSource {
    /// Whether this source keeps `polls()` as `poll_outbound` says. A source
    /// that keeps no such record says nothing (the default), and nothing is
    /// then claimed of what it answered.
    open spec fn obeys_polls() -> bool {
        false
    }

    /// Every answer this source has given, when it keeps the record, in
    /// order.
    open spec fn polls(&self) -> Seq<Polled<Out>> {
        Seq::empty()
    }

    /// Take the next outbound item without blocking. The answer is added to
    /// `polls()`.
    fn poll_outbound(&mut self) -> (polled: Polled<Out>)
        ensures
            Self::obeys_polls() ==> final(self).polls() == old(self).polls().push(polled),
    ;

    /// Tell the writer that an outbound slot was freed.
    fn slot_freed(&mut self)
        ensures
            Self::obeys_polls() ==> final(self).polls() == old(self).polls(),
    ;
}

/// Hands framed messages to the fabric.
pub trait SendPoster {
    /// Post the first `len` bytes of send buffer `index`, whose registered
    /// memory is `memory`. Those bytes are always one framed message: a data
    /// opcode and payload, or a lone FIN.
    /// Whether this poster keeps `posts()` as `post_send` says. A poster
    /// that keeps no such record says nothing (the default), and nothing is
    /// then claimed of what it posted.
    open spec fn obeys_posts() -> bool {
        false
    }

    /// Every post this poster was asked for, when it keeps the record: the
    /// buffer's index, the bytes posted, and the fabric's answer, in order.
    open spec fn posts(&self) -> Seq<(usize, Seq<u8>, Result<(), PostError>)> {
        Seq::empty()
    }

    /// The post and its answer are added to `posts()`.
    fn post_send(&mut self, index: usize, memory: &[u8], len: usize) -> (posted: Result<(), PostError>)
        requires
            1 <= len <= memory@.len(),
            memory@[0] == OP_DATA || (memory@[0] == OP_FIN && len == 1),
        ensures
            Self::obeys_posts() ==> final(self).posts() == old(self).posts().push(
                (index, memory@.subrange(0, len as int), posted),
            ),
    ;
}

/// A source's answer that gave nothing to send: nothing ready, the channel
/// closed, or an empty chunk.
pub open spec fn gave_nothing(answer: Polled<Out>) -> bool {
    match answer {
        Polled::Pending => true,
        Polled::Ready(None) => true,
        Polled::Ready(Some(Out::Data(bytes))) => bytes@.len() == 0,
        Polled::Ready(Some(Out::Fin)) => false,
    }
}

/// The entries a record gained, from `before` to `after`.
pub open spec fn gained<T>(before: Seq<T>, after: Seq<T>) -> Seq<T> {
    after.subrange(before.len() as int, after.len() as int)
}

/// A planned send: `wire_len` bytes go on the fabric (opcode and payload);
/// `payload_len` is how far the outbound stream advances when it is posted.
#[derive(Debug, PartialEq, Eq, Structural)]
pub struct SendPlan {
    /// The send buffer holding the framed message.
    pub index: usize,
    /// Bytes on the wire.
    pub wire_len: usize,
    /// Stream bytes carried.
    pub payload_len: usize,
    /// Whether this is the FIN.
    pub is_fin: bool,
}

/// What a pass over a connection's outbound work amounted to.
#[derive(Debug, PartialEq, Eq, Structural)]
pub enum ServiceOutcome {
    /// Something was pulled or posted.
    DidWork,
    /// Nothing happened.
    Idle,
    /// The stream is gone and everything queued has been sent: retire.
    Retire,
}

/// What a completed receive carried.
#[derive(Debug)]
pub enum Received {
    /// An empty completion with no opcode.
    Empty,
    /// The peer's FIN.
    Fin,
    /// Stream bytes.
    Data(Vec<u8>),
}

/// A registered I/O buffer and whether a send from it is in flight.
pub struct IoSlot {
    mem: Vec<u8>,
    busy: bool,
}

impl IoSlot {
    /// The buffer's bytes.
    pub closed spec fn bytes(&self) -> Seq<u8> {
        self.mem@
    }

    /// Whether a send from this buffer is in flight.
    pub closed spec fn is_busy(&self) -> bool {
        self.busy
    }

    /// A zeroed buffer of `BUFFER_SIZE` bytes, not busy.
    pub fn new() -> (slot: Self)
        ensures
            slot.bytes() == Seq::new(BUFFER_SIZE as nat, |i: int| 0u8),
            !slot.is_busy(),
    {
        let mem: Vec<u8> = vec![0u8; BUFFER_SIZE];
        assert(mem@ =~= Seq::new(BUFFER_SIZE as nat, |i: int| 0u8));
        IoSlot { mem, busy: false }
    }

    /// The buffer's memory (to register with the fabric).
    pub fn memory(&self) -> (memory: &[u8])
        ensures
            memory@ == self.bytes(),
    {
        self.mem.as_slice()
    }

    /// Whether a send from this buffer is in flight.
    pub fn busy(&self) -> (busy: bool)
        ensures
            busy == self.is_busy(),
    {
        self.busy
    }
}

/// The busy flags of a sequence of buffers.
pub open spec fn busy_flags(slots: Seq<IoSlot>) -> Seq<bool> {
    Seq::new(slots.len(), |i: int| slots[i].is_busy())
}

/// How many flags are set.
pub open spec fn count_busy(flags: Seq<bool>) -> nat
    decreases flags.len(),
{
    if flags.len() == 0 {
        0
    } else {
        count_busy(flags.drop_last()) + if flags.last() { 1nat } else { 0nat }
    }
}

/// `index` is the first buffer that is not busy.
pub open spec fn is_first_free(flags: Seq<bool>, index: int) -> bool {
    &&& 0 <= index < flags.len()
    &&& !flags[index]
    &&& forall|j: int| 0 <= j < index ==> flags[j]
}

/// Every buffer is busy.
pub open spec fn all_busy(flags: Seq<bool>) -> bool {
    forall|j: int| 0 <= j < flags.len() ==> flags[j]
}

/// `after` holds `frame` at its front and `before`'s bytes after it.
pub open spec fn frame_written(before: Seq<u8>, after: Seq<u8>, frame: Seq<u8>) -> bool {
    &&& after.len() == before.len()
    &&& frame.len() <= before.len()
    &&& after.subrange(0, frame.len() as int) == frame
    &&& after.subrange(frame.len() as int, after.len() as int) == before.subrange(frame.len() as int, before.len() as int)
}

/// Setting one flag changes the count by that flag's change.
proof fn lemma_count_busy_update(flags: Seq<bool>, index: int, flag: bool)
    requires
        0 <= index < flags.len(),
    ensures
        count_busy(flags.update(index, flag)) + (if flags[index] { 1int } else { 0int })
            == count_busy(flags) + (if flag { 1int } else { 0int }),
    decreases flags.len(),
{
    let updated = flags.update(index, flag);
    if index == flags.len() - 1 {
        assert(updated.drop_last() =~= flags.drop_last());
    } else {
        assert(updated.drop_last() =~= flags.drop_last().update(index, flag));
        lemma_count_busy_update(flags.drop_last(), index, flag);
    }
}

/// At most every flag is set.
proof fn lemma_count_busy_bound(flags: Seq<bool>)
    ensures
        count_busy(flags) <= flags.len(),
    decreases flags.len(),
{
    if flags.len() > 0 {
        lemma_count_busy_bound(flags.drop_last());
    }
}

/// With a buffer free, fewer than all are busy.
proof fn lemma_count_busy_free(flags: Seq<bool>, index: int)
    requires
        0 <= index < flags.len(),
        !flags[index],
    ensures
        count_busy(flags) < flags.len(),
{
    lemma_count_busy_update(flags, index, true);
    lemma_count_busy_bound(flags.update(index, true));
}

/// The bytes of the chunk being sent (empty when there is none).
pub open spec fn chunk_bytes(leftover: Option<(Vec<u8>, usize)>) -> Seq<u8> {
    match leftover {
        Some((bytes, _)) => bytes@,
        None => Seq::empty(),
    }
}

/// The outbound half of one fabric connection as the driver sees it: the
/// send buffers, the chunk being sent, and how far the stream has got.
pub struct OutboundState {
    send: Vec<IoSlot>,
    leftover: Option<(Vec<u8>, usize)>,
    inflight: usize,
    fin_pending: bool,
    fin_sent: bool,
    closed: bool,
    pulled: Ghost<Seq<u8>>,
    sent: Ghost<Seq<u8>>,
    taken: Ghost<nat>,
    posts: Ghost<nat>,
    failures: Ghost<nat>,
}

/// The frame the next send carries, if there is anything to send: the next
/// slice of the chunk being sent, else the FIN when one is queued and not
/// yet sent.
pub open spec fn next_frame(leftover: Option<(Seq<u8>, nat)>, fin_pending: bool, fin_sent: bool) -> Option<Seq<u8>> {
    match leftover {
        Some((bytes, offset)) => Some(data_frame(bytes.subrange(
            offset as int,
            offset + vstd::math::min(bytes.len() - offset, MAX_PAYLOAD as int),
        ))),
        None => if fin_pending && !fin_sent { Some(fin_frame()) } else { None },
    }
}

impl OutboundState {
    /// The internal invariant.
    pub closed spec fn wf(&self) -> bool {
        &&& forall|i: int| 0 <= i < self.send@.len() ==> (#[trigger] self.send@[i]).mem@.len() == BUFFER_SIZE
        &&& (self.leftover matches Some((bytes, offset)) ==> offset < bytes@.len())
        &&& self.inflight <= count_busy(busy_flags(self.send@))
        &&& self.sent@ + self.rest() == self.pulled@
        &&& (self.fin_sent ==> self.fin_pending)
        &&& (self.fin_sent ==> self.leftover is None)
    }

    /// Every stream byte handed over for sending so far, in order.
    pub closed spec fn pulled(&self) -> Seq<u8> {
        self.pulled@
    }

    /// The payloads of every data frame posted so far, in order.
    pub closed spec fn sent(&self) -> Seq<u8> {
        self.sent@
    }

    /// How many items of outbound work have been taken from the stream.
    pub closed spec fn taken(&self) -> nat {
        self.taken@
    }

    /// How many frames have been posted to the fabric.
    pub closed spec fn posts(&self) -> nat {
        self.posts@
    }

    /// How many posts have failed for good.
    pub closed spec fn failures(&self) -> nat {
        self.failures@
    }

    /// Whether the counts of taken items, posts and failures are the same.
    pub open spec fn same_counts(&self, other: &Self) -> bool {
        &&& self.taken() == other.taken()
        &&& self.posts() == other.posts()
        &&& self.failures() == other.failures()
    }

    /// The bytes of the chunk being sent that have not been posted yet.
    pub open spec fn rest(&self) -> Seq<u8> {
        match self.leftover() {
            Some((bytes, offset)) => bytes.subrange(offset as int, bytes.len() as int),
            None => Seq::empty(),
        }
    }

    /// The send buffers.
    pub closed spec fn slots(&self) -> Seq<IoSlot> {
        self.send@
    }

    /// The chunk being sent and how much of it has been sent.
    pub closed spec fn leftover(&self) -> Option<(Seq<u8>, nat)> {
        match self.leftover {
            Some((bytes, offset)) => Some((bytes@, offset as nat)),
            None => None,
        }
    }

    /// Sends handed to the fabric and not yet completed.
    pub closed spec fn inflight(&self) -> nat {
        self.inflight as nat
    }

    /// A FIN is queued or has been sent.
    pub closed spec fn fin_pending(&self) -> bool {
        self.fin_pending
    }

    /// The FIN has been sent.
    pub closed spec fn fin_sent(&self) -> bool {
        self.fin_sent
    }

    /// The stream dropped its end of the outbound channel.
    pub closed spec fn closed(&self) -> bool {
        self.closed
    }

    /// Whether nothing more can go out now: every buffer is busy, or there is
    /// no frame to send.
    pub open spec fn stalled(&self) -> bool {
        all_busy(busy_flags(self.slots())) || next_frame(self.leftover(), self.fin_pending(), self.fin_sent()) is None
    }

    /// Whether the connection can retire: the stream is gone, nothing is left
    /// to send, nothing is in flight, and a queued FIN went out.
    pub open spec fn retire_ready(&self) -> bool {
        &&& self.closed()
        &&& self.leftover() is None
        &&& self.inflight() == 0
        &&& (!self.fin_pending() || self.fin_sent())
    }

    /// In a well-formed state the offset into the chunk being sent lies inside
    /// it, so a chunk is kept only while some of it is unsent; every slot is
    /// a whole buffer; what was handed over is what was posted and the unsent
    /// rest; and a sent FIN leaves no chunk behind.
    pub proof fn lemma_offset_inside_chunk(state: &Self)
        requires
            state.wf(),
        ensures
            state.leftover() matches Some((bytes, offset)) ==> offset < bytes.len(),
            state.leftover() is None <==> state.rest().len() == 0,
            forall|i: int| 0 <= i < state.slots().len() ==> (#[trigger] state.slots()[i]).bytes().len() == BUFFER_SIZE,
            state.sent() + state.rest() == state.pulled(),
            state.fin_sent() ==> state.fin_pending() && state.leftover() is None,
    {
    }

    /// A fresh connection with `SEND_POOL` zeroed, idle send buffers.
    pub fn new() -> (state: Self)
        ensures
            state.wf(),
            state.slots().len() == SEND_POOL,
            forall|i: int| 0 <= i < SEND_POOL ==> !(#[trigger] state.slots()[i]).is_busy(),
            state.leftover() is None,
            state.inflight() == 0,
            !state.fin_pending(),
            !state.fin_sent(),
            !state.closed(),
            state.pulled() == Seq::<u8>::empty(),
            state.sent() == Seq::<u8>::empty(),
    {
        let mut send: Vec<IoSlot> = Vec::new();
        let mut i: usize = 0;
        while i < SEND_POOL
            invariant
                i <= SEND_POOL,
                send@.len() == i,
                forall|j: int| 0 <= j < i ==> (#[trigger] send@[j]).mem@.len() == BUFFER_SIZE && !send@[j].busy,
            decreases SEND_POOL - i,
        {
            send.push(IoSlot::new());
            i = i + 1;
        }
        let state = OutboundState {
            send,
            leftover: None,
            inflight: 0,
            fin_pending: false,
            fin_sent: false,
            closed: false,
            pulled: Ghost(Seq::empty()),
            sent: Ghost(Seq::empty()),
            taken: Ghost(0),
            posts: Ghost(0),
            failures: Ghost(0),
        };
        assert(state.sent@ + state.rest() =~= state.pulled@);
        state
    }

    /// The send buffer at `index`.
    pub fn slot(&self, index: usize) -> (slot: &IoSlot)
        requires
            index < self.slots().len(),
        ensures
            *slot == self.slots()[index as int],
    {
        &self.send[index]
    }

    /// Whether the stream dropped its end of the outbound channel.
    pub fn is_closed(&self) -> (closed: bool)
        ensures
            closed == self.closed(),
    {
        self.closed
    }

    fn first_free(&self) -> (index: Option<usize>)
        ensures
            match index {
                Some(i) => is_first_free(busy_flags(self.slots()), i as int),
                None => all_busy(busy_flags(self.slots())),
            },
    {
        let mut i: usize = 0;
        while i < self.send.len()
            invariant
                i <= self.send@.len(),
                forall|j: int| 0 <= j < i ==> (#[trigger] self.send@[j]).busy,
            decreases self.send@.len() - i,
        {
            if !self.send[i].busy {
                return Some(i);
            }
            i = i + 1;
        }
        None
    }

    /// Choose the next send and frame it (opcode and payload) into the first
    /// free send buffer, leaving the rest of the state untouched. `None` when
    /// there is nothing to send or no free buffer.
    pub fn plan_send(&mut self) -> (plan: Option<SendPlan>)
        requires
            old(self).wf(),
        ensures
            final(self).wf(),
            final(self).leftover() == old(self).leftover(),
            final(self).inflight() == old(self).inflight(),
            final(self).fin_pending() == old(self).fin_pending(),
            final(self).fin_sent() == old(self).fin_sent(),
            final(self).closed() == old(self).closed(),
            final(self).pulled() == old(self).pulled(),
            final(self).sent() == old(self).sent(),
            final(self).same_counts(old(self)),
            busy_flags(final(self).slots()) == busy_flags(old(self).slots()),
            plan matches Some(p) ==> {
                &&& p.index < final(self).slots().len()
                &&& 1 <= p.wire_len <= BUFFER_SIZE
                &&& p.payload_len + 1 == p.wire_len
                &&& final(self).slots()[p.index as int].bytes().len() == BUFFER_SIZE
                &&& final(self).slots()[p.index as int].bytes()[0] == (if p.is_fin { OP_FIN } else { OP_DATA })
                &&& (p.is_fin ==> p.wire_len == 1)
                &&& (!p.is_fin ==> p.payload_len <= old(self).rest().len())
            },
            match next_frame(old(self).leftover(), old(self).fin_pending(), old(self).fin_sent()) {
                None => plan is None && final(self).slots() == old(self).slots(),
                Some(frame) => if all_busy(busy_flags(old(self).slots())) {
                    plan is None && final(self).slots() == old(self).slots()
                } else {
                    plan matches Some(p) && {
                        &&& is_first_free(busy_flags(old(self).slots()), p.index as int)
                        &&& p.wire_len == frame.len()
                        &&& p.payload_len == frame.len() - 1
                        &&& p.is_fin == (old(self).leftover() is None)
                        &&& final(self).slots().len() == old(self).slots().len()
                        &&& forall|j: int| 0 <= j < old(self).slots().len() && j != p.index
                            ==> #[trigger] final(self).slots()[j] == old(self).slots()[j]
                        &&& frame_written(old(self).slots()[p.index as int].bytes(), final(self).slots()[p.index as int].bytes(), frame)
                    }
                },
            },
    {
        let ghost flags = busy_flags(self.send@);
        if self.leftover.is_some() {
            let index = match self.first_free() {
                Some(i) => i,
                None => return None,
            };
            let ghost before = self.send@[index as int].mem@;
            let (payload_len, start) = match &self.leftover {
                Some((bytes, offset)) => {
                    let left = bytes.len() - *offset;
                    (if left < MAX_PAYLOAD { left } else { MAX_PAYLOAD }, *offset)
                },
                None => (0, 0),
            };
            assert(self.leftover() matches Some((b, o)) && o == start && b == chunk_bytes(self.leftover)
                && payload_len == vstd::math::min(b.len() - o, MAX_PAYLOAD as int));
            let chunk: &Vec<u8> = match &self.leftover {
                Some((bytes, _)) => bytes,
                None => return None,
            };
            let chunk_len = chunk.len();
            self.send[index].mem[0] = OP_DATA;
            let mut k: usize = 0;
            while k < payload_len
                invariant
                    self.leftover == old(self).leftover,
                    self.leftover is Some,
                    start + payload_len <= chunk_bytes(self.leftover).len(),
                    before.len() == BUFFER_SIZE,
                    busy_flags(self.send@) == flags,
                    self.inflight == old(self).inflight,
                    self.fin_pending == old(self).fin_pending,
                    self.fin_sent == old(self).fin_sent,
                    self.closed == old(self).closed,
                    self.pulled == old(self).pulled,
                    self.sent == old(self).sent,
                    self.taken == old(self).taken,
                    self.posts == old(self).posts,
                    self.failures == old(self).failures,
                    chunk@ == chunk_bytes(self.leftover),
                    chunk_len == chunk@.len(),
                    old(self).wf(),
                    payload_len <= MAX_PAYLOAD,
                    index < self.send@.len(),
                    self.send@.len() == old(self).send@.len(),
                    forall|j: int| 0 <= j < self.send@.len() && j != index ==> #[trigger] self.send@[j] == old(self).send@[j],
                    self.send@[index as int].busy == old(self).send@[index as int].busy,
                    self.send@[index as int].mem@.len() == BUFFER_SIZE,
                    k <= payload_len,
                    self.send@[index as int].mem@[0] == OP_DATA,
                    forall|j: int| 0 <= j < k ==> #[trigger] self.send@[index as int].mem@[1 + j] == chunk_bytes(self.leftover)[start + j],
                    forall|j: int| 1 + k <= j < BUFFER_SIZE ==> #[trigger] self.send@[index as int].mem@[j] == before[j],
                decreases payload_len - k,
            {
                let byte = chunk[start + k];
                self.send[index].mem[k + 1] = byte;
                k = k + 1;
                assert(busy_flags(self.send@) =~= flags);
            }
            let ghost bytes = chunk_bytes(self.leftover);
            let ghost frame = data_frame(bytes.subrange(start as int, start + payload_len));
            assert(self.send@[index as int].mem@.subrange(0, frame.len() as int) =~= frame) by {
                assert forall|j: int| 0 <= j < frame.len() implies self.send@[index as int].mem@[j] == frame[j] by {
                    if j > 0 {
                        assert(self.send@[index as int].mem@[1 + (j - 1)] == bytes[start + (j - 1)]);
                    }
                }
            }
            assert(self.send@[index as int].mem@.subrange(frame.len() as int, BUFFER_SIZE as int)
                =~= before.subrange(frame.len() as int, BUFFER_SIZE as int));
            assert(busy_flags(self.send@) =~= flags);
            Some(SendPlan { index, wire_len: payload_len + 1, payload_len, is_fin: false })
        } else if self.fin_pending && !self.fin_sent {
            let index = match self.first_free() {
                Some(i) => i,
                None => return None,
            };
            let ghost before = self.send@[index as int].mem@;
            self.send[index].mem[0] = OP_FIN;
            assert(self.send@[index as int].mem@.subrange(0, 1) =~= fin_frame());
            assert(self.send@[index as int].mem@.subrange(1, BUFFER_SIZE as int) =~= before.subrange(1, BUFFER_SIZE as int));
            assert(busy_flags(self.send@) =~= flags);
            Some(SendPlan { index, wire_len: 1, payload_len: 0, is_fin: true })
        } else {
            None
        }
    }

    /// Advance the chunk being sent by `len` bytes posted, clearing it when
    /// drained; those bytes now count as sent.
    pub fn advance_leftover(&mut self, len: usize)
        requires
            old(self).wf(),
            len <= old(self).rest().len(),
        ensures
            final(self).pulled() == old(self).pulled(),
            final(self).sent() == old(self).sent() + old(self).rest().subrange(0, len as int),
            final(self).same_counts(old(self)),
            final(self).rest() == old(self).rest().subrange(len as int, old(self).rest().len() as int),
            final(self).wf(),
            final(self).slots() == old(self).slots(),
            final(self).inflight() == old(self).inflight(),
            final(self).fin_pending() == old(self).fin_pending(),
            final(self).fin_sent() == old(self).fin_sent(),
            final(self).closed() == old(self).closed(),
            final(self).leftover() == match old(self).leftover() {
                Some((bytes, offset)) => if offset + len >= bytes.len() { None } else { Some((bytes, (offset + len) as nat)) },
                None => None,
            },
    {
        let ghost rest = old(self).rest();
        self.sent = Ghost(self.sent@ + rest.subrange(0, len as int));
        let taken = self.leftover.take();
        assert(taken matches Some((b, o)) ==> o + len <= b@.len());
        match taken {
            Some((bytes, offset)) => {
                let remaining = bytes.len() - offset;
                if len < remaining {
                    self.leftover = Some((bytes, offset + len));
                }
            },
            None => {},
        }
        assert(self.rest() =~= rest.subrange(len as int, rest.len() as int));
        assert(rest.subrange(0, len as int) + rest.subrange(len as int, rest.len() as int) =~= rest);
        assert(self.sent@ + self.rest() =~= old(self).sent@ + rest);
    }

    /// A send finished: free its buffer so it can be reused.
    pub fn complete_send(&mut self, index: usize)
        requires
            old(self).wf(),
            index < old(self).slots().len(),
        ensures
            final(self).wf(),
            final(self).slots().len() == old(self).slots().len(),
            forall|j: int| 0 <= j < old(self).slots().len() && j != index ==> #[trigger] final(self).slots()[j] == old(self).slots()[j],
            final(self).slots()[index as int].bytes() == old(self).slots()[index as int].bytes(),
            !final(self).slots()[index as int].is_busy(),
            final(self).inflight() == if old(self).inflight() == 0 { 0 } else { old(self).inflight() - 1 },
            final(self).leftover() == old(self).leftover(),
            final(self).pulled() == old(self).pulled(),
            final(self).sent() == old(self).sent(),
            final(self).same_counts(old(self)),
            final(self).fin_pending() == old(self).fin_pending(),
            final(self).fin_sent() == old(self).fin_sent(),
            final(self).closed() == old(self).closed(),
    {
        let ghost flags = busy_flags(self.send@);
        let was_busy = self.send[index].busy;
        self.send[index].busy = false;
        proof {
            assert(busy_flags(self.send@) =~= flags.update(index as int, false));
            lemma_count_busy_update(flags, index as int, false);
        }
        self.inflight = if self.inflight == 0 { 0 } else { self.inflight - 1 };
    }

    /// Take one item of outbound work, when there is no chunk being sent and
    /// no FIN queued. Returns whether anything was taken.
    fn take_outbound<C: OutboundSource>(&mut self, source: &mut C) -> (took: bool)
        requires
            old(self).wf(),
        ensures
            final(self).wf(),
            final(self).slots() == old(self).slots(),
            final(self).inflight() == old(self).inflight(),
            final(self).fin_sent() == old(self).fin_sent(),
            final(self).sent() == old(self).sent(),
            final(self).taken() == old(self).taken() + if took { 1nat } else { 0nat },
            final(self).posts() == old(self).posts(),
            final(self).failures() == old(self).failures(),
            final(self).pulled().len() >= old(self).pulled().len(),
            final(self).pulled().subrange(0, old(self).pulled().len() as int) == old(self).pulled(),
            !took ==> final(self).pulled() == old(self).pulled(),
            !took ==> final(self).leftover() == old(self).leftover(),
            old(self).leftover() is Some ==> final(self).leftover() == old(self).leftover(),
            !(old(self).leftover() is None && !old(self).fin_pending()) ==> !took
                && final(self).pulled() == old(self).pulled()
                && final(self).fin_pending() == old(self).fin_pending()
                && final(self).closed() == old(self).closed(),
            took ==> final(self).closed() == old(self).closed() && if final(self).fin_pending()
                != old(self).fin_pending() {
                &&& final(self).fin_pending()
                &&& final(self).pulled() == old(self).pulled()
                &&& final(self).leftover() is None
            } else {
                final(self).pulled() == old(self).pulled() + final(self).rest()
            },
            !took ==> final(self).fin_pending() == old(self).fin_pending() && (old(self).closed()
                ==> final(self).closed()),
            C::obeys_polls() ==> if old(self).leftover() is None && !old(self).fin_pending() {
                &&& final(source).polls().len() == old(source).polls().len() + 1
                &&& final(source).polls().subrange(0, old(source).polls().len() as int) == old(source).polls()
                &&& (gave_nothing(final(source).polls().last()) ==> final(self).leftover() is None && !final(self).fin_pending())
            } else {
                final(source).polls() == old(source).polls()
            },
            final(self).leftover() is None && !final(self).fin_pending() ==> old(self).leftover() is None && !old(self).fin_pending(),
            C::obeys_polls() && final(self).leftover() is None && !final(self).fin_pending() ==> gave_nothing(
                final(source).polls().last(),
            ),
    {
        if self.leftover.is_none() && !self.fin_pending {
            match source.poll_outbound() {
                Polled::Ready(Some(Out::Data(bytes))) => {
                    source.slot_freed();
                    if bytes.len() > 0 {
                        let ghost before = self.pulled@;
                        self.pulled = Ghost(self.pulled@ + bytes@);
                        self.leftover = Some((bytes, 0));
                        assert(self.pulled@.subrange(0, before.len() as int) =~= before);
                        assert(self.rest() =~= bytes@);
                        assert(old(self).rest() =~= Seq::<u8>::empty());
                        assert(old(self).sent@ =~= before);
                    } else {
                        assert(self.rest() =~= Seq::<u8>::empty());
                        assert(self.pulled@ =~= old(self).pulled@ + self.rest());
                    }
                    self.taken = Ghost(self.taken@ + 1);
                    true
                },
                Polled::Ready(Some(Out::Fin)) => {
                    source.slot_freed();
                    self.fin_pending = true;
                    self.taken = Ghost(self.taken@ + 1);
                    true
                },
                Polled::Ready(None) => {
                    self.closed = true;
                    false
                },
                Polled::Pending => false,
            }
        } else {
            false
        }
    }

    /// Handle the fabric's answer to posting `plan`, made from a free buffer:
    ///
    /// * accepted: the buffer is busy, one more send is in flight, and the
    ///   FIN is marked sent or the chunk being sent advances by the payload;
    /// * `Again`: nothing changes; the buffer stays free to post again later;
    /// * failed for good: the buffer is held busy, the failure is counted,
    ///   and its error is returned.
    pub fn finish_post(&mut self, plan: &SendPlan, posted: Result<(), PostError>) -> (failure: Option<EfaError>)
        requires
            old(self).wf(),
            plan.index < old(self).slots().len(),
            !old(self).slots()[plan.index as int].is_busy(),
            plan.is_fin ==> old(self).leftover() is None && old(self).fin_pending() && !old(self).fin_sent(),
            !plan.is_fin ==> plan.payload_len <= old(self).rest().len(),
        ensures
            final(self).wf(),
            final(self).slots().len() == old(self).slots().len(),
            forall|j: int| 0 <= j < old(self).slots().len() && j != plan.index ==> #[trigger] final(self).slots()[j]
                == old(self).slots()[j],
            final(self).slots()[plan.index as int].bytes() == old(self).slots()[plan.index as int].bytes(),
            final(self).pulled() == old(self).pulled(),
            final(self).taken() == old(self).taken(),
            final(self).fin_pending() == old(self).fin_pending(),
            final(self).closed() == old(self).closed(),
            match posted {
                Ok(()) => {
                    &&& failure is None
                    &&& final(self).slots()[plan.index as int].is_busy()
                    &&& count_busy(busy_flags(final(self).slots())) == count_busy(busy_flags(old(self).slots())) + 1
                    &&& final(self).inflight() == old(self).inflight() + 1
                    &&& final(self).posts() == old(self).posts() + 1
                    &&& final(self).failures() == old(self).failures()
                    &&& if plan.is_fin {
                        &&& final(self).fin_sent()
                        &&& final(self).sent() == old(self).sent()
                        &&& final(self).leftover() == old(self).leftover()
                    } else {
                        &&& final(self).fin_sent() == old(self).fin_sent()
                        &&& final(self).sent() == old(self).sent() + old(self).rest().subrange(0, plan.payload_len as int)
                        &&& final(self).rest() == old(self).rest().subrange(plan.payload_len as int, old(self).rest().len() as int)
                    }
                },
                Err(PostError::Again) => {
                    &&& failure is None
                    &&& final(self).slots() == old(self).slots()
                    &&& final(self).inflight() == old(self).inflight()
                    &&& final(self).posts() == old(self).posts()
                    &&& final(self).failures() == old(self).failures()
                    &&& final(self).sent() == old(self).sent()
                    &&& final(self).leftover() == old(self).leftover()
                    &&& final(self).fin_sent() == old(self).fin_sent()
                },
                Err(PostError::Failed(error)) => {
                    &&& failure == Some(error)
                    &&& final(self).slots()[plan.index as int].is_busy()
                    &&& count_busy(busy_flags(final(self).slots())) == count_busy(busy_flags(old(self).slots())) + 1
                    &&& final(self).inflight() == old(self).inflight()
                    &&& final(self).posts() == old(self).posts()
                    &&& final(self).failures() == old(self).failures() + 1
                    &&& final(self).sent() == old(self).sent()
                    &&& final(self).leftover() == old(self).leftover()
                    &&& final(self).fin_sent() == old(self).fin_sent()
                },
            },
    {
        let ghost flags = busy_flags(self.send@);
        proof {
            lemma_count_busy_free(flags, plan.index as int);
            lemma_count_busy_update(flags, plan.index as int, true);
            lemma_count_busy_bound(flags);
        }
        match posted {
            Ok(()) => {
                let slot_count = self.send.len();
                assert(self.inflight < slot_count);
                self.send[plan.index].busy = true;
                assert(busy_flags(self.send@) =~= flags.update(plan.index as int, true));
                self.inflight = self.inflight + 1;
                self.posts = Ghost(self.posts@ + 1);
                if plan.is_fin {
                    self.fin_sent = true;
                } else {
                    self.advance_leftover(plan.payload_len);
                }
                None
            },
            Err(PostError::Again) => None,
            Err(PostError::Failed(error)) => {
                self.send[plan.index].busy = true;
                assert(busy_flags(self.send@) =~= flags.update(plan.index as int, true));
                self.failures = Ghost(self.failures@ + 1);
                Some(error)
            },
        }
    }

    /// Pull outbound work and post sends until nothing is left to send, no
    /// buffer is free, or the fabric pushes back; then report whether the
    /// connection can retire. A failed post is returned with the outcome, for
    /// the caller to fail the connection.
    ///
    /// With a source that keeps its record, the source is asked for work
    /// whenever nothing is being sent and no FIN is queued, and a pass that
    /// ends with nothing to send ends on an answer that gave nothing. With a
    /// poster that keeps its record, every post but the last was accepted,
    /// and a pass that stops with something still to send and a free buffer
    /// stops on a post refused with `Again` (or on the failure it returns).
    pub fn service_outbound<C: OutboundSource, P: SendPoster>(&mut self, source: &mut C, poster: &mut P) -> (result: (ServiceOutcome, Option<EfaError>))
        requires
            old(self).wf(),
        ensures
            final(self).wf(),
            final(self).slots().len() == old(self).slots().len(),
            (result.0 == ServiceOutcome::Retire) == final(self).retire_ready(),
            final(self).pulled().len() >= old(self).pulled().len(),
            final(self).pulled().subrange(0, old(self).pulled().len() as int) == old(self).pulled(),
            final(self).sent().len() >= old(self).sent().len(),
            final(self).sent().subrange(0, old(self).sent().len() as int) == old(self).sent(),
            result.0 == ServiceOutcome::Idle ==> final(self).pulled() == old(self).pulled()
                && final(self).sent() == old(self).sent(),
            final(self).taken() >= old(self).taken(),
            final(self).posts() >= old(self).posts(),
            final(self).inflight() == old(self).inflight() + (final(self).posts() - old(self).posts()),
            count_busy(busy_flags(final(self).slots())) == count_busy(busy_flags(old(self).slots())) + (final(self).posts()
                - old(self).posts()) + (final(self).failures() - old(self).failures()),
            final(self).failures() <= old(self).failures() + 1,
            result.1 is Some <==> final(self).failures() == old(self).failures() + 1,
            result.0 != ServiceOutcome::Retire ==> (result.0 == ServiceOutcome::DidWork <==> (final(self).taken()
                > old(self).taken() || final(self).posts() > old(self).posts())),
            C::obeys_polls() ==> final(source).polls().len() >= old(source).polls().len() && final(source).polls().subrange(
                0,
                old(source).polls().len() as int,
            ) == old(source).polls(),
            C::obeys_polls() && old(self).leftover() is None && !old(self).fin_pending() ==> final(source).polls().len()
                > old(source).polls().len(),
            C::obeys_polls() && result.1 is None && final(self).leftover() is None && !final(self).fin_pending()
                ==> gave_nothing(final(source).polls().last()),
            P::obeys_posts() ==> final(poster).posts().len() >= old(poster).posts().len() && final(poster).posts().subrange(
                0,
                old(poster).posts().len() as int,
            ) == old(poster).posts(),
            P::obeys_posts() ==> forall|i: int|
                0 <= i < gained(old(poster).posts(), final(poster).posts()).len() - 1 ==> (#[trigger] gained(
                    old(poster).posts(),
                    final(poster).posts(),
                )[i]).2 is Ok,
            P::obeys_posts() ==> final(self).posts() - old(self).posts() == gained(old(poster).posts(), final(poster).posts()).len()
                - if result.1 is Some || !final(self).stalled() { 1int } else { 0int },
            P::obeys_posts() ==> (result.1 matches Some(error) ==> final(poster).posts().len() > old(poster).posts().len()
                && final(poster).posts().last().2 == Err::<(), PostError>(PostError::Failed(error))),
            P::obeys_posts() ==> (result.1 is None && !final(self).stalled() ==> final(poster).posts().len() > old(
                poster).posts().len() && final(poster).posts().last().2 == Err::<(), PostError>(PostError::Again)),
            result.1 is None && !final(self).stalled() ==> final(self).leftover() is Some || (final(self).fin_pending()
                && !final(self).fin_sent()),
    {
        let mut did_work = false;
        let mut failure: Option<EfaError> = None;
        let ghost polls0 = source.polls().len() as int;
        let ghost posts0 = poster.posts().len() as int;
        let ghost mut exit_idle = false;
        let ghost mut iterated = false;
        assert(source.polls().subrange(0, polls0) =~= old(source).polls());
        assert(poster.posts().subrange(0, posts0) =~= old(poster).posts());
        loop
            invariant_except_break
                failure is None,
                !exit_idle,
                self.failures@ == old(self).failures@,
                P::obeys_posts() ==> forall|i: int|
                    0 <= i < gained(old(poster).posts(), poster.posts()).len() ==> (#[trigger] gained(
                        old(poster).posts(),
                        poster.posts(),
                    )[i]).2 is Ok,
                P::obeys_posts() ==> self.posts@ - old(self).posts@ == poster.posts().len() - posts0,
            invariant
                polls0 == old(source).polls().len(),
                posts0 == old(poster).posts().len(),
                C::obeys_polls() ==> source.polls().len() >= polls0 && source.polls().subrange(0, polls0) == old(
                    source).polls(),
                C::obeys_polls() && iterated && old(self).leftover() is None && !old(self).fin_pending()
                    ==> source.polls().len() > polls0,
                P::obeys_posts() ==> poster.posts().len() >= posts0 && poster.posts().subrange(0, posts0) == old(
                    poster).posts(),
                self.wf(),
                self.send@.len() == old(self).send@.len(),
                old(self).pulled().len() <= self.pulled().len(),
                self.pulled().subrange(0, old(self).pulled().len() as int) == old(self).pulled(),
                old(self).sent().len() <= self.sent().len(),
                self.sent().subrange(0, old(self).sent().len() as int) == old(self).sent(),
                !did_work ==> self.pulled() == old(self).pulled() && self.sent() == old(self).sent(),
                self.taken@ >= old(self).taken@,
                self.posts@ >= old(self).posts@,
                did_work == (self.taken@ > old(self).taken@ || self.posts@ > old(self).posts@),
                self.inflight == old(self).inflight + (self.posts@ - old(self).posts@),
                count_busy(busy_flags(self.send@)) == count_busy(busy_flags(old(self).send@)) + (self.posts@ - old(
                    self
                ).posts@) + (self.failures@ - old(self).failures@),
                self.failures@ <= old(self).failures@ + 1,
                failure is Some <==> self.failures@ == old(self).failures@ + 1,
                !iterated ==> self.leftover() == old(self).leftover() && self.fin_pending() == old(self).fin_pending(),
            ensures
                iterated,
                exit_idle ==> failure is None && self.stalled(),
                exit_idle && C::obeys_polls() && self.leftover() is None && !self.fin_pending() ==> gave_nothing(
                    source.polls().last(),
                ),
                !exit_idle && failure is None ==> !self.stalled() && (self.leftover() is Some || (self.fin_pending()
                    && !self.fin_sent())),
                P::obeys_posts() ==> forall|i: int|
                    0 <= i < gained(old(poster).posts(), poster.posts()).len() - 1 ==> (#[trigger] gained(
                        old(poster).posts(),
                        poster.posts(),
                    )[i]).2 is Ok,
                P::obeys_posts() ==> self.posts@ - old(self).posts@ == poster.posts().len() - posts0 - if !exit_idle {
                    1int
                } else {
                    0int
                },
                P::obeys_posts() ==> (failure matches Some(error) ==> poster.posts().len() > posts0
                    && poster.posts().last().2 == Err::<(), PostError>(PostError::Failed(error))),
                P::obeys_posts() ==> (!exit_idle && failure is None ==> poster.posts().len() > posts0
                    && poster.posts().last().2 == Err::<(), PostError>(PostError::Again)),
                !exit_idle ==> P::obeys_posts() ==> poster.posts().len() > posts0,
            decreases self.send@.len() - count_busy(busy_flags(self.send@)),
        {
            let ghost pulled_before = self.pulled();
            let ghost sent_before = self.sent();
            let ghost polls_before = source.polls();
            let ghost posts_before = poster.posts();
            if self.take_outbound(source) {
                did_work = true;
            }
            proof {
                iterated = true;
                if C::obeys_polls() {
                    assert(source.polls().subrange(0, polls0) =~= polls_before.subrange(0, polls0));
                }
            }
            assert(self.pulled().subrange(0, old(self).pulled().len() as int) =~= old(self).pulled()) by {
                assert(self.pulled().subrange(0, pulled_before.len() as int) == pulled_before);
                assert forall|k: int| 0 <= k < old(self).pulled().len() implies
                    self.pulled()[k] == old(self).pulled()[k] by {
                    assert(self.pulled().subrange(0, pulled_before.len() as int)[k] == self.pulled()[k]);
                    assert(pulled_before.subrange(0, old(self).pulled().len() as int)[k] == pulled_before[k]);
                }
            }
            let ghost flags_before_plan = busy_flags(self.send@);
            let plan = match self.plan_send() {
                Some(plan) => plan,
                None => {
                    proof {
                        exit_idle = true;
                        if P::obeys_posts() {
                            assert(gained(old(poster).posts(), poster.posts()).len() == poster.posts().len() - posts0);
                        }
                    }
                    break;
                },
            };
            let ghost flags_planned = busy_flags(self.send@);
            let posted = poster.post_send(plan.index, self.send[plan.index].mem.as_slice(), plan.wire_len);
            let ghost answer = posted;
            let refused = match &posted {
                Ok(()) => false,
                Err(_) => true,
            };
            proof {
                if P::obeys_posts() {
                    assert(poster.posts().subrange(0, posts0) =~= posts_before.subrange(0, posts0));
                    assert(gained(old(poster).posts(), poster.posts()) =~= gained(old(poster).posts(), posts_before).push(
                        poster.posts().last(),
                    ));
                }
            }
            let failed = self.finish_post(&plan, posted);
            if let Some(error) = failed {
                failure = Some(error);
                break;
            }
            if refused {
                assert(answer == Err::<(), PostError>(PostError::Again));
                assert(busy_flags(self.send@) == flags_planned);
                break;
            }
            proof {
                lemma_count_busy_bound(busy_flags(self.send@));
            }
            did_work = true;
            assert(self.sent().subrange(0, old(self).sent().len() as int) =~= old(self).sent()) by {
                assert forall|k: int| 0 <= k < old(self).sent().len() implies self.sent()[k] == old(self).sent()[k] by {
                    assert(sent_before.subrange(0, old(self).sent().len() as int)[k] == sent_before[k]);
                    assert(self.sent().subrange(0, sent_before.len() as int)[k] == self.sent()[k]);
                }
            }
        }
        let outcome = if self.closed && self.leftover.is_none() && self.inflight == 0
            && (!self.fin_pending || self.fin_sent)
        {
            ServiceOutcome::Retire
        } else if did_work {
            ServiceOutcome::DidWork
        } else {
            ServiceOutcome::Idle
        };
        (outcome, failure)
    }
}

/// The stream bytes a connection has posted, followed by what it still holds
/// of the chunk being sent, are exactly the bytes its stream handed over, in
/// order. So a connection that is ready to retire has posted every byte, and
/// once its FIN is posted every byte before it has been posted too.
pub proof fn lemma_posted_in_order(state: &OutboundState)
    requires
        state.wf(),
    ensures
        state.sent() + state.rest() == state.pulled(),
        state.retire_ready() ==> state.sent() == state.pulled(),
        state.fin_sent() ==> state.sent() == state.pulled(),
{
    if state.retire_ready() || state.fin_sent() {
        assert(state.sent() + state.rest() =~= state.sent());
    }
}

/// What a received frame of `len` bytes carries.
pub open spec fn received_frame(frame: Seq<u8>) -> Option<Seq<u8>> {
    if frame.len() == 0 || frame[0] == OP_FIN {
        None
    } else {
        Some(frame.subrange(1, frame.len() as int))
    }
}

/// Read what the first `len` bytes of a receive buffer carry: nothing, the
/// peer's FIN, or the stream bytes after the opcode.
pub fn classify_received(memory: &[u8], len: usize) -> (received: Received)
    requires
        len <= memory@.len(),
    ensures
        len == 0 ==> received == Received::Empty,
        len > 0 ==> (received_frame(memory@.subrange(0, len as int)) is None <==> received == Received::Fin),
        len > 0 && memory@[0] == OP_FIN ==> received == Received::Fin,
        len > 0 && memory@[0] != OP_FIN ==> (received matches Received::Data(bytes) && bytes@ == memory@.subrange(1, len as int)),
{
    if len == 0 {
        return Received::Empty;
    }
    if memory[0] == OP_FIN {
        return Received::Fin;
    }
    let bytes = vstd::slice::slice_to_vec(vstd::slice::slice_subrange(memory, 1, len));
    Received::Data(bytes)
}

/// What the driver does with a completed receive.
#[derive(Debug)]
pub enum RecvAction {
    /// Nothing to deliver: post the buffer again.
    Repost,
    /// Hand the bytes to the reader, then post the buffer again.
    Deliver(Vec<u8>),
    /// The peer finished: end the reader's stream; the buffer is not posted
    /// again.
    EndOfStream,
    /// The reader's stream has already ended: drop the bytes; the buffer is
    /// not posted again.
    Discard,
}

/// Decide what to do with what a completed receive carried, given whether
/// the reader's stream is still open. An empty completion (which a
/// well-behaved peer never sends) is reposted; the peer's FIN ends the
/// stream; stream bytes go to an open reader and are dropped otherwise.
pub fn recv_action(received: Received, reader_open: bool) -> (action: RecvAction)
    ensures
        match received {
            Received::Empty => action is Repost,
            Received::Fin => action is EndOfStream,
            Received::Data(bytes) => if reader_open {
                action matches RecvAction::Deliver(delivered) && delivered@ == bytes@
            } else {
                action is Discard
            },
        },
{
    match received {
        Received::Empty => RecvAction::Repost,
        Received::Fin => RecvAction::EndOfStream,
        Received::Data(bytes) => {
            if reader_open {
                RecvAction::Deliver(bytes)
            } else {
                RecvAction::Discard
            }
        },
    }
}

/// A receiver reads back exactly what the sender framed: the payload of a
/// data frame, and the end of the stream from a FIN.
pub proof fn lemma_frame_round_trip(payload: Seq<u8>)
    ensures
        received_frame(data_frame(payload)) == Some(payload),
        received_frame(fin_frame()) is None,
        fin_frame().len() == 1,
{
    assert(data_frame(payload).subrange(1, data_frame(payload).len() as int) =~= payload);
}

/// What a planned send puts in a buffer is read back, from that buffer's
/// first `wire_len` bytes, as the slice of the stream it carries, or as the
/// end of the stream for a FIN.
pub proof fn lemma_planned_send_received(before: Seq<u8>, after: Seq<u8>, payload: Seq<u8>, is_fin: bool)
    requires
        frame_written(before, after, if is_fin { fin_frame() } else { data_frame(payload) }),
    ensures
        is_fin ==> received_frame(after.subrange(0, 1)) is None,
        !is_fin ==> received_frame(after.subrange(0, (payload.len() + 1) as int)) == Some(payload),
{
    lemma_frame_round_trip(payload);
    if !is_fin {
        assert(data_frame(payload).len() == payload.len() + 1);
    }
}

} // verus!

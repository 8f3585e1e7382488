//! In-kernel message passing: bounded, unidirectional channels.
//!
//! A channel is a bounded FIFO of messages plus its wait set: the one
//! receiver blocked for a message and the one sender blocked on a full
//! queue.  The decisions of each operation are made here, one pass under
//! the channel's lock at a time; each pass hands back what the caller then
//! tells the scheduler ([`IpcScheduler`]): whom to wake, whom to boost and
//! to what level, whom to unboost and block.  The caller performs those,
//! and the retries.

use vstd::prelude::*;
use crate::bytes::slice_to_vec;

verus! {

/// The message payload bound.
pub const MSG_MAX: usize = 256;

/// The opcode a bounded receive returns when its deadline beat any message.
/// A protocol must not send a message with this opcode.
pub const RECEIVE_TIMEOUT: u16 = 0xffff;

/// The queue depth of a channel.
pub const QUEUE_CAP: usize = 8;

/// A process id, as far as the scheduler is concerned.
pub type ProcId = usize;

/// A bounded, tagged message: `opcode` dispatches, `tag` correlates a reply
/// to its request, `buf[..len]` is the opaque payload.
#[derive(Debug, PartialEq, Eq)]
pub struct Message {
    pub opcode: u16,
    pub tag: u32,
    pub len: u16,
    pub buf: Vec<u8>,
}

impl Message {
    /// A message with the given opcode and tag and the payload copied from
    /// `data`, cut to `MSG_MAX` bytes.
    pub fn new(opcode: u16, tag: u32, data: &[u8]) -> (r: Message)
        ensures
            r.opcode == opcode,
            r.tag == tag,
            r.len == if data@.len() < MSG_MAX { data@.len() } else { MSG_MAX as nat },
            r.buf@.len() == MSG_MAX,
            r.buf@.subrange(0, r.len as int) == data@.subrange(0, r.len as int),
            forall|i: int| r.len <= i < MSG_MAX ==> r.buf@[i] == 0,
    {
        let n = if data.len() < MSG_MAX {
            data.len()
        } else {
            MSG_MAX
        };
        let mut buf = slice_to_vec(data, 0, n);
        while buf.len() < MSG_MAX
            invariant
                n <= buf@.len() <= MSG_MAX,
                buf@.subrange(0, n as int) == data@.subrange(0, n as int),
                forall|i: int| n <= i < buf@.len() ==> buf@[i] == 0,
            decreases MSG_MAX - buf@.len(),
        {
            let ghost before = buf@;
            buf.push(0);
            assert(buf@.subrange(0, n as int) =~= before.subrange(0, n as int));
        }
        Message { opcode, tag, len: n as u16, buf }
    }

    /// The message a bounded receive returns on a timeout: the reserved
    /// opcode, no tag, no payload.
    pub fn timeout() -> (r: Message)
        ensures
            r.opcode == RECEIVE_TIMEOUT,
            r.tag == 0,
            r.len == 0,
            r.buf@.len() == MSG_MAX,
            forall|i: int| 0 <= i < MSG_MAX ==> r.buf@[i] == 0,
    {
        Message::new(RECEIVE_TIMEOUT, 0, &[])
    }
}

/// The error a channel operation can return.
#[derive(PartialEq, Eq, Structural, Debug, Clone, Copy)]
pub enum IpcErr {
    /// The channel is closed.
    Closed,
    /// The queue is full: a non-blocking send loses its message.
    Full,
    /// A reply whose message does not carry the tag it replies to.
    BadTag,
    /// The queue is empty: a non-blocking receive found no message.
    Empty,
}

/// What channel operations need of the scheduler: who is running, the
/// priorities and priority inheritance, blocking, waking and the clock.
/// The arch implements it; lower priority levels are more urgent.
pub trait IpcScheduler {
    /// The process running this code, if any (`None` in kernel context).
    fn current(&self) -> Option<ProcId>;
    /// The effective priority level of `id`.
    fn priority(&self, id: ProcId) -> u8;
    /// Boost `id` to `to`.
    fn boost(&self, id: ProcId, to: u8);
    /// Restore `id` to its base priority.
    fn unboost(&self, id: ProcId);
    /// Put `id` off the ready set until it is woken.
    fn block(&self, id: ProcId);
    /// Put `id` back on the ready set.
    fn wake(&self, id: ProcId);
    /// The arch's monotonic counter, in ticks.
    fn now(&self) -> u64;
    /// Put `id` off the ready set until woken or until the counter reaches
    /// `deadline`.
    fn block_at(&self, id: ProcId, deadline: u64);
}

/// A bounded FIFO of messages in a fixed ring of slots.
pub struct BoundedQueue {
    slots: Vec<Option<Message>>,
    head: usize,
    len: usize,
}

impl BoundedQueue {
    /// The ring holds exactly the queued messages: the `len` slots from
    /// `head` on, wrapping, are full and the others empty.
    pub closed spec fn wf(&self) -> bool {
        &&& self.slots@.len() == QUEUE_CAP
        &&& self.head < QUEUE_CAP
        &&& self.len <= QUEUE_CAP
        &&& forall|k: int|
            0 <= k < QUEUE_CAP ==> ((#[trigger] self.slots@[k]) is Some <==> Self::occupied(
                self.head as int,
                self.len as int,
                k,
            ))
    }

    /// Slot `k` holds a message: it is one of the `len` slots from `head`.
    pub open spec fn occupied(head: int, len: int, k: int) -> bool {
        if k >= head {
            k - head < len
        } else {
            k + QUEUE_CAP - head < len
        }
    }

    /// The queued messages, oldest first.
    pub closed spec fn view(&self) -> Seq<Message> {
        Seq::new(
            self.len as nat,
            |i: int| self.slots@[(self.head + i) % (QUEUE_CAP as int)]->0,
        )
    }

    pub fn new() -> (r: BoundedQueue)
        ensures
            r.wf(),
            r.view() == Seq::<Message>::empty(),
    {
        let mut slots: Vec<Option<Message>> = Vec::new();
        while slots.len() < QUEUE_CAP
            invariant
                slots@.len() <= QUEUE_CAP,
                forall|k: int| 0 <= k < slots@.len() ==> slots@[k] is None,
            decreases QUEUE_CAP - slots@.len(),
        {
            slots.push(None);
        }
        let r = BoundedQueue { slots, head: 0, len: 0 };
        assert(r.view() =~= Seq::<Message>::empty());
        r
    }

    pub fn is_full(&self) -> (r: bool)
        requires
            self.wf(),
        ensures
            r == (self.view().len() == QUEUE_CAP),
    {
        self.len == QUEUE_CAP
    }

    pub fn is_empty(&self) -> (r: bool)
        requires
            self.wf(),
        ensures
            r == (self.view().len() == 0),
    {
        self.len == 0
    }

    /// Append `msg`; `false`, and the queue unchanged, when it is full.
    pub fn push(&mut self, msg: Message) -> (r: bool)
        requires
            old(self).wf(),
        ensures
            final(self).wf(),
            r == (old(self).view().len() < QUEUE_CAP),
            r ==> final(self).view() == old(self).view().push(msg),
            !r ==> final(self).view() == old(self).view(),
    {
        if self.len == QUEUE_CAP {
            return false;
        }
        let tail = (self.head + self.len) % QUEUE_CAP;
        let ghost old_q = self.view();
        let ghost old_slots = self.slots@;
        assert(!Self::occupied(self.head as int, self.len as int, tail as int));
        self.slots.set(tail, Some(msg));
        self.len = self.len + 1;
        assert forall|k: int| 0 <= k < QUEUE_CAP implies ((#[trigger] self.slots@[k]) is Some
            <==> Self::occupied(self.head as int, self.len as int, k)) by {
            if k != tail {
                assert(old_slots[k] == self.slots@[k]);
            }
        }
        assert(self.view() =~= old_q.push(msg));
        true
    }

    /// Take the oldest message, if any.
    #[verifier::spinoff_prover]
    #[verifier::rlimit(40)]
    pub fn pop(&mut self) -> (r: Option<Message>)
        requires
            old(self).wf(),
        ensures
            final(self).wf(),
            old(self).view().len() == 0 ==> r is None && final(self).view() == old(self).view(),
            old(self).view().len() > 0 ==> r == Some(old(self).view()[0]) && final(self).view()
                == old(self).view().drop_first(),
    {
        let ghost old_q = self.view();
        let ghost old_slots = self.slots@;
        let ghost h = self.head;
        let mut taken: Option<Message> = None;
        self.slots.set_and_swap(self.head, &mut taken);
        match taken {
            None => {
                assert(!Self::occupied(h as int, self.len as int, h as int));
                assert(self.slots@ =~= old_slots);
                None
            },
            Some(m) => {
                assert(Self::occupied(h as int, self.len as int, h as int));
                self.head = (self.head + 1) % QUEUE_CAP;
                self.len = self.len - 1;
                assert forall|k: int| 0 <= k < QUEUE_CAP implies ((#[trigger] self.slots@[k]) is Some
                    <==> Self::occupied(self.head as int, self.len as int, k)) by {
                    if k != h {
                        assert(old_slots[k] == self.slots@[k]);
                    }
                }
                assert(old_q[0] == m);
                assert(self.view() =~= old_q.drop_first());
                Some(m)
            },
        }
    }
}

pub struct ChannelView {
    pub queue: Seq<Message>,
    pub recv_waiter: Option<ProcId>,
    pub send_waiter: Option<ProcId>,
    pub closed: bool,
    /// The sender that was blocked on a full queue when the channel
    /// closed: its retry fails with `Full`.
    pub stranded: Option<ProcId>,
    pub owner: ProcId,
}

/// A channel: a bounded, unidirectional message queue with its wait set,
/// owned by a process.
pub struct Channel {
    queue: BoundedQueue,
    recv_waiter: Option<ProcId>,
    send_waiter: Option<ProcId>,
    closed: bool,
    stranded: Option<ProcId>,
    owner: ProcId,
}

impl View for Channel {
    type V = ChannelView;

    closed spec fn view(&self) -> ChannelView {
        ChannelView {
            queue: self.queue.view(),
            recv_waiter: self.recv_waiter,
            send_waiter: self.send_waiter,
            closed: self.closed,
            stranded: self.stranded,
            owner: self.owner,
        }
    }
}

/// The send that a blocked receiver gets is the one that woke it: a
/// receiver waits only on an empty queue.
pub open spec fn channel_inv(c: ChannelView) -> bool {
    &&& c.queue.len() <= QUEUE_CAP
    &&& c.recv_waiter is Some ==> c.queue.len() == 0
}

/// One pass of a blocking send.
#[derive(Debug)]
pub enum SendStep {
    /// The channel is closed: the send fails.
    Closed,
    /// The sender was blocked on a full queue when the channel closed: the
    /// slot it waited for will never free.
    Full,
    /// A receiver was blocked: the message is queued for it, and the caller
    /// boosts it to the level given, if any, then wakes it.
    Handoff(ProcId, Option<u8>),
    /// No receiver was blocked and the message is queued.
    Queued,
    /// The queue is full: the sender is recorded and must block, then retry
    /// with the message handed back.
    Blocked(ProcId, Message),
}

/// One pass of a blocking receive.
#[derive(Debug)]
pub enum RecvStep {
    /// The channel is closed: the receive fails.
    Closed,
    /// A message, and the sender blocked on a full queue that its slot
    /// frees, which the caller wakes.
    Got(Message, Option<ProcId>),
    /// The queue is empty and the deadline, if any, has passed.
    Timeout,
    /// The queue is empty: the receiver given is recorded; the caller drops
    /// its inherited priority, blocks it, then retries.
    Block(ProcId),
}

/// The level a receiver is boosted to when a sender hands it a message:
/// the sender's, when the sender outranks it (a lower level).
pub open spec fn inherited(sender: Option<u8>, receiver: u8) -> Option<u8> {
    match sender {
        Some(s) => if s < receiver {
            Some(s)
        } else {
            None
        },
        None => None,
    }
}

/// Priority inheritance: the receiver runs at the sender's level when the
/// sender is more urgent.
pub fn inherited_level(sender: Option<u8>, receiver: u8) -> (r: Option<u8>)
    ensures
        r == inherited(sender, receiver),
{
    match sender {
        Some(s) => if s < receiver {
            Some(s)
        } else {
            None
        },
        None => None,
    }
}

impl Channel {
    pub closed spec fn wf(&self) -> bool {
        &&& self.queue.wf()
        &&& channel_inv(self@)
    }

    /// An open channel owned by `owner`: empty, nobody waiting.
    pub fn new(owner: ProcId) -> (r: Channel)
        ensures
            r.wf(),
            r@.queue == Seq::<Message>::empty(),
            r@.recv_waiter is None,
            r@.send_waiter is None,
            !r@.closed,
            r@.stranded is None,
            r@.owner == owner,
    {
        Channel {
            queue: BoundedQueue::new(),
            recv_waiter: None,
            send_waiter: None,
            closed: false,
            stranded: None,
            owner,
        }
    }

    /// The channel's owner.
    pub fn owner(&self) -> (r: ProcId)
        ensures
            r == self@.owner,
    {
        self.owner
    }

    /// The receiver recorded as blocked for a message, if any.
    pub fn recv_waiter(&self) -> (r: Option<ProcId>)
        ensures
            r == self@.recv_waiter,
    {
        self.recv_waiter
    }

    /// Whether a sender is recorded as blocked on a full queue.
    pub fn has_send_waiter(&self) -> (r: bool)
        ensures
            r == (self@.send_waiter is Some),
    {
        self.send_waiter.is_some()
    }

    /// Whether a blocking send now would have to wait for a slot: the
    /// channel is open, no receiver waits, and the queue is full.
    pub fn would_block(&self) -> (r: bool)
        requires
            self.wf(),
        ensures
            r == (!self@.closed && self@.recv_waiter is None && self@.queue.len() == QUEUE_CAP),
    {
        !self.closed && self.recv_waiter.is_none() && self.queue.is_full()
    }

    /// A receiver waits only on an empty queue, so the message that wakes
    /// it is the one it gets: every channel operation keeps this.
    pub proof fn lemma_waiting_receiver_sees_empty_queue(&self)
        requires
            self.wf(),
        ensures
            channel_inv(self@),
    {
    }
}

/// A channel after closing: marked closed, with nobody left waiting on it;
/// a sender that was waiting for a slot is remembered as stranded.  Its
/// queue and owner are as they were.
pub open spec fn after_close(v: ChannelView) -> ChannelView {
    ChannelView {
        closed: true,
        recv_waiter: None,
        send_waiter: None,
        stranded: if v.send_waiter is Some {
            v.send_waiter
        } else {
            v.stranded
        },
        ..v
    }
}

/// Closing is idempotent: closing a closed channel leaves it as it is.
pub proof fn lemma_close_idempotent(v: ChannelView)
    ensures
        after_close(after_close(v)) == after_close(v),
{
}

/// The queue after sends that each queued one of `ms`, in order, as the
/// contracts of `send_step` and `try_send` push them.
pub open spec fn queued_after(q: Seq<Message>, ms: Seq<Message>) -> Seq<Message>
    decreases ms.len(),
{
    if ms.len() == 0 {
        q
    } else {
        queued_after(q, ms.drop_last()).push(ms.last())
    }
}

/// The queue after `n` receives, each taking the oldest message, as the
/// contracts of `receive_step` and `try_receive` pop them.
pub open spec fn received_after(q: Seq<Message>, n: nat) -> Seq<Message>
    decreases n,
{
    if n == 0 {
        q
    } else {
        received_after(q, (n - 1) as nat).drop_first()
    }
}

proof fn lemma_queued_after_empty(ms: Seq<Message>)
    ensures
        queued_after(Seq::empty(), ms) == ms,
    decreases ms.len(),
{
    if ms.len() > 0 {
        lemma_queued_after_empty(ms.drop_last());
        assert(ms.drop_last().push(ms.last()) =~= ms);
    }
}

proof fn lemma_received_after(q: Seq<Message>, n: nat)
    requires
        n <= q.len(),
    ensures
        received_after(q, n) == q.subrange(n as int, q.len() as int),
    decreases n,
{
    if n > 0 {
        lemma_received_after(q, (n - 1) as nat);
        assert(q.subrange(n - 1, q.len() as int).drop_first() =~= q.subrange(n as int, q.len() as int));
    }
}

/// Messages come out in the order they went in: after sends that queued
/// `ms` on an empty queue, the receive after `i` others gets `ms[i]`.
pub proof fn lemma_receives_in_send_order(ms: Seq<Message>)
    ensures
        forall|i: int|
            0 <= i < ms.len() ==> (#[trigger] received_after(queued_after(Seq::empty(), ms), i as nat))[0]
                == ms[i],
{
    lemma_queued_after_empty(ms);
    assert forall|i: int| 0 <= i < ms.len() implies (#[trigger] received_after(
        queued_after(Seq::empty(), ms),
        i as nat,
    ))[0] == ms[i] by {
        lemma_received_after(ms, i as nat);
    }
}

/// Close the channel: it is marked closed, and the blocked receiver and the
/// blocked sender, which the caller wakes, are handed back (the receiver
/// to find it closed, the sender to find its slot will never free).
/// Idempotent.
pub fn close(ch: &mut Channel) -> (r: (Option<ProcId>, Option<ProcId>))
    requires
        old(ch).wf(),
    ensures
        final(ch).wf(),
        final(ch)@ == after_close(old(ch)@),
        r == (old(ch)@.recv_waiter, old(ch)@.send_waiter),
{
    ch.closed = true;
    let recv = ch.recv_waiter.take();
    let sendw = ch.send_waiter.take();
    if sendw.is_some() {
        ch.stranded = sendw;
    }
    (recv, sendw)
}

/// Send without blocking, for the kernel's own use (interrupt context): no
/// priority inheritance, since the caller is not a process.  A blocked
/// receiver is handed the message and given back for the caller to wake;
/// otherwise the message is queued, or lost with `Full` when the queue is
/// full.
pub fn try_send(ch: &mut Channel, msg: Message) -> (r: Result<Option<ProcId>, IpcErr>)
    requires
        old(ch).wf(),
    ensures
        final(ch).wf(),
        old(ch)@.closed ==> r == Err::<Option<ProcId>, IpcErr>(IpcErr::Closed) && final(ch)@ == old(
            ch,
        )@,
        !old(ch)@.closed && old(ch)@.recv_waiter is Some ==> r == Ok::<Option<ProcId>, IpcErr>(
            old(ch)@.recv_waiter,
        ) && final(ch)@ == (ChannelView {
            queue: old(ch)@.queue.push(msg),
            recv_waiter: None,
            ..old(ch)@
        }),
        !old(ch)@.closed && old(ch)@.recv_waiter is None && old(ch)@.queue.len() < QUEUE_CAP ==> r
            == Ok::<Option<ProcId>, IpcErr>(None) && final(ch)@ == (ChannelView {
            queue: old(ch)@.queue.push(msg),
            ..old(ch)@
        }),
        !old(ch)@.closed && old(ch)@.recv_waiter is None && old(ch)@.queue.len() == QUEUE_CAP ==> r
            == Err::<Option<ProcId>, IpcErr>(IpcErr::Full) && final(ch)@ == old(ch)@,
{
    if ch.closed {
        return Err(IpcErr::Closed);
    }
    match ch.recv_waiter.take() {
        Some(receiver) => {
            let pushed = ch.queue.push(msg);
            Ok(Some(receiver))
        },
        None => {
            if ch.queue.push(msg) {
                Ok(None)
            } else {
                Err(IpcErr::Full)
            }
        },
    }
}

/// Receive without blocking: the oldest message, with the sender blocked on
/// a full queue that its slot frees, for the caller to wake; `Empty` when
/// nothing is queued; `Closed` on a closed channel, whose queued messages
/// are discarded.
pub fn try_receive(ch: &mut Channel) -> (r: Result<(Message, Option<ProcId>), IpcErr>)
    requires
        old(ch).wf(),
    ensures
        final(ch).wf(),
        old(ch)@.closed ==> r == Err::<(Message, Option<ProcId>), IpcErr>(IpcErr::Closed)
            && final(ch)@ == old(ch)@,
        !old(ch)@.closed && old(ch)@.queue.len() == 0 ==> r == Err::<
            (Message, Option<ProcId>),
            IpcErr,
        >(IpcErr::Empty) && final(ch)@ == old(ch)@,
        !old(ch)@.closed && old(ch)@.queue.len() > 0 ==> r == Ok::<
            (Message, Option<ProcId>),
            IpcErr,
        >((old(ch)@.queue[0], old(ch)@.send_waiter)) && final(ch)@ == (ChannelView {
            queue: old(ch)@.queue.drop_first(),
            send_waiter: None,
            ..old(ch)@
        }),
{
    if ch.closed {
        return Err(IpcErr::Closed);
    }
    match ch.queue.pop() {
        Some(m) => {
            let sendw = ch.send_waiter.take();
            Ok((m, sendw))
        },
        None => Err(IpcErr::Empty),
    }
}

/// The level a handed-off receiver is boosted to, from the sender's and
/// the receiver's levels when both are known.
pub open spec fn handoff_boost(levels: Option<(u8, u8)>) -> Option<u8> {
    match levels {
        Some((sender, receiver)) => inherited(Some(sender), receiver),
        None => None,
    }
}

/// One pass of a blocking send by `current` (the sender, `None` in kernel
/// context).  `levels` holds the sender's and the blocked receiver's
/// priority levels, when there are both.  A blocked receiver is handed the
/// message, with the level it inherits when the sender outranks it;
/// otherwise the message is queued; on a full queue the sender is recorded
/// to block.  On a closed channel the send fails: with `Full` for the
/// sender that was waiting for a slot when it closed, with `Closed`
/// otherwise.
pub fn send_step(ch: &mut Channel, current: Option<ProcId>, levels: Option<(u8, u8)>, msg: Message) -> (r:
    SendStep)
    requires
        old(ch).wf(),
        !old(ch)@.closed && old(ch)@.recv_waiter is None && old(ch)@.queue.len() == QUEUE_CAP
            ==> current is Some,
    ensures
        final(ch).wf(),
        old(ch)@.closed && current is Some && old(ch)@.stranded == current ==> r is Full
            && final(ch)@ == (ChannelView { stranded: None, ..old(ch)@ }),
        old(ch)@.closed && !(current is Some && old(ch)@.stranded == current) ==> r is Closed
            && final(ch)@ == old(ch)@,
        !old(ch)@.closed && old(ch)@.recv_waiter is Some ==> r == SendStep::Handoff(
            old(ch)@.recv_waiter->0,
            handoff_boost(levels),
        ) && final(ch)@ == (ChannelView {
            queue: old(ch)@.queue.push(msg),
            recv_waiter: None,
            ..old(ch)@
        }),
        !old(ch)@.closed && old(ch)@.recv_waiter is None && old(ch)@.queue.len() < QUEUE_CAP ==> r
            is Queued && final(ch)@ == (ChannelView {
            queue: old(ch)@.queue.push(msg),
            ..old(ch)@
        }),
        !old(ch)@.closed && old(ch)@.recv_waiter is None && old(ch)@.queue.len() == QUEUE_CAP ==> r
            == SendStep::Blocked(current->0, msg) && final(ch)@ == (ChannelView {
            send_waiter: current,
            ..old(ch)@
        }),
{
    if ch.closed {
        if current.is_some() && ch.stranded == current {
            ch.stranded = None;
            return SendStep::Full;
        }
        return SendStep::Closed;
    }
    match ch.recv_waiter.take() {
        Some(receiver) => {
            let boost = match levels {
                Some((sl, rl)) => inherited_level(Some(sl), rl),
                None => None,
            };
            let pushed = ch.queue.push(msg);
            SendStep::Handoff(receiver, boost)
        },
        None => {
            if ch.queue.is_full() {
                match current {
                    Some(me) => {
                        ch.send_waiter = Some(me);
                        SendStep::Blocked(me, msg)
                    },
                    None => SendStep::Closed,
                }
            } else {
                let pushed = ch.queue.push(msg);
                SendStep::Queued
            }
        },
    }
}

/// One pass of a receive by `me`, bounded by `deadline` when one is given,
/// with `now` the counter's reading: the oldest message (with the sender
/// blocked on a full queue that its slot frees, for the caller to wake);
/// on an empty queue a timeout when the deadline has been reached, and
/// otherwise `me` is recorded to block, dropping its inherited priority.
pub fn receive_step(ch: &mut Channel, me: ProcId, deadline: Option<u64>, now: u64) -> (r: RecvStep)
    requires
        old(ch).wf(),
    ensures
        final(ch).wf(),
        old(ch)@.closed ==> r is Closed && final(ch)@ == old(ch)@,
        !old(ch)@.closed && old(ch)@.queue.len() > 0 ==> r == RecvStep::Got(
            old(ch)@.queue[0],
            old(ch)@.send_waiter,
        ) && final(ch)@ == (ChannelView {
            queue: old(ch)@.queue.drop_first(),
            send_waiter: None,
            ..old(ch)@
        }),
        !old(ch)@.closed && old(ch)@.queue.len() == 0 && (deadline matches Some(d) && now >= d)
            ==> r is Timeout && final(ch)@ == old(ch)@,
        !old(ch)@.closed && old(ch)@.queue.len() == 0 && !(deadline matches Some(d) && now >= d)
            ==> r == RecvStep::Block(me) && final(ch)@ == (ChannelView {
            recv_waiter: Some(me),
            ..old(ch)@
        }),
{
    if ch.closed {
        return RecvStep::Closed;
    }
    match ch.queue.pop() {
        Some(m) => {
            let sendw = ch.send_waiter.take();
            RecvStep::Got(m, sendw)
        },
        None => {
            if let Some(d) = deadline {
                if now >= d {
                    return RecvStep::Timeout;
                }
            }
            ch.recv_waiter = Some(me);
            RecvStep::Block(me)
        },
    }
}

/// A reply must carry the tag it replies to.
pub fn check_reply_tag(tag: u32, msg: &Message) -> (r: Result<(), IpcErr>)
    ensures
        r is Ok <==> msg.tag == tag,
        r is Err ==> r == Err::<(), IpcErr>(IpcErr::BadTag),
{
    if msg.tag != tag {
        Err(IpcErr::BadTag)
    } else {
        Ok(())
    }
}

} // verus!

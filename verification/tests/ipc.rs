use r9::ipc::{
    check_reply_tag, close, inherited_level, receive_step, send_step, try_receive, try_send,
    Channel, IpcErr, IpcScheduler, Message, ProcId, RecvStep, SendStep, QUEUE_CAP,
    RECEIVE_TIMEOUT,
};
use std::cell::RefCell;
use std::rc::Rc;

/// A cooperative scheduler for host tests: blocking runs the other
/// process's work (`on_block`), which is what wakes the blocker.  The
/// channel sits in a `RefCell`, borrowed only for one step at a time, as
/// the kernel holds the channel's lock only for one step.
struct Mock {
    current: RefCell<Option<ProcId>>,
    base: Vec<u8>,
    eff: RefCell<Vec<u8>>,
    blocks: RefCell<Vec<ProcId>>,
    boosts: RefCell<Vec<(ProcId, u8)>>,
    unboosts: RefCell<Vec<ProcId>>,
    wakes: RefCell<Vec<ProcId>>,
    counter: RefCell<u64>,
    channel: RefCell<Channel>,
    on_block: RefCell<Option<Rc<dyn Fn(&Mock)>>>,
}

impl Mock {
    fn new(base: &[u8], channel: Channel) -> Self {
        Mock {
            current: RefCell::new(None),
            base: base.to_vec(),
            eff: RefCell::new(base.to_vec()),
            blocks: RefCell::new(vec![]),
            boosts: RefCell::new(vec![]),
            unboosts: RefCell::new(vec![]),
            wakes: RefCell::new(vec![]),
            counter: RefCell::new(0),
            channel: RefCell::new(channel),
            on_block: RefCell::new(None),
        }
    }

    fn set_counter(&self, value: u64) {
        *self.counter.borrow_mut() = value;
    }

    fn run(&self, id: ProcId, body: impl FnOnce(&Mock)) {
        let prev = self.current.replace(Some(id));
        body(self);
        *self.current.borrow_mut() = prev;
    }
}

impl IpcScheduler for Mock {
    fn current(&self) -> Option<ProcId> {
        *self.current.borrow()
    }
    fn priority(&self, id: ProcId) -> u8 {
        self.eff.borrow()[id]
    }
    fn boost(&self, id: ProcId, to: u8) {
        self.boosts.borrow_mut().push((id, to));
        let mut eff = self.eff.borrow_mut();
        if to < eff[id] {
            eff[id] = to;
        }
    }
    fn unboost(&self, id: ProcId) {
        self.unboosts.borrow_mut().push(id);
        self.eff.borrow_mut()[id] = self.base[id];
    }
    fn block(&self, id: ProcId) {
        self.blocks.borrow_mut().push(id);
        let action = self.on_block.borrow().clone();
        if let Some(action) = action {
            action(self);
        }
    }
    fn wake(&self, id: ProcId) {
        self.wakes.borrow_mut().push(id);
    }
    fn now(&self) -> u64 {
        *self.counter.borrow()
    }
    fn block_at(&self, id: ProcId, _deadline: u64) {
        self.block(id);
    }
}

/// The sender's and the blocked receiver's levels, when there are both.
fn levels(m: &Mock, ch: &Channel) -> Option<(u8, u8)> {
    match (m.current(), ch.recv_waiter()) {
        (Some(s), Some(r)) => Some((m.priority(s), m.priority(r))),
        _ => None,
    }
}

/// A blocking send: one step under the channel, then block and retry when
/// the queue is full.
fn send(m: &Mock, msg: Message) -> Result<(), IpcErr> {
    let mut msg = msg;
    loop {
        let step = {
            let mut ch = m.channel.borrow_mut();
            let lv = levels(m, &ch);
            send_step(&mut ch, m.current(), lv, msg)
        };
        match step {
            SendStep::Closed => return Err(IpcErr::Closed),
            SendStep::Full => return Err(IpcErr::Full),
            SendStep::Handoff(receiver, boost) => {
                if let Some(to) = boost {
                    m.boost(receiver, to);
                }
                m.wake(receiver);
                return Ok(());
            }
            SendStep::Queued => return Ok(()),
            SendStep::Blocked(me, back) => {
                msg = back;
                m.block(me);
            }
        }
    }
}

/// A receive, bounded by `deadline` when one is given.
fn receive_until(m: &Mock, deadline: Option<u64>) -> Result<Message, IpcErr> {
    loop {
        let me = m.current().expect("receive needs a process");
        let step = {
            let mut ch = m.channel.borrow_mut();
            let now = if deadline.is_some() { m.now() } else { 0 };
            receive_step(&mut ch, me, deadline, now)
        };
        match step {
            RecvStep::Closed => return Err(IpcErr::Closed),
            RecvStep::Got(msg, sender) => {
                if let Some(s) = sender {
                    m.wake(s);
                }
                return Ok(msg);
            }
            RecvStep::Timeout => return Ok(Message::timeout()),
            RecvStep::Block(who) => {
                m.unboost(who);
                match deadline {
                    Some(d) => m.block_at(who, d),
                    None => m.block(who),
                }
            }
        }
    }
}

fn receive(m: &Mock) -> Result<Message, IpcErr> {
    receive_until(m, None)
}

fn receive_at(m: &Mock, deadline: u64) -> Result<Message, IpcErr> {
    receive_until(m, Some(deadline))
}

fn reply(m: &Mock, tag: u32, msg: Message) -> Result<(), IpcErr> {
    check_reply_tag(tag, &msg)?;
    send(m, msg)
}

fn close_channel(m: &Mock) {
    let (r, s) = {
        let mut ch = m.channel.borrow_mut();
        close(&mut ch)
    };
    if let Some(r) = r {
        m.wake(r);
    }
    if let Some(s) = s {
        m.wake(s);
    }
}

fn try_send_on(m: &Mock, msg: Message) -> Result<(), IpcErr> {
    let r = {
        let mut ch = m.channel.borrow_mut();
        try_send(&mut ch, msg)
    };
    if let Some(receiver) = r? {
        m.wake(receiver);
    }
    Ok(())
}

fn try_receive_on(m: &Mock) -> Result<Message, IpcErr> {
    let r = {
        let mut ch = m.channel.borrow_mut();
        try_receive(&mut ch)
    };
    let (msg, sender) = r?;
    if let Some(s) = sender {
        m.wake(s);
    }
    Ok(msg)
}

const CLIENT: ProcId = 0;
const SERVER: ProcId = 1;

#[test]
fn fifo_ordering() {
    let m = Mock::new(&[128, 128, 128, 128], Channel::new(CLIENT));
    m.run(CLIENT, |m| {
        for tag in 0..3u32 {
            send(m, Message::new(1, tag, &[tag as u8])).unwrap();
        }
    });
    m.run(SERVER, |m| {
        for want in 0..3u32 {
            let msg = receive(m).unwrap();
            assert_eq!(msg.tag, want, "FIFO: tag {want} out of order");
        }
    });
}

#[test]
fn full_queue_blocks_sender_until_receive_drains() {
    let m = Mock::new(&[128, 128, 128, 128], Channel::new(CLIENT));
    m.run(CLIENT, |m| {
        for tag in 0..QUEUE_CAP as u32 {
            send(m, Message::new(1, tag, &[])).unwrap();
        }
    });
    m.on_block.replace(Some(Rc::new(|m: &Mock| {
        m.run(SERVER, |m| {
            let _ = receive(m).unwrap();
        });
    })));
    m.run(CLIENT, |m| {
        send(m, Message::new(1, 99, &[])).unwrap();
    });
    assert!(!m.blocks.borrow().is_empty(), "the full send must have blocked");
}

#[test]
fn fast_path_hands_off_exact_bytes() {
    let m = Mock::new(&[128, 128, 128, 128], Channel::new(CLIENT));
    let payload: [u8; 16] = [0xde, 0xad, 0xbe, 0xef, 1, 2, 3, 4, 5, 6, 7, 8, 9, 10, 11, 12];
    m.on_block.replace(Some(Rc::new(move |m: &Mock| {
        m.run(CLIENT, |m| {
            send(m, Message::new(1, 7, &payload)).unwrap();
        });
    })));
    m.run(SERVER, |m| {
        let msg = receive(m).unwrap();
        assert_eq!(msg.tag, 7);
        assert_eq!(&msg.buf[..msg.len as usize], &payload, "fast path: exact bytes");
    });
}

#[test]
fn boost_fires_when_sender_outranks_receiver() {
    let m = Mock::new(&[16, 200, 128, 128], Channel::new(CLIENT));
    m.on_block.replace(Some(Rc::new(|m: &Mock| {
        m.run(CLIENT, |m| {
            send(m, Message::new(1, 1, &[])).unwrap();
        });
    })));
    m.run(SERVER, |m| {
        let _ = receive(m).unwrap();
        assert_eq!(m.priority(SERVER), 16, "server must run at the client's level");
        m.on_block.replace(Some(Rc::new(|m: &Mock| {
            m.run(CLIENT, |m| {
                close_channel(m);
            });
        })));
        assert_eq!(receive(m), Err(IpcErr::Closed));
        assert_eq!(m.priority(SERVER), 200, "server must be unboosted to base");
    });
    assert!(
        m.boosts.borrow().contains(&(SERVER, 16)),
        "server must be boosted to the client's level; boosts: {:?}",
        m.boosts.borrow()
    );
    assert!(!m.unboosts.borrow().is_empty(), "server block must unboost");
}

#[test]
fn no_boost_when_priorities_tie() {
    let m = Mock::new(&[128, 128, 128, 128], Channel::new(CLIENT));
    m.on_block.replace(Some(Rc::new(|m: &Mock| {
        m.run(CLIENT, |m| {
            send(m, Message::new(1, 1, &[])).unwrap();
        });
    })));
    m.run(SERVER, |m| {
        let _ = receive(m).unwrap();
    });
    assert!(m.boosts.borrow().is_empty(), "no boost when priorities tie");
}

#[test]
fn reply_tag_correlation() {
    let m = Mock::new(&[128, 128, 128, 128], Channel::new(CLIENT));
    m.run(SERVER, |m| {
        reply(m, 42, Message::new(2, 42, &[])).unwrap();
    });
    m.run(CLIENT, |m| {
        let msg = receive(m).unwrap();
        assert_eq!(msg.tag, 42);
        assert_eq!(msg.opcode, 2);
    });
}

#[test]
fn reply_mismatched_tag_is_bad_tag() {
    let m = Mock::new(&[128, 128, 128, 128], Channel::new(CLIENT));
    m.run(SERVER, |m| {
        assert_eq!(
            reply(m, 42, Message::new(2, 41, &[])),
            Err(IpcErr::BadTag),
            "a reply whose tag does not match the message's is malformed"
        );
    });
}

#[test]
fn closed_channel_wakes_receiver_and_fails_send() {
    let m = Mock::new(&[128, 128, 128, 128], Channel::new(CLIENT));
    m.on_block.replace(Some(Rc::new(|m: &Mock| {
        m.run(CLIENT, |m| {
            close_channel(m);
        });
    })));
    m.run(SERVER, |m| {
        assert_eq!(receive(m), Err(IpcErr::Closed));
    });
    m.run(CLIENT, |m| {
        assert_eq!(send(m, Message::new(1, 1, &[])), Err(IpcErr::Closed));
    });
    assert!(m.wakes.borrow().contains(&SERVER), "the close must wake the blocked receiver");
}

#[test]
fn try_send_slow_path_enqueues() {
    let m = Mock::new(&[128, 128, 128, 128], Channel::new(CLIENT));
    assert_eq!(try_send_on(&m, Message::new(1, 1, &[])), Ok(()));
    m.run(SERVER, |m| {
        let msg = receive(m).unwrap();
        assert_eq!(msg.tag, 1);
    });
}

#[test]
fn try_send_fast_path_wakes_receiver() {
    let m = Mock::new(&[128, 128, 128, 128], Channel::new(CLIENT));
    m.on_block.replace(Some(Rc::new(|m: &Mock| {
        assert_eq!(try_send_on(m, Message::new(1, 7, &[])), Ok(()));
    })));
    m.run(SERVER, |m| {
        let msg = receive(m).unwrap();
        assert_eq!(msg.tag, 7);
    });
    assert!(m.wakes.borrow().contains(&SERVER), "the blocked receiver must be woken");
}

#[test]
fn try_send_full_queue_returns_full() {
    let m = Mock::new(&[128, 128, 128, 128], Channel::new(CLIENT));
    m.run(CLIENT, |m| {
        for tag in 0..QUEUE_CAP as u32 {
            send(m, Message::new(1, tag, &[])).unwrap();
        }
    });
    assert_eq!(
        try_send_on(&m, Message::new(1, 99, &[])),
        Err(IpcErr::Full),
        "full queue: try_send must return Full, not block"
    );
    assert!(m.blocks.borrow().is_empty(), "try_send must not block (no block calls)");
}

#[test]
fn try_send_no_pi() {
    let m = Mock::new(&[16, 200, 128, 128], Channel::new(CLIENT));
    m.on_block.replace(Some(Rc::new(|m: &Mock| {
        assert_eq!(try_send_on(m, Message::new(1, 1, &[])), Ok(()));
    })));
    m.run(SERVER, |m| {
        let _ = receive(m).unwrap();
    });
    assert!(
        m.boosts.borrow().is_empty(),
        "try_send must not boost (no client priority); boosts: {:?}",
        m.boosts.borrow()
    );
}

#[test]
fn try_send_closed_channel_returns_closed() {
    let m = Mock::new(&[128, 128, 128, 128], Channel::new(CLIENT));
    m.run(CLIENT, |m| {
        close_channel(m);
    });
    assert_eq!(
        try_send_on(&m, Message::new(1, 1, &[])),
        Err(IpcErr::Closed),
        "closed channel: try_send must return Closed"
    );
}

#[test]
fn receive_at_deadline_already_passed_is_immediate_timeout() {
    let m = Mock::new(&[128, 128, 128, 128], Channel::new(CLIENT));
    m.set_counter(50);
    m.run(SERVER, |m| {
        let msg = receive_at(m, 50).unwrap();
        assert_eq!(msg.opcode, RECEIVE_TIMEOUT, "deadline passed: immediate timeout");
        assert_eq!(msg.len, 0, "a timeout carries no payload");
        assert_eq!(msg.tag, 0);
        assert_eq!(msg.buf, vec![0u8; 256]);
    });
    assert!(m.blocks.borrow().is_empty(), "a passed deadline must not block");
}

#[test]
fn receive_at_timeout_when_deadline_beats_message() {
    let m = Mock::new(&[128, 128, 128, 128], Channel::new(CLIENT));
    m.on_block.replace(Some(Rc::new(|m: &Mock| {
        m.set_counter(200);
    })));
    m.run(SERVER, |m| {
        let msg = receive_at(m, 100).unwrap();
        assert_eq!(msg.opcode, RECEIVE_TIMEOUT, "deadline beat the message");
    });
    assert_eq!(m.blocks.borrow().len(), 1, "the wait must have blocked once");
}

#[test]
fn receive_at_message_beats_deadline() {
    let m = Mock::new(&[128, 128, 128, 128], Channel::new(CLIENT));
    m.on_block.replace(Some(Rc::new(|m: &Mock| {
        m.run(CLIENT, |m| {
            send(m, Message::new(1, 7, &[42])).unwrap();
        });
    })));
    m.run(SERVER, |m| {
        let msg = receive_at(m, 100).unwrap();
        assert_eq!(msg.opcode, 1, "the message beat the deadline");
        assert_eq!(msg.tag, 7);
        assert_eq!(msg.len, 1);
    });
}

#[test]
fn receive_at_spurious_wake_reblocks() {
    let m = Mock::new(&[128, 128, 128, 128], Channel::new(CLIENT));
    let calls = Rc::new(RefCell::new(0));
    let calls2 = calls.clone();
    m.on_block.replace(Some(Rc::new(move |m: &Mock| {
        let n = *calls2.borrow();
        *calls2.borrow_mut() = n + 1;
        if n != 0 {
            m.set_counter(200);
            m.run(CLIENT, |m| {
                send(m, Message::new(1, 9, &[])).unwrap();
            });
        }
    })));
    m.run(SERVER, |m| {
        let msg = receive_at(m, 100).unwrap();
        assert_eq!(msg.opcode, 1, "the message arrived on the second wake");
        assert_eq!(msg.tag, 9);
    });
    assert_eq!(*calls.borrow(), 2, "the first wake was spurious: the process re-blocked");
}

#[test]
fn receive_at_timeout_opcode_is_reserved() {
    assert_eq!(RECEIVE_TIMEOUT, 0xffff);
}

#[test]
fn pi_transitive_chain_boosts_to_highest() {
    let m = Mock::new(&[10, 64, 200, 128], Channel::new(CLIENT));
    m.on_block.replace(Some(Rc::new(|m: &Mock| {
        m.run(CLIENT, |m| {
            send(m, Message::new(1, 1, &[])).unwrap();
        });
    })));
    m.run(SERVER, |m| {
        let _ = receive(m).unwrap();
        assert_eq!(m.priority(SERVER), 10, "B boosted to A's level");
    });
    let m2 = Mock::new(&[10, 64, 200, 128], Channel::new(CLIENT));
    m2.on_block.replace(Some(Rc::new(|m: &Mock| {
        m.run(CLIENT, |m| {
            send(m, Message::new(1, 2, &[])).unwrap();
        });
    })));
    m2.run(SERVER, |m2| {
        let _ = receive(m2).unwrap();
        assert_eq!(m2.priority(SERVER), 10, "C boosted transitively to A's level");
    });
    assert!(
        m2.boosts.borrow().contains(&(SERVER, 10)),
        "C must be boosted to 10; boosts: {:?}",
        m2.boosts.borrow()
    );
}

#[test]
fn pi_revert_on_next_block_after_sender_completes() {
    let m = Mock::new(&[16, 200, 128, 128], Channel::new(CLIENT));
    m.on_block.replace(Some(Rc::new(|m: &Mock| {
        m.run(CLIENT, |m| {
            send(m, Message::new(1, 1, &[])).unwrap();
        });
    })));
    m.run(SERVER, |m| {
        let _ = receive(m).unwrap();
        assert_eq!(m.priority(SERVER), 16, "boosted during exchange");
        m.on_block.replace(Some(Rc::new(|m: &Mock| {
            m.run(CLIENT, |m| {
                close_channel(m);
            });
        })));
        assert_eq!(receive(m), Err(IpcErr::Closed));
        assert_eq!(m.priority(SERVER), 200, "reverted to base after block");
    });
    assert!(!m.unboosts.borrow().is_empty(), "at least one unboost (revert on block)");
}

#[test]
fn closed_channel_discards_queued_messages() {
    let m = Mock::new(&[128, 128, 128, 128], Channel::new(CLIENT));
    m.run(CLIENT, |m| {
        send(m, Message::new(1, 1, &[1])).unwrap();
        send(m, Message::new(1, 2, &[2])).unwrap();
    });
    m.run(CLIENT, |m| {
        close_channel(m);
    });
    m.run(SERVER, |m| {
        assert_eq!(receive(m), Err(IpcErr::Closed));
    });
}

#[test]
fn send_on_closed_channel_returns_closed() {
    let m = Mock::new(&[128, 128, 128, 128], Channel::new(CLIENT));
    m.run(CLIENT, |m| {
        close_channel(m);
    });
    m.run(CLIENT, |m| {
        assert_eq!(send(m, Message::new(1, 1, &[])), Err(IpcErr::Closed));
    });
}

#[test]
fn message_payload_is_cut_to_the_bound() {
    let data = vec![7u8; 300];
    let msg = Message::new(3, 4, &data);
    assert_eq!(msg.len, 256);
    assert_eq!(msg.buf.len(), 256);
    assert!(msg.buf.iter().all(|b| *b == 7));
    let short = Message::new(3, 4, &[1, 2]);
    assert_eq!(short.len, 2);
    assert_eq!(&short.buf[..3], &[1, 2, 0]);
}

#[test]
fn try_receive_reports_empty_and_wakes_a_blocked_sender() {
    let m = Mock::new(&[128, 128, 128, 128], Channel::new(CLIENT));
    assert_eq!(try_receive_on(&m), Err(IpcErr::Empty));
    m.run(CLIENT, |m| {
        for tag in 0..QUEUE_CAP as u32 {
            send(m, Message::new(1, tag, &[])).unwrap();
        }
    });
    {
        let mut ch = m.channel.borrow_mut();
        let step = send_step(&mut ch, Some(CLIENT), None, Message::new(1, 50, &[]));
        assert!(matches!(step, SendStep::Blocked(CLIENT, ref back) if back.tag == 50));
        assert!(ch.has_send_waiter());
        let (first, sender) = try_receive(&mut ch).unwrap();
        assert_eq!(first.tag, 0);
        assert_eq!(sender, Some(CLIENT), "the freed slot names the blocked sender to wake");
        assert!(!ch.has_send_waiter());
    }
}

#[test]
fn sender_blocked_on_a_full_queue_wakes_to_full_when_the_channel_closes() {
    let m = Mock::new(&[128, 128, 128, 128], Channel::new(SERVER));
    m.run(CLIENT, |m| {
        for tag in 0..QUEUE_CAP as u32 {
            send(m, Message::new(1, tag, &[])).unwrap();
        }
    });
    m.on_block.replace(Some(Rc::new(|m: &Mock| {
        m.run(SERVER, |m| close_channel(m));
    })));
    m.run(CLIENT, |m| {
        assert_eq!(send(m, Message::new(1, 99, &[])), Err(IpcErr::Full));
    });
    assert_eq!(m.wakes.borrow().as_slice(), &[CLIENT], "the close wakes the blocked sender");
    m.run(CLIENT, |m| {
        assert_eq!(send(m, Message::new(1, 100, &[])), Err(IpcErr::Closed), "a later send finds it closed");
    });
    m.run(2, |m| {
        assert_eq!(send(m, Message::new(1, 101, &[])), Err(IpcErr::Closed));
    });
}

#[test]
fn close_hands_back_both_waiters() {
    let mut ch = Channel::new(SERVER);
    assert!(matches!(receive_step(&mut ch, SERVER, None, 0), RecvStep::Block(SERVER)));
    assert_eq!(close(&mut ch), (Some(SERVER), None));
    assert_eq!(close(&mut ch), (None, None), "a second close wakes nobody");
    assert!(matches!(receive_step(&mut ch, SERVER, None, 0), RecvStep::Closed));
}

#[test]
fn handoff_carries_the_inherited_level() {
    let mut ch = Channel::new(SERVER);
    assert!(matches!(receive_step(&mut ch, SERVER, None, 0), RecvStep::Block(SERVER)));
    assert_eq!(ch.recv_waiter(), Some(SERVER));
    let step = send_step(&mut ch, Some(CLIENT), Some((16, 200)), Message::new(1, 1, &[]));
    assert!(matches!(step, SendStep::Handoff(SERVER, Some(16))));
    assert!(matches!(receive_step(&mut ch, SERVER, None, 0), RecvStep::Got(ref msg, None) if msg.tag == 1));
    assert!(matches!(receive_step(&mut ch, SERVER, None, 0), RecvStep::Block(SERVER)));
    let step = send_step(&mut ch, Some(CLIENT), Some((128, 128)), Message::new(1, 2, &[]));
    assert!(matches!(step, SendStep::Handoff(SERVER, None)), "no boost on a tie");
}

#[test]
fn receive_step_times_out_exactly_at_the_deadline() {
    let mut ch = Channel::new(SERVER);
    assert!(matches!(receive_step(&mut ch, SERVER, Some(100), 100), RecvStep::Timeout));
    assert!(matches!(receive_step(&mut ch, SERVER, Some(100), 250), RecvStep::Timeout));
    assert_eq!(ch.recv_waiter(), None, "a timeout leaves the channel alone");
    assert!(matches!(receive_step(&mut ch, SERVER, Some(100), 99), RecvStep::Block(SERVER)));
    assert_eq!(ch.recv_waiter(), Some(SERVER));
}

#[test]
fn inherited_level_only_from_a_more_urgent_sender() {
    assert_eq!(inherited_level(Some(16), 200), Some(16));
    assert_eq!(inherited_level(Some(200), 16), None);
    assert_eq!(inherited_level(Some(128), 128), None);
    assert_eq!(inherited_level(None, 128), None);
}

#[test]
fn closing_twice_is_harmless() {
    let m = Mock::new(&[128, 128, 128, 128], Channel::new(SERVER));
    close_channel(&m);
    close_channel(&m);
    assert_eq!(m.channel.borrow().owner(), SERVER);
    assert_eq!(try_send_on(&m, Message::new(1, 1, &[])), Err(IpcErr::Closed));
}

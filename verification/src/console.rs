//! Writing to the console server: the client half of its protocol.
//!
//! The client finds the server by name: a one-shot `RESOLVE` of
//! `/dev/console` through the nameserver, cached for the process's life.
//! A write uses the server's `OP_WRITE`: the payload is
//! `[reply_chan:4 LE][data...]`, and the server answers `R_OK` on the
//! client's own reply channel.  A payload is bounded by `MSG_MAX`, so a
//! longer write is cut into chunks of `MSG_MAX - 4` bytes, each awaited for
//! its answer.  A line is formatted into a 256-byte buffer, cut with `...`
//! when it does not fit, and ended by a newline.

use vstd::prelude::*;
use crate::bind_table::R_OK;
use crate::bytes::{append_bytes, le32_at, le32_bytes, slice_to_vec, u32_from_le, u32_to_le};
use crate::ipc::MSG_MAX;
use crate::nameserver::{name_request, pair_bytes};
use crate::print::{frame_line, framed_line, pieces_view};
use crate::bind_table::Pair;

verus! {

/// The console server's write verb.
pub const OP_WRITE: u16 = 0;

/// The bytes of one write chunk: a payload less its reply-channel field.
pub const CHUNK: usize = 252;

/// A console line's content bound; the newline follows it.
pub const LINE_MAX: usize = 256;

/// The name the console server publishes under: `/dev/console`.
pub open spec fn console_name() -> Seq<u8> {
    seq![47u8, 100u8, 101u8, 118u8, 47u8, 99u8, 111u8, 110u8, 115u8, 111u8, 108u8, 101u8]
}

/// A console write failed.
#[derive(Debug, Clone, Copy, PartialEq, Eq, Structural)]
pub enum ConsoleError {
    /// The message path failed: a send error, an answer that is not `R_OK`,
    /// or use of the console before a successful write.
    Ipc,
    /// The console server is gone: its channel was closed under the wait.
    Closed,
}

/// The resolved console server and this process's reply channel.
#[derive(Debug, Clone, Copy, PartialEq, Eq, Structural)]
pub struct ConsoleLink {
    /// The server's inbound channel: where writes go.
    pub in_h: u64,
    /// This process's reply channel: where the server's answers come back.
    pub reply_h: u64,
}

/// The one-shot resolve, cached for the process's life.
pub struct ConsoleCache {
    value: Option<ConsoleLink>,
}

impl ConsoleCache {
    pub closed spec fn link(&self) -> Option<ConsoleLink> {
        self.value
    }

    /// Nothing resolved yet.
    pub fn new() -> (r: ConsoleCache)
        ensures
            r.link() is None,
    {
        ConsoleCache { value: None }
    }

    /// The cached link, if the resolve has happened.
    pub fn get(&self) -> (r: Option<ConsoleLink>)
        ensures
            r == self.link(),
    {
        self.value
    }

    /// Record a successful resolve.
    pub fn set(&mut self, link: ConsoleLink)
        ensures
            final(self).link() == Some(link),
    {
        self.value = Some(link);
    }
}

/// This process's reply channel for the console server: known only after a
/// resolve, else the message path is not set up.
pub fn reply_channel(cache: &ConsoleCache) -> (r: Result<u64, ConsoleError>)
    ensures
        r == (match cache.link() {
            Some(l) => Ok::<u64, ConsoleError>(l.reply_h),
            None => Err(ConsoleError::Ipc),
        }),
{
    match cache.get() {
        Some(l) => Ok(l.reply_h),
        None => Err(ConsoleError::Ipc),
    }
}

/// The `RESOLVE` request for the console: its name, then the reply channel
/// (the low 32 bits of the handle).
pub fn resolve_request(reply_h: u64) -> (r: Vec<u8>)
    ensures
        r@ == console_name() + le32_bytes(reply_h as u32),
{
    let mut name: Vec<u8> = Vec::new();
    name.push(47u8);
    name.push(100u8);
    name.push(101u8);
    name.push(118u8);
    name.push(47u8);
    name.push(99u8);
    name.push(111u8);
    name.push(110u8);
    name.push(115u8);
    name.push(111u8);
    name.push(108u8);
    name.push(101u8);
    assert(name@ =~= console_name());
    name_request(name.as_slice(), reply_h as u32)
}

/// What the resolve's answer means: the server's inbound channel when it is
/// `R_OK` with the eight bytes of a pair; `Closed` when the wait found the
/// reply channel closed (`closed_op`); `Ipc` otherwise.
pub open spec fn resolve_outcome(op: u16, bytes: nat, reply: Seq<u8>, closed_op: u16) -> Result<
    u64,
    ConsoleError,
> {
    if op == closed_op {
        Err(ConsoleError::Closed)
    } else if op != R_OK || bytes != 8 {
        Err(ConsoleError::Ipc)
    } else {
        Ok(le32_at(reply, 0) as u64)
    }
}

/// Read the resolve's answer: `op` and `bytes` as the receive reported
/// them, `reply` the 8-byte buffer it filled.
pub fn resolve_reply(op: u16, bytes: usize, reply: &[u8], closed_op: u16) -> (r: Result<u64, ConsoleError>)
    requires
        reply@.len() == 8,
    ensures
        r == resolve_outcome(op, bytes as nat, reply@, closed_op),
{
    if op == closed_op {
        Err(ConsoleError::Closed)
    } else if op != R_OK || bytes != 8 {
        Err(ConsoleError::Ipc)
    } else {
        Ok(u32_from_le(reply, 0) as u64)
    }
}

/// What one write's answer means: `Closed` when the wait found the reply
/// channel closed, `Ipc` for any result but `R_OK`.
pub open spec fn answer_outcome(op: u16, closed_op: u16) -> Result<(), ConsoleError> {
    if op == closed_op {
        Err(ConsoleError::Closed)
    } else if op != R_OK {
        Err(ConsoleError::Ipc)
    } else {
        Ok(())
    }
}

/// Read one write's answer.
pub fn write_answer(op: u16, closed_op: u16) -> (r: Result<(), ConsoleError>)
    ensures
        r == answer_outcome(op, closed_op),
{
    if op == closed_op {
        Err(ConsoleError::Closed)
    } else if op != R_OK {
        Err(ConsoleError::Ipc)
    } else {
        Ok(())
    }
}

/// The chunks of `data` from `start` on, each at most `CHUNK` bytes.
pub open spec fn chunks_from(data: Seq<u8>, start: int) -> Seq<Seq<u8>>
    decreases data.len() - start,
{
    if start < 0 || start >= data.len() {
        Seq::empty()
    } else if data.len() - start <= CHUNK {
        seq![data.subrange(start, data.len() as int)]
    } else {
        seq![data.subrange(start, start + CHUNK)] + chunks_from(data, start + CHUNK)
    }
}

/// The payloads a write of `data` sends, in order: each chunk behind the
/// reply channel.
pub open spec fn write_payloads_spec(reply_h: u64, data: Seq<u8>) -> Seq<Seq<u8>> {
    chunks_from(data, 0).map_values(|c: Seq<u8>| le32_bytes(reply_h as u32) + c)
}

proof fn lemma_chunks_step(data: Seq<u8>, start: int)
    requires
        0 <= start < data.len(),
    ensures
        chunks_from(data, start) == seq![
            data.subrange(start, if data.len() - start <= CHUNK { data.len() as int } else { start + CHUNK }),
        ] + chunks_from(
            data,
            if data.len() - start <= CHUNK { data.len() as int } else { start + CHUNK },
        ),
{
    if data.len() - start <= CHUNK {
        assert(chunks_from(data, data.len() as int) =~= Seq::<Seq<u8>>::empty());
        assert(seq![data.subrange(start, data.len() as int)] + Seq::<Seq<u8>>::empty() =~= seq![
            data.subrange(start, data.len() as int),
        ]);
    }
}

/// The payloads a console write of `data` sends, in order.  An empty write
/// sends nothing.
pub fn write_payloads(reply_h: u64, data: &[u8]) -> (r: Vec<Vec<u8>>)
    ensures
        r@.len() == chunks_from(data@, 0).len(),
        forall|i: int| 0 <= i < r@.len() ==> (#[trigger] r@[i])@ == write_payloads_spec(reply_h, data@)[i],
        forall|i: int| 0 <= i < r@.len() ==> (#[trigger] r@[i])@.len() <= MSG_MAX,
{
    let head = u32_to_le(reply_h as u32);
    let mut out: Vec<Vec<u8>> = Vec::new();
    let mut start: usize = 0;
    let ghost all = chunks_from(data@, 0);
    while start < data.len()
        invariant
            head@ == le32_bytes(reply_h as u32),
            all == chunks_from(data@, 0),
            start <= data@.len(),
            all == out@.map_values(|v: Vec<u8>| v@.subrange(4, v@.len() as int)) + chunks_from(data@, start as int),
            forall|i: int| 0 <= i < out@.len() ==> (#[trigger] out@[i])@ == head@ + (out@[i])@.subrange(4, out@[i]@.len() as int),
            forall|i: int| 0 <= i < out@.len() ==> (#[trigger] out@[i])@.len() <= MSG_MAX,
        decreases data@.len() - start,
    {
        let end = if data.len() - start <= CHUNK {
            data.len()
        } else {
            start + CHUNK
        };
        proof {
            lemma_chunks_step(data@, start as int);
        }
        let chunk = slice_to_vec(data, start, end);
        let mut payload = u32_to_le(reply_h as u32);
        append_bytes(&mut payload, chunk.as_slice());
        let ghost before = out@;
        out.push(payload);
        proof {
            assert(payload@.subrange(4, payload@.len() as int) =~= chunk@);
            assert(out@.map_values(|v: Vec<u8>| v@.subrange(4, v@.len() as int)) =~= before.map_values(
                |v: Vec<u8>| v@.subrange(4, v@.len() as int),
            ).push(chunk@));
            assert(seq![chunk@] + chunks_from(data@, end as int) =~= chunks_from(data@, start as int));
            assert(before.map_values(|v: Vec<u8>| v@.subrange(4, v@.len() as int)).push(chunk@)
                + chunks_from(data@, end as int) =~= before.map_values(
                |v: Vec<u8>| v@.subrange(4, v@.len() as int),
            ) + (seq![chunk@] + chunks_from(data@, end as int)));
        }
        start = end;
    }
    proof {
        assert(chunks_from(data@, start as int) =~= Seq::<Seq<u8>>::empty());
        assert(all =~= out@.map_values(|v: Vec<u8>| v@.subrange(4, v@.len() as int)));
        assert forall|i: int| 0 <= i < out@.len() implies (#[trigger] out@[i])@ == write_payloads_spec(
            reply_h,
            data@,
        )[i] by {
            assert(all[i] == out@[i]@.subrange(4, out@[i]@.len() as int));
        }
    }
    out
}

/// The bytes `println` writes: the formatter's pieces into the console's
/// line buffer, cut with `...` when they do not fit, then the newline.
pub fn println(pieces: &[Vec<u8>]) -> (r: Vec<u8>)
    ensures
        r@ == framed_line(pieces_view(pieces@), LINE_MAX as nat),
        r@.len() <= LINE_MAX + 1,
{
    proof {
        crate::print::lemma_framed_line_len(pieces_view(pieces@), LINE_MAX as nat);
    }
    frame_line(pieces, LINE_MAX)
}

/// A client that resolves `/dev/console` while the console server's pair
/// is bound finds the server's inbound channel: the nameserver answers the
/// client's request with the pair's bytes, and reading that answer gives
/// back the pair's inbound handle.
pub proof fn lemma_resolve_finds_the_server(
    m: Map<Seq<u8>, Pair>,
    full: bool,
    pair: Pair,
    reply_h: u64,
    closed_op: u16,
)
    requires
        m.dom().contains(console_name()),
        m[console_name()] == pair,
        closed_op != R_OK,
    ensures
        ({
            let req = console_name() + le32_bytes(reply_h as u32);
            let ans = crate::nameserver::answer(m, full, crate::nameserver::OP_RESOLVE, req.subrange(0, req.len() - 4));
            &&& ans.1 == R_OK
            &&& ans.2 == pair_bytes(pair)
            &&& resolve_outcome(ans.1, ans.2.len(), ans.2, closed_op) == Ok::<u64, ConsoleError>(pair.in_h as u64)
        }),
{
    let req = console_name() + le32_bytes(reply_h as u32);
    assert(req.subrange(0, req.len() - 4) =~= console_name());
    let b = pair_bytes(pair);
    assert(b.subrange(0, 4) =~= le32_bytes(pair.in_h));
    crate::nameserver::lemma_le32_roundtrip(pair.in_h, b, 0);
}

} // verus!

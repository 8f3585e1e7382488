//! The nameserver's protocol: the three verbs over a bind table, and the
//! request layouts a client writes.
//!
//! A request's opcode is the verb.  A `BIND` payload is the name followed by
//! the bound pair (`[name][in:4 LE][out:4 LE]`); a `RESOLVE` or `UNBIND`
//! payload is the name alone.  In the routed form every request carries one
//! more field last, the client's reply channel (`[reply:4 LE]`), so that no
//! two clients share the nameserver's outbound channel.  A `RESOLVE` that
//! finds its name is answered with the pair (`[in:4 LE][out:4 LE]`); every
//! other answer is empty.  An unknown verb is answered like an unknown name.

use vstd::prelude::*;
use crate::bind_table::{stored_name, BindTable, Pair, NAME_MAX, R_EFULL, R_ENOENT, R_OK};
use crate::bytes::{append_bytes, le32_at, le32_bytes, prefix, u32_from_le, u32_to_le};

verus! {

/// The verb a server sends to publish its pair under a name.
pub const OP_BIND: u16 = 0;
/// The verb a client sends to look a name up.
pub const OP_RESOLVE: u16 = 1;
/// The verb a server sends to withdraw its name.
pub const OP_UNBIND: u16 = 2;

/// The pair a `BIND` payload carries in its last eight bytes.
pub open spec fn carried_pair(p: Seq<u8>) -> Pair {
    Pair { in_h: le32_at(p, p.len() - 8) as u32, out_h: le32_at(p, p.len() - 4) as u32 }
}

/// The wire form of a pair: `[in:4 LE][out:4 LE]`.
pub open spec fn pair_bytes(pair: Pair) -> Seq<u8> {
    le32_bytes(pair.in_h) + le32_bytes(pair.out_h)
}

/// What one request does: the bindings after it, the result code, and the
/// reply payload, given the bindings before it and whether every slot of
/// the table was taken.
pub open spec fn answer(m: Map<Seq<u8>, Pair>, full: bool, op: u16, p: Seq<u8>) -> (
    Map<Seq<u8>, Pair>,
    u16,
    Seq<u8>,
) {
    if op == OP_BIND {
        let name = stored_name(p.subrange(0, p.len() - 8));
        if m.dom().contains(name) || !full {
            (m.insert(name, carried_pair(p)), R_OK, Seq::empty())
        } else {
            (m, R_EFULL, Seq::empty())
        }
    } else if op == OP_RESOLVE {
        if m.dom().contains(p) {
            (m, R_OK, pair_bytes(m[p]))
        } else {
            (m, R_ENOENT, Seq::empty())
        }
    } else if op == OP_UNBIND {
        if m.dom().contains(p) {
            (m.remove(p), R_OK, Seq::empty())
        } else {
            (m, R_ENOENT, Seq::empty())
        }
    } else {
        (m, R_ENOENT, Seq::empty())
    }
}

/// A nameserver answer: the result code (the reply's opcode) and the reply
/// payload.
pub struct Answer {
    pub result: u16,
    pub payload: Vec<u8>,
}

/// An answer and the channel it goes back on.
pub struct Routed {
    pub reply_chan: u64,
    pub answer: Answer,
}

/// The wire form of a pair.
pub fn encode_pair(pair: Pair) -> (r: Vec<u8>)
    ensures
        r@ == pair_bytes(pair),
{
    let mut out = u32_to_le(pair.in_h);
    let second = u32_to_le(pair.out_h);
    append_bytes(&mut out, second.as_slice());
    out
}

/// Serve one request on `table`: `op` is the verb and `payload` the
/// request's bytes.  A `BIND` payload holds at least the pair.
pub fn serve(table: &mut BindTable, op: u16, payload: &[u8]) -> (r: Answer)
    requires
        old(table).wf(),
        op == OP_BIND ==> payload@.len() >= 8,
    ensures
        final(table).wf(),
        (final(table).bindings(), r.result, r.payload@) == answer(
            old(table).bindings(),
            old(table).is_full(),
            op,
            payload@,
        ),
{
    if op == OP_BIND {
        let name_len = payload.len() - 8;
        let name = prefix(payload, name_len);
        let in_h = u32_from_le(payload, name_len);
        let out_h = u32_from_le(payload, name_len + 4);
        let result = table.bind(name.as_slice(), Pair { in_h, out_h });
        Answer { result, payload: Vec::new() }
    } else if op == OP_RESOLVE {
        match table.resolve(payload) {
            Some(p) => Answer { result: R_OK, payload: encode_pair(p) },
            None => Answer { result: R_ENOENT, payload: Vec::new() },
        }
    } else if op == OP_UNBIND {
        let result = table.unbind(payload);
        Answer { result, payload: Vec::new() }
    } else {
        Answer { result: R_ENOENT, payload: Vec::new() }
    }
}

/// Serve one request of the routed form, whose last four bytes name the
/// channel to answer on: the answer is that of the request without them.
pub fn serve_routed(table: &mut BindTable, op: u16, payload: &[u8]) -> (r: Routed)
    requires
        old(table).wf(),
        payload@.len() >= 4,
        op == OP_BIND ==> payload@.len() >= 12,
    ensures
        final(table).wf(),
        r.reply_chan == le32_at(payload@, payload@.len() - 4),
        (final(table).bindings(), r.answer.result, r.answer.payload@) == answer(
            old(table).bindings(),
            old(table).is_full(),
            op,
            payload@.subrange(0, payload@.len() - 4),
        ),
{
    let body_len = payload.len() - 4;
    let reply_chan = u32_from_le(payload, body_len) as u64;
    let body = prefix(payload, body_len);
    let answer = serve(table, op, body.as_slice());
    Routed { reply_chan, answer }
}

/// A `BIND` request of the routed form: `[name][in][out][reply]`.
pub fn bind_request(name: &[u8], pair: Pair, reply_chan: u32) -> (r: Vec<u8>)
    ensures
        r@ == name@ + pair_bytes(pair) + le32_bytes(reply_chan),
{
    let mut out: Vec<u8> = Vec::new();
    append_bytes(&mut out, name);
    let p = encode_pair(pair);
    append_bytes(&mut out, p.as_slice());
    let rc = u32_to_le(reply_chan);
    append_bytes(&mut out, rc.as_slice());
    out
}

/// A `RESOLVE` or `UNBIND` request of the routed form: `[name][reply]`.
pub fn name_request(name: &[u8], reply_chan: u32) -> (r: Vec<u8>)
    ensures
        r@ == name@ + le32_bytes(reply_chan),
{
    let mut out: Vec<u8> = Vec::new();
    append_bytes(&mut out, name);
    let rc = u32_to_le(reply_chan);
    append_bytes(&mut out, rc.as_slice());
    out
}

/// The little-endian encoding reads back as the value it encodes.
pub proof fn lemma_le32_roundtrip(v: u32, s: Seq<u8>, off: int)
    requires
        0 <= off,
        off + 4 <= s.len(),
        s.subrange(off, off + 4) == le32_bytes(v),
    ensures
        le32_at(s, off) == v,
{
    assert(s[off] == le32_bytes(v)[0]);
    assert(s[off + 1] == le32_bytes(v)[1]);
    assert(s[off + 2] == le32_bytes(v)[2]);
    assert(s[off + 3] == le32_bytes(v)[3]);
}

/// The pair a `BIND` carries is the pair its sender wrote.
pub proof fn lemma_carried_pair(name: Seq<u8>, pair: Pair)
    ensures
        carried_pair(name + pair_bytes(pair)) == pair,
        (name + pair_bytes(pair)).subrange(0, name.len() as int) == name,
{
    let p = name + pair_bytes(pair);
    let n = name.len() as int;
    assert(p.subrange(n, n + 4) =~= le32_bytes(pair.in_h));
    assert(p.subrange(n + 4, n + 8) =~= le32_bytes(pair.out_h));
    lemma_le32_roundtrip(pair.in_h, p, n);
    lemma_le32_roundtrip(pair.out_h, p, n + 4);
    assert(p.subrange(0, n) =~= name);
}

/// A name a server binds through the nameserver resolves, for any client,
/// to the pair the server bound: the routed `BIND` is answered `R_OK`
/// (when the name is already bound or a slot is free) and a later routed
/// `RESOLVE` of the name is answered `R_OK` with the pair's bytes, while
/// the bindings stay as the `BIND` left them.
pub proof fn lemma_bound_name_resolves(
    m: Map<Seq<u8>, Pair>,
    full: bool,
    name: Seq<u8>,
    pair: Pair,
    bind_reply: u32,
    full_after: bool,
    resolve_reply: u32,
)
    requires
        name.len() <= NAME_MAX,
        m.dom().contains(name) || !full,
    ensures
        ({
            let bind = name + pair_bytes(pair) + le32_bytes(bind_reply);
            let after = answer(m, full, OP_BIND, bind.subrange(0, bind.len() - 4));
            let res = name + le32_bytes(resolve_reply);
            &&& after.1 == R_OK
            &&& after.0 == m.insert(name, pair)
            &&& answer(after.0, full_after, OP_RESOLVE, res.subrange(0, res.len() - 4)) == (
                after.0,
                R_OK,
                pair_bytes(pair),
            )
        }),
{
    let bind = name + pair_bytes(pair) + le32_bytes(bind_reply);
    let body = bind.subrange(0, bind.len() - 4);
    assert(body =~= name + pair_bytes(pair));
    lemma_carried_pair(name, pair);
    assert(body.subrange(0, body.len() - 8) =~= name);
    let res = name + le32_bytes(resolve_reply);
    assert(res.subrange(0, res.len() - 4) =~= name);
}

/// A name a server unbinds no longer resolves: the routed `RESOLVE` after
/// an answered `UNBIND` is answered `R_ENOENT`.
pub proof fn lemma_unbound_name_is_unknown(
    m: Map<Seq<u8>, Pair>,
    full: bool,
    name: Seq<u8>,
    unbind_reply: u32,
    full_after: bool,
    resolve_reply: u32,
)
    ensures
        ({
            let unbind = name + le32_bytes(unbind_reply);
            let after = answer(m, full, OP_UNBIND, unbind.subrange(0, unbind.len() - 4));
            let res = name + le32_bytes(resolve_reply);
            answer(after.0, full_after, OP_RESOLVE, res.subrange(0, res.len() - 4)) == (
                after.0,
                R_ENOENT,
                Seq::<u8>::empty(),
            )
        }),
{
    let unbind = name + le32_bytes(unbind_reply);
    assert(unbind.subrange(0, unbind.len() - 4) =~= name);
    let res = name + le32_bytes(resolve_reply);
    assert(res.subrange(0, res.len() - 4) =~= name);
}

} // verus!

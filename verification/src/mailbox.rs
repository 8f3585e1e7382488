//! The mailbox server's logic: the BCM283x Mailbox property buffers it
//! writes for the VideoCore, what it reads back from them, its request and
//! answer layouts, and the memory line it prints.
//!
//! A property buffer is a sequence of 32-bit words: its size in bytes, a
//! request code (0), then tags, each `[id][value size][0][values...]`, and
//! an end tag (0).  The VideoCore answers in place, in the value words.
//! A client's request is `[op:2 LE][arguments...]`; the server answers
//! `[0][values LE...]`, or `[1]` to a verb it does not know.

use vstd::prelude::*;
use crate::bytes::{append_bytes, le32_at, le32_bytes, u32_from_le, u32_to_le};

verus! {

/// The tag that allocates the frame buffer.
pub const TAG_FB_ALLOCATE: u32 = 0x0004_0001;
/// The tag that sets the frame buffer's width and height.
pub const TAG_FB_SET_WIDTH_HEIGHT: u32 = 0x0004_8003;
/// The tag that sets the frame buffer's depth.
pub const TAG_FB_SET_DEPTH: u32 = 0x0004_8005;
/// The tag that sets the frame buffer's pixel order.
pub const TAG_FB_SET_PIXEL_ORDER: u32 = 0x0004_8006;
/// The tag that reports the ARM memory range.
pub const TAG_GET_ARM_MEMORY: u32 = 0x0001_0005;
/// The mailbox channel of property requests from the ARM to the VideoCore.
pub const CHANNEL_ARM_TO_VC: u32 = 8;
/// The verb that configures the frame buffer.
pub const OP_CONFIGURE_FB: u16 = 0;
/// The verb that reads one property.
pub const OP_GET_PROPERTY: u16 = 1;
/// The largest request the server reads.
pub const REQUEST_MAX: usize = 64;

/// The buffer that sets the frame buffer's geometry, depth and pixel order.
pub open spec fn fb_setup_spec(width: u32, height: u32, bpp: u32) -> Seq<u32> {
    seq![
        64u32, 0u32, TAG_FB_SET_WIDTH_HEIGHT, 8u32, 0u32, width, height,
        TAG_FB_SET_DEPTH, 4u32, 0u32, bpp,
        TAG_FB_SET_PIXEL_ORDER, 4u32, 0u32, 0u32,
        0u32,
    ]
}

/// The buffer that allocates the frame buffer: the allocate tag with its
/// two value words cleared, in a cleared 32-word buffer.
pub open spec fn fb_allocate_spec() -> Seq<u32> {
    Seq::new(32, |i: int| if i == 0 { 32u32 } else if i == 2 { TAG_FB_ALLOCATE } else if i == 3 { 8u32 } else { 0u32 })
}

/// The buffer that reads the one-word property `tag`.
pub open spec fn property_spec(tag: u32) -> Seq<u32> {
    seq![24u32, 0u32, tag, 4u32, 0u32, 0u32]
}

/// The buffer that reads the ARM memory range.
pub open spec fn arm_memory_spec() -> Seq<u32> {
    seq![32u32, 0u32, TAG_GET_ARM_MEMORY, 8u32, 0u32, 0u32, 0u32, 0u32]
}

/// The frame buffer setup request.
pub fn fb_setup_words(width: u32, height: u32, bpp: u32) -> (r: Vec<u32>)
    ensures
        r@ == fb_setup_spec(width, height, bpp),
{
    let r = vec![
        64u32, 0u32, TAG_FB_SET_WIDTH_HEIGHT, 8u32, 0u32, width, height,
        TAG_FB_SET_DEPTH, 4u32, 0u32, bpp,
        TAG_FB_SET_PIXEL_ORDER, 4u32, 0u32, 0u32,
        0u32,
    ];
    assert(r@ =~= fb_setup_spec(width, height, bpp));
    r
}

/// The frame buffer allocate request.
pub fn fb_allocate_words() -> (r: Vec<u32>)
    ensures
        r@ == fb_allocate_spec(),
{
    let mut r: Vec<u32> = Vec::new();
    let mut i: usize = 0;
    while i < 32
        invariant
            i <= 32,
            r@.len() == i,
            forall|j: int| 0 <= j < i ==> r@[j] == fb_allocate_spec()[j],
        decreases 32 - i,
    {
        let w: u32 = if i == 0 {
            32
        } else if i == 2 {
            TAG_FB_ALLOCATE
        } else if i == 3 {
            8
        } else {
            0
        };
        r.push(w);
        i = i + 1;
    }
    assert(r@ =~= fb_allocate_spec());
    r
}

/// The request that reads property `tag`.
pub fn property_words(tag: u32) -> (r: Vec<u32>)
    ensures
        r@ == property_spec(tag),
{
    let r = vec![24u32, 0u32, tag, 4u32, 0u32, 0u32];
    assert(r@ =~= property_spec(tag));
    r
}

/// The request that reads the ARM memory range.
pub fn arm_memory_words() -> (r: Vec<u32>)
    ensures
        r@ == arm_memory_spec(),
{
    let r = vec![32u32, 0u32, TAG_GET_ARM_MEMORY, 8u32, 0u32, 0u32, 0u32, 0u32];
    assert(r@ =~= arm_memory_spec());
    r
}

/// The two value words the VideoCore answered in a buffer: a range's base
/// (or address) and size.
pub fn answered_range(words: &[u32]) -> (r: (u64, u64))
    requires
        words@.len() >= 7,
    ensures
        r == (words@[5] as u64, words@[6] as u64),
{
    (words[5] as u64, words[6] as u64)
}

/// The one value word the VideoCore answered for a one-word property.
pub fn answered_property(words: &[u32]) -> (r: u32)
    requires
        words@.len() >= 6,
    ensures
        r == words@[5],
{
    words[5]
}

/// The word written to the mailbox to send the buffer at physical `pa`:
/// the low 32 bits of the address, 16-byte aligned, with the channel in the
/// low nibble.  The mailbox answers with the same word.
pub open spec fn request_word_spec(pa: u64) -> u32 {
    ((pa as u32) & 0xffff_fff0u32) | CHANNEL_ARM_TO_VC
}

/// The mailbox request word for the buffer at `pa`.
pub fn request_word(pa: u64) -> (r: u32)
    ensures
        r == request_word_spec(pa),
{
    ((pa as u32) & 0xffff_fff0u32) | CHANNEL_ARM_TO_VC
}

/// A request to the mailbox server.
#[derive(Clone, Copy, Debug, PartialEq, Eq, Structural)]
pub enum MailboxRequest {
    /// Configure the frame buffer: width, height, depth.
    ConfigureFb(u32, u32, u32),
    /// Read the one-word property with this tag.
    GetProperty(u32),
    /// A known verb whose request is too short for its arguments.
    Short(u16),
    /// A verb the server does not know.
    Other(u16),
}

/// The little-endian `u16` at `off`.
pub open spec fn le16_at(s: Seq<u8>, off: int) -> int {
    s[off] + 256 * s[off + 1]
}

/// What a request means: `buf` is the receive buffer and `n` the bytes
/// that arrived.
pub open spec fn request_of(buf: Seq<u8>, n: nat) -> MailboxRequest {
    let op = le16_at(buf, 0) as u16;
    if op == OP_CONFIGURE_FB {
        if n < 14 {
            MailboxRequest::Short(op)
        } else {
            MailboxRequest::ConfigureFb(
                le32_at(buf, 2) as u32,
                le32_at(buf, 6) as u32,
                le32_at(buf, 10) as u32,
            )
        }
    } else if op == OP_GET_PROPERTY {
        if n < 6 {
            MailboxRequest::Short(op)
        } else {
            MailboxRequest::GetProperty(le32_at(buf, 2) as u32)
        }
    } else {
        MailboxRequest::Other(op)
    }
}

/// Decode a request from the receive buffer, of which `bytes` arrived.
pub fn decode_request(buf: &[u8], bytes: usize) -> (r: MailboxRequest)
    requires
        buf@.len() == REQUEST_MAX,
    ensures
        r == request_of(buf@, if bytes < REQUEST_MAX { bytes as nat } else { REQUEST_MAX as nat }),
{
    let n = if bytes < REQUEST_MAX {
        bytes
    } else {
        REQUEST_MAX
    };
    let op = (buf[0] as u16) + (buf[1] as u16) * 256;
    if op == OP_CONFIGURE_FB {
        if n < 14 {
            MailboxRequest::Short(op)
        } else {
            MailboxRequest::ConfigureFb(u32_from_le(buf, 2), u32_from_le(buf, 6), u32_from_le(buf, 10))
        }
    } else if op == OP_GET_PROPERTY {
        if n < 6 {
            MailboxRequest::Short(op)
        } else {
            MailboxRequest::GetProperty(u32_from_le(buf, 2))
        }
    } else {
        MailboxRequest::Other(op)
    }
}

/// The answer to a frame buffer configuration: `[0]`, then the address and
/// the size, each as two little-endian words, low word first.
pub open spec fn configure_answer_spec(pa: u64, size: u64) -> Seq<u8> {
    seq![0u8] + le32_bytes(pa as u32) + le32_bytes((pa / 0x1_0000_0000) as u32) + le32_bytes(size as u32)
        + le32_bytes((size / 0x1_0000_0000) as u32)
}

/// Encode the answer to a frame buffer configuration.
pub fn configure_answer(pa: u64, size: u64) -> (r: Vec<u8>)
    ensures
        r@ == configure_answer_spec(pa, size),
        r@.len() == 17,
{
    let mut r: Vec<u8> = Vec::new();
    r.push(0u8);
    let a = u32_to_le(pa as u32);
    append_bytes(&mut r, a.as_slice());
    let b = u32_to_le((pa / 0x1_0000_0000) as u32);
    append_bytes(&mut r, b.as_slice());
    let c = u32_to_le(size as u32);
    append_bytes(&mut r, c.as_slice());
    let d = u32_to_le((size / 0x1_0000_0000) as u32);
    append_bytes(&mut r, d.as_slice());
    r
}

/// Encode the answer to a property read: `[0][value:4 LE]`.
pub fn property_answer(value: u32) -> (r: Vec<u8>)
    ensures
        r@ == seq![0u8] + le32_bytes(value),
{
    let mut r: Vec<u8> = Vec::new();
    r.push(0u8);
    let v = u32_to_le(value);
    append_bytes(&mut r, v.as_slice());
    r
}

/// The answer to a verb the server does not know: `[1]`.
pub fn unknown_answer() -> (r: Vec<u8>)
    ensures
        r@ == seq![1u8],
{
    let mut r: Vec<u8> = Vec::new();
    r.push(1u8);
    assert(r@ =~= seq![1u8]);
    r
}

/// The lower-case hex digit for `d`.
pub open spec fn hex_digit(d: nat) -> u8 {
    if d < 10 { (48 + d) as u8 } else { (87 + d) as u8 }
}

/// The hex digits of `v`, most significant first, without leading zeros
/// (one `0` for zero).
pub open spec fn hex_spec(v: nat) -> Seq<u8>
    decreases v,
{
    if v < 16 {
        seq![hex_digit(v)]
    } else {
        hex_spec(v / 16) + seq![hex_digit(v % 16)]
    }
}

/// The hex digits of `v`, zero-padded on the left to `width` digits.
pub open spec fn hex_padded(v: nat, width: nat) -> Seq<u8> {
    let d = hex_spec(v);
    if d.len() >= width { d } else { Seq::new((width - d.len()) as nat, |i: int| 48u8) + d }
}

/// The hex digits of `v`.
pub fn hex_digits(v: u64) -> (r: Vec<u8>)
    ensures
        r@ == hex_spec(v as nat),
    decreases v,
{
    let d = (v % 16) as u8;
    let c: u8 = if d < 10 {
        48 + d
    } else {
        87 + d
    };
    if v < 16 {
        let mut r: Vec<u8> = Vec::new();
        r.push(c);
        assert(r@ =~= hex_spec(v as nat));
        r
    } else {
        let mut r = hex_digits(v / 16);
        r.push(c);
        assert(r@ =~= hex_spec(v as nat));
        r
    }
}

/// The hex digits of `v`, zero-padded to `width`.
pub fn hex_padded_digits(v: u64, width: usize) -> (r: Vec<u8>)
    ensures
        r@ == hex_padded(v as nat, width as nat),
{
    let d = hex_digits(v);
    if d.len() >= width {
        return d;
    }
    let mut r: Vec<u8> = Vec::new();
    let pad = width - d.len();
    let mut i: usize = 0;
    while i < pad
        invariant
            i <= pad,
            r@ == Seq::new(i as nat, |k: int| 48u8),
        decreases pad - i,
    {
        r.push(48u8);
        i = i + 1;
        assert(r@ =~= Seq::new(i as nat, |k: int| 48u8));
    }
    append_bytes(&mut r, d.as_slice());
    r
}

/// The memory line the server prints: `Memory: 0x<base, 8 digits at
/// least> (0x<size> bytes)` and a newline.
pub open spec fn memory_line_spec(base: u64, size: u64) -> Seq<u8> {
    seq![77u8, 101u8, 109u8, 111u8, 114u8, 121u8, 58u8, 32u8, 48u8, 120u8] + hex_padded(base as nat, 8)
        + seq![32u8, 40u8, 48u8, 120u8] + hex_spec(size as nat) + seq![
        32u8, 98u8, 121u8, 116u8, 101u8, 115u8, 41u8, 10u8,
    ]
}

/// The memory line for the ARM memory range `base`, `size`.
pub fn memory_line(base: u64, size: u64) -> (r: Vec<u8>)
    ensures
        r@ == memory_line_spec(base, size),
{
    let mut r: Vec<u8> = vec![77u8, 101u8, 109u8, 111u8, 114u8, 121u8, 58u8, 32u8, 48u8, 120u8];
    let b = hex_padded_digits(base, 8);
    append_bytes(&mut r, b.as_slice());
    let mid: Vec<u8> = vec![32u8, 40u8, 48u8, 120u8];
    append_bytes(&mut r, mid.as_slice());
    let s = hex_digits(size);
    append_bytes(&mut r, s.as_slice());
    let tail: Vec<u8> = vec![32u8, 98u8, 121u8, 116u8, 101u8, 115u8, 41u8, 10u8];
    append_bytes(&mut r, tail.as_slice());
    assert(r@ =~= memory_line_spec(base, size));
    r
}

} // verus!

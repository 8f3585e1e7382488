//! The console's byte discipline: what the locked console path and the
//! interrupt-safe `iprint` path put on the wire for the text they are
//! given.

use vstd::prelude::*;

verus! {

/// The control character for `b` (`^H` for `b'H'`).
pub fn ctrl(b: u8) -> (r: u8)
    requires
        b >= 64,
    ensures
        r == b - 64,
{
    b - 64
}

pub const BACKSPACE: u8 = 8;
pub const DELETE: u8 = 0x7F;
pub const CTLD: u8 = 4;
pub const CTLP: u8 = 16;
pub const CTLU: u8 = 21;

/// A UART: something that puts one byte on the wire.
pub trait Uart {
    fn putb(&self, b: u8);
}

/// The bytes the console puts on the wire for `b`: a newline is preceded
/// by a carriage return, and a backspace rubs out the character before it.
pub open spec fn console_expansion(b: u8) -> Seq<u8> {
    if b == 10 {
        seq![13u8, 10u8]
    } else if b == BACKSPACE {
        seq![b, 32u8, b]
    } else {
        seq![b]
    }
}

/// The bytes `iprint` puts on the wire for `b`: only the newline grows a
/// carriage return.
pub open spec fn iprint_expansion(b: u8) -> Seq<u8> {
    if b == 10 {
        seq![13u8, 10u8]
    } else {
        seq![b]
    }
}

/// The concatenation of `f` over every byte of `s`.
pub open spec fn expand_all(s: Seq<u8>, f: spec_fn(u8) -> Seq<u8>) -> Seq<u8>
    decreases s.len(),
{
    if s.len() == 0 {
        Seq::empty()
    } else {
        expand_all(s.drop_last(), f) + f(s.last())
    }
}

/// Put one byte on `uart` the way the console does.
pub fn putb<U: Uart>(uart: &U, b: u8) {
    if b == 10 {
        uart.putb(13);
    } else if b == BACKSPACE {
        uart.putb(b);
        uart.putb(32);
    }
    uart.putb(b);
}

/// The bytes the console writes for `s`.
pub fn console_bytes(s: &[u8]) -> (r: Vec<u8>)
    ensures
        r@ == expand_all(s@, |b: u8| console_expansion(b)),
{
    let mut out: Vec<u8> = Vec::new();
    let mut i: usize = 0;
    while i < s.len()
        invariant
            i <= s@.len(),
            out@ == expand_all(s@.subrange(0, i as int), |b: u8| console_expansion(b)),
        decreases s@.len() - i,
    {
        let b = s[i];
        if b == 10 {
            out.push(13);
        } else if b == BACKSPACE {
            out.push(b);
            out.push(32);
        }
        out.push(b);
        proof {
            let t = s@.subrange(0, i + 1);
            assert(t.drop_last() =~= s@.subrange(0, i as int));
            assert(t.last() == b);
        }
        i = i + 1;
    }
    assert(s@.subrange(0, s@.len() as int) =~= s@);
    out
}

/// The bytes `iprint` writes for `s`.
pub fn iprint_bytes(s: &[u8]) -> (r: Vec<u8>)
    ensures
        r@ == expand_all(s@, |b: u8| iprint_expansion(b)),
{
    let mut out: Vec<u8> = Vec::new();
    let mut i: usize = 0;
    while i < s.len()
        invariant
            i <= s@.len(),
            out@ == expand_all(s@.subrange(0, i as int), |b: u8| iprint_expansion(b)),
        decreases s@.len() - i,
    {
        let b = s[i];
        if b == 10 {
            out.push(13);
        }
        out.push(b);
        proof {
            let t = s@.subrange(0, i + 1);
            assert(t.drop_last() =~= s@.subrange(0, i as int));
            assert(t.last() == b);
        }
        i = i + 1;
    }
    assert(s@.subrange(0, s@.len() as int) =~= s@);
    out
}

/// What the locked console path writes for `s`: nothing once the console
/// server owns the terminal, nothing with no UART registered, and the
/// expanded text otherwise.
pub fn putstr_bytes(console_live: bool, uart_registered: bool, s: &[u8]) -> (r: Vec<u8>)
    ensures
        r@ == (if console_live || !uart_registered {
            Seq::empty()
        } else {
            expand_all(s@, |b: u8| console_expansion(b))
        }),
{
    if console_live || !uart_registered {
        return Vec::new();
    }
    console_bytes(s)
}

/// The kernel console's state: whether the console server owns the terminal
/// (from then on normal kernel output is dropped; the `iprint` path is
/// never gated), and whether a UART is registered.
pub struct Console {
    live: bool,
    uart_registered: bool,
}

impl Console {
    /// At boot: not live, no UART.
    pub fn new() -> (r: Self)
        ensures
            !r.is_live(),
            !r.has_uart(),
    {
        Console { live: false, uart_registered: false }
    }

    pub closed spec fn is_live(&self) -> bool {
        self.live
    }

    pub closed spec fn has_uart(&self) -> bool {
        self.uart_registered
    }

    /// Register the UART that the arch's constructor produced, or none when
    /// the constructor failed.
    pub fn set_uart(&mut self, registered: bool)
        ensures
            final(self).has_uart() == registered,
            final(self).is_live() == old(self).is_live(),
    {
        self.uart_registered = registered;
    }

    /// The bytes the locked console path puts on the UART for `s`.
    pub fn putstr(&self, s: &[u8]) -> (r: Vec<u8>)
        ensures
            r@ == (if self.is_live() || !self.has_uart() {
                Seq::empty()
            } else {
                expand_all(s@, |b: u8| console_expansion(b))
            }),
    {
        putstr_bytes(self.live, self.uart_registered, s)
    }
}

/// The console server is up: from now on normal kernel output is dropped.
/// One-way: nothing clears it.
pub fn set_console_live(console: &mut Console)
    ensures
        final(console).is_live(),
        final(console).has_uart() == old(console).has_uart(),
{
    console.live = true;
}

/// Expanding a concatenation is concatenating the expansions.
pub proof fn lemma_expand_concat(a: Seq<u8>, b: Seq<u8>, f: spec_fn(u8) -> Seq<u8>)
    ensures
        expand_all(a + b, f) == expand_all(a, f) + expand_all(b, f),
    decreases b.len(),
{
    if b.len() == 0 {
        assert(a + b =~= a);
        assert(expand_all(a, f) + expand_all(b, f) =~= expand_all(a, f));
    } else {
        lemma_expand_concat(a, b.drop_last(), f);
        assert((a + b).drop_last() =~= a + b.drop_last());
        assert((a + b).last() == b.last());
    }
}

} // verus!

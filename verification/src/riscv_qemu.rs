//! Leaving QEMU with a status on riscv64, for integration tests: the word
//! the kernel writes to the virt machine's sifive_test finisher.
//!
//! The finisher exits QEMU with zero for its pass word, and for its fail
//! word with the code held in the word's high half; a failure must never
//! carry a zero code, or it would exit zero as surely as a pass.

use vstd::prelude::*;

verus! {

/// The riscv64 code for a passing run.
pub const PASS: u32 = 0;
/// The riscv64 code for a failed run.
pub const FAIL: u32 = 1;
/// The finisher word that exits QEMU with zero.
pub const FINISHER_PASS: u32 = 0x5555;
/// The finisher word that exits QEMU with the code in its high half.
pub const FINISHER_FAIL: u32 = 0x3333;

/// The code a failure reports: `code` bounded to what the high half holds,
/// 1 to 0xffff.
pub open spec fn fail_code(code: u32) -> u32 {
    if code < 1 {
        1u32
    } else if code > 0xffff {
        0xffffu32
    } else {
        code
    }
}

/// The finisher word for `code`: the pass word for a pass, else the fail
/// word with the code, bounded to 1 to 0xffff, in the high half.
pub open spec fn finisher_word(code: u32) -> u32 {
    if code == PASS {
        FINISHER_PASS
    } else {
        FINISHER_FAIL | (fail_code(code) << 16u32)
    }
}

/// The word the riscv64 kernel writes to the finisher to stop the machine
/// with `code`.
pub fn exit(code: u32) -> (r: u32)
    ensures
        r == finisher_word(code),
{
    if code == PASS {
        FINISHER_PASS
    } else {
        let c: u32 = if code < 1 {
            1
        } else if code > 0xffff {
            0xffff
        } else {
            code
        };
        FINISHER_FAIL | (c << 16u32)
    }
}

/// The exit status QEMU takes from a finisher word: zero for the pass word,
/// the high half for the fail word.
pub open spec fn finisher_status(word: u32) -> u32 {
    if word == FINISHER_PASS {
        0
    } else {
        word >> 16u32
    }
}

/// A riscv64 run stops QEMU with zero exactly when it passed: a failure,
/// whatever its code, is never reported as zero.
pub proof fn lemma_riscv_failure_is_never_zero(code: u32)
    ensures
        (finisher_status(finisher_word(code)) == 0) <==> code == PASS,
        code != PASS ==> finisher_word(code) & 0xffffu32 == FINISHER_FAIL,
        code != PASS ==> finisher_status(finisher_word(code)) == fail_code(code),
{
    if code != PASS {
        let c: u32 = fail_code(code);
        assert(1 <= c < 0x10000);
        assert((0x3333u32 | (c << 16u32)) != 0x5555u32) by (bit_vector)
            requires
                1 <= c < 0x10000,
        ;
        assert(((0x3333u32 | (c << 16u32)) >> 16u32) == c) by (bit_vector)
            requires
                1 <= c < 0x10000,
        ;
        assert(((0x3333u32 | (c << 16u32)) & 0xffffu32) == 0x3333u32) by (bit_vector)
            requires
                1 <= c < 0x10000,
        ;
    }
}

} // verus!

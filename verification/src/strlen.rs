//! `strlen`: the number of bytes before the first zero byte.

use vstd::prelude::*;
use crate::word::{byte_of, load_word, word_bytes, word_size};

verus! {

/// Source language of an implementation (handy for bench display).
#[derive(Debug, Clone, Copy, PartialEq, Eq, Structural)]
pub enum Lang {
    C,
    Rust,
}

/// A C string starts at index `start` of `mem`: some byte at or after `start`
/// is zero.
pub open spec fn is_c_string(mem: Seq<u8>, start: int) -> bool {
    exists|t: int| start <= t < mem.len() && mem[t] == 0
}

/// `n` is the length of the C string at index `start` of `mem`: the `n` bytes
/// from `start` on are non-zero and the byte after them is zero.
pub open spec fn is_c_len(mem: Seq<u8>, start: int, n: int) -> bool {
    &&& 0 <= start
    &&& 0 <= n
    &&& start + n < mem.len()
    &&& mem[start + n] == 0
    &&& forall|j: int| start <= j < start + n ==> mem[j] != 0
}

/// `0x0101…01`: a 1 in the low bit of every byte.
const LO: usize = !0usize / 0xff;

/// `0x8080…80`: a 1 in the high bit of every byte.
const HI: usize = LO << 7;

/// Some byte of the machine word `w` is zero.
pub open spec fn contains_zero_byte(w: usize) -> bool {
    exists|k: usize| k < word_bytes() && #[trigger] byte_of(w, k) == 0
}

/// The word-at-a-time test, on the bits of the word: true exactly when one of
/// its bytes is zero. `d` is `x - LO` modulo the word size.
proof fn lemma_zero_byte_bits(x: usize, d: usize)
    requires
        usize::BITS == 64 ==> d == (if x < LO { (x - LO + 0x1_0000_0000_0000_0000) as usize } else { (x - LO) as usize }),
        usize::BITS == 32 ==> d == (if x < LO { (x - LO + 0x1_0000_0000) as usize } else { (x - LO) as usize }),
    ensures
        (d & !x & HI != 0) <==> (byte_of(x, 0) == 0 || byte_of(x, 1) == 0 || byte_of(x, 2) == 0
            || byte_of(x, 3) == 0 || (usize::BITS == 64 && (byte_of(x, 4) == 0 || byte_of(x, 5) == 0
            || byte_of(x, 6) == 0 || byte_of(x, 7) == 0))),
{
    assert((d & !x & HI != 0) <==> (byte_of(x, 0) == 0 || byte_of(x, 1) == 0 || byte_of(x, 2) == 0
            || byte_of(x, 3) == 0 || (usize::BITS == 64 && (byte_of(x, 4) == 0 || byte_of(x, 5) == 0
            || byte_of(x, 6) == 0 || byte_of(x, 7) == 0)))) by (bit_vector)
        requires
            usize::BITS == 64 ==> d == (if x < LO { (x - LO + 0x1_0000_0000_0000_0000) as usize } else { (x - LO) as usize }),
            usize::BITS == 32 ==> d == (if x < LO { (x - LO + 0x1_0000_0000) as usize } else { (x - LO) as usize }),
    ;
}

/// True if `x` contains at least one zero byte (classic SWAR trick).
pub fn has_zero_byte(x: usize) -> (r: bool)
    ensures
        r == contains_zero_byte(x),
{
    let d = x.wrapping_sub(LO);
    proof {
        assert(usize::BITS == 64 ==> usize::MAX == 0xffff_ffff_ffff_ffff);
        assert(usize::BITS == 32 ==> usize::MAX == 0xffff_ffff);
        lemma_zero_byte_bits(x, d);
        if usize::BITS == 64 {
            assert(word_bytes() == 8);
        } else {
            assert(word_bytes() == 4);
        }
        if exists|k: usize| k < word_bytes() && #[trigger] byte_of(x, k) == 0 {
            let k = choose|k: usize| k < word_bytes() && #[trigger] byte_of(x, k) == 0;
            assert(k == 0 || k == 1 || k == 2 || k == 3 || k == 4 || k == 5 || k == 6 || k == 7);
        }
    }
    d & !x & HI != 0
}

/// Naive scalar strlen: one byte at a time.
pub fn rust_naive(mem: &[u8], start: usize) -> (n: usize)
    requires
        is_c_string(mem@, start as int),
    ensures
        is_c_len(mem@, start as int, n as int),
{
    let ghost t = choose|t: int| start <= t < mem@.len() && mem@[t] == 0;
    let mut n: usize = 0;
    while mem[start + n] != 0
        invariant
            start <= start + n <= t < mem.len(),
            mem@[t] == 0,
            forall|j: int| start <= j < start + n ==> mem@[j] != 0,
        decreases t - (start + n),
    {
        n += 1;
    }
    n
}

/// Word-at-a-time (SWAR) strlen: processes a machine word per iteration with a
/// bitwise trick, after aligning the index to a word boundary.
///
/// The words read are aligned, so a word never reaches past the aligned word
/// that already holds the terminator; a buffer that ends before a whole word
/// is finished byte by byte.
pub fn rust_swar(mem: &[u8], start: usize) -> (n: usize)
    requires
        is_c_string(mem@, start as int),
    ensures
        is_c_len(mem@, start as int, n as int),
{
    let ghost t = choose|t: int| start <= t < mem@.len() && mem@[t] == 0;
    let w = word_size();
    let mut p = start;

    // Unaligned prefix: byte by byte until a word boundary.
    while p % w != 0
        invariant
            w == word_bytes(),
            w == 4 || w == 8,
            start <= p <= t < mem@.len(),
            mem@[t] == 0,
            forall|j: int| start <= j < p ==> mem@[j] != 0,
        decreases t - p,
    {
        if mem[p] == 0 {
            return p - start;
        }
        p += 1;
    }

    // Aligned body: one machine word at a time.
    loop
        invariant
            w == word_bytes(),
            p % w == 0,
            w == 4 || w == 8,
            start <= p <= t < mem@.len(),
            mem@[t] == 0,
            forall|j: int| start <= j < p ==> mem@[j] != 0,
        decreases t - p,
    {
        if w > mem.len() - p {
            // No whole word is left in the buffer.
            let r = rust_naive(mem, p);
            return (p - start) + r;
        }
        let word = load_word(mem, p);
        if has_zero_byte(word) {
            // The word contains a 0: locate the exact byte.
            let mut i: usize = 0;
            while i < w
                invariant
                    w == word_bytes(),
                    p + w <= mem.len(),
                    i <= w,
                    start <= p,
                    forall|j: int| start <= j < p + i ==> mem@[j] != 0,
                decreases w - i,
            {
                if mem[p + i] == 0 {
                    return p + i - start;
                }
                i += 1;
            }
        } else {
            assert forall|j: int| p <= j < p + w implies mem@[j] != 0 by {
                let k = (j - p) as usize;
                assert(byte_of(word, k) == mem@[p + k]);
            }
        }
        assert(p + w <= t) by {
            if t < p + w {
                assert(mem@[t] != 0);
            }
        }
        assert((p + w) % (w as int) == 0) by (nonlinear_arith)
            requires
                p % w == 0,
                w > 0,
        ;
        p = p + w;
    }
}

/// The implementations of `strlen` that are compared: the system libc
/// (`glibc`) and naive C versions, which are C code reached from outside this
/// library, and the Rust versions of this library, which share the contract
/// of [`StrlenFn::call`].
#[derive(Debug, Clone, Copy, PartialEq, Eq, Structural)]
pub enum StrlenFn {
    CGlibc,
    CNaive,
    RustNaive,
    RustSwar,
}

impl StrlenFn {
    /// This implementation is one of the library's Rust versions.
    pub open spec fn in_library(self) -> bool {
        self is RustNaive || self is RustSwar
    }

    /// Runs this implementation on the C string at index `start` of `mem`.
    pub fn call(self, mem: &[u8], start: usize) -> (n: usize)
        requires
            self.in_library(),
            is_c_string(mem@, start as int),
        ensures
            is_c_len(mem@, start as int, n as int),
    {
        match self {
            StrlenFn::RustNaive => rust_naive(mem, start),
            StrlenFn::RustSwar => rust_swar(mem, start),
            StrlenFn::CGlibc | StrlenFn::CNaive => {
                assert(false);
                0
            },
        }
    }
}

/// A named implementation, ready to be benchmarked or tested.
#[derive(Clone, Copy)]
pub struct Implementation {
    pub name: &'static str,
    pub lang: Lang,
    pub func: StrlenFn,
}

/// Returns all known implementations (C + Rust).
///
/// The first one (`c_glibc`) serves as the performance reference; all of them
/// must be functionally equivalent. The Rust ones are: each meets the contract
/// of [`StrlenFn::call`], which fixes the result.
pub fn implementations() -> (v: Vec<Implementation>)
    ensures
        v@.len() == 4,
        v@[0].name@ == "c_glibc"@,
        v@[0].lang == Lang::C,
        v@[0].func == StrlenFn::CGlibc,
        v@[1].name@ == "c_naive"@,
        v@[1].lang == Lang::C,
        v@[1].func == StrlenFn::CNaive,
        v@[2].name@ == "rust_naive"@,
        v@[2].lang == Lang::Rust,
        v@[2].func == StrlenFn::RustNaive,
        v@[3].name@ == "rust_swar"@,
        v@[3].lang == Lang::Rust,
        v@[3].func == StrlenFn::RustSwar,
{
    vec![
        Implementation { name: "c_glibc", lang: Lang::C, func: StrlenFn::CGlibc },
        Implementation { name: "c_naive", lang: Lang::C, func: StrlenFn::CNaive },
        Implementation { name: "rust_naive", lang: Lang::Rust, func: StrlenFn::RustNaive },
        Implementation { name: "rust_swar", lang: Lang::Rust, func: StrlenFn::RustSwar },
    ]
}

/// A C string has one length only: any two results that meet the contract
/// of [`StrlenFn::call`] are equal, so all implementations agree.
pub proof fn lemma_c_len_unique(mem: Seq<u8>, start: int, a: int, b: int)
    requires
        is_c_len(mem, start, a),
        is_c_len(mem, start, b),
    ensures
        a == b,
{
    if a < b {
        assert(mem[start + a] != 0);
    } else if b < a {
        assert(mem[start + b] != 0);
    }
}

/// Every C string has a length.
pub proof fn lemma_c_len_exists(mem: Seq<u8>, start: int)
    requires
        0 <= start,
        is_c_string(mem, start),
    ensures
        exists|n: int| #[trigger] is_c_len(mem, start, n),
    decreases mem.len() - start,
{
    if mem[start] == 0 {
        assert(is_c_len(mem, start, 0));
    } else {
        let t = choose|t: int| start <= t < mem.len() && mem[t] == 0;
        assert(start + 1 <= t);
        lemma_c_len_exists(mem, start + 1);
        let n = choose|n: int| #[trigger] is_c_len(mem, start + 1, n);
        assert(is_c_len(mem, start, n + 1));
    }
}

/// The length of a string made of `content` (no zero byte in it) and a
/// terminator is `content.len()`, whatever stands before it in memory (at
/// any alignment) and whatever follows the terminator.
pub proof fn lemma_c_len_of_content(prefix: Seq<u8>, content: Seq<u8>, rest: Seq<u8>, n: int)
    requires
        forall|i: int| 0 <= i < content.len() ==> content[i] != 0,
    ensures
        is_c_string(prefix + content + seq![0u8] + rest, prefix.len() as int),
        is_c_len(prefix + content + seq![0u8] + rest, prefix.len() as int, n) <==> n == content.len(),
{
    let mem = prefix + content + seq![0u8] + rest;
    let start = prefix.len() as int;
    assert(mem[start + content.len()] == 0);
    assert forall|j: int| start <= j < start + content.len() implies mem[j] != 0 by {
        assert(mem[j] == content[j - start]);
    }
    assert(is_c_len(mem, start, content.len() as int));
    if is_c_len(mem, start, n) {
        lemma_c_len_unique(mem, start, n, content.len() as int);
    }
}

} // verus!

//! `memcpy`: copies `n` bytes from one region to another, disjoint one.
//!
//! A region is a buffer and the index where it starts. The destination and
//! the source are distinct borrows, so they cannot overlap.

use vstd::prelude::*;
use crate::strlen::Lang;
use crate::word::{byte_of, load_word, store_word, word_bytes, word_size};

verus! {

/// What `dst` holds after the `n` bytes of `src` from `src_at` on are copied
/// to it at `dst_at`: those bytes take the place of `dst[dst_at..dst_at + n]`
/// and the rest of `dst` stays as it was.
pub open spec fn copied(dst: Seq<u8>, dst_at: int, src: Seq<u8>, src_at: int, n: int) -> Seq<u8> {
    dst.subrange(0, dst_at) + src.subrange(src_at, src_at + n) + dst.subrange(dst_at + n, dst.len() as int)
}

/// Both regions of `n` bytes lie inside their buffers.
pub open spec fn regions_fit(dst: Seq<u8>, dst_at: int, src: Seq<u8>, src_at: int, n: int) -> bool {
    &&& 0 <= dst_at
    &&& 0 <= src_at
    &&& 0 <= n
    &&& dst_at + n <= dst.len()
    &&& src_at + n <= src.len()
}

/// Naive scalar memcpy: one byte at a time.
pub fn rust_naive(dst: &mut [u8], dst_at: usize, src: &[u8], src_at: usize, n: usize)
    requires
        regions_fit(old(dst)@, dst_at as int, src@, src_at as int, n as int),
    ensures
        final(dst)@ == copied(old(dst)@, dst_at as int, src@, src_at as int, n as int),
{
    let mut i: usize = 0;
    while i < n
        invariant
            i <= n,
            dst_at + n <= dst.len(),
            src_at + n <= src.len(),
            dst@.len() == old(dst)@.len(),
            forall|j: int|
                0 <= j < dst@.len() ==> #[trigger] dst@[j] == if dst_at <= j < dst_at + i {
                    src@[src_at + (j - dst_at)]
                } else {
                    old(dst)@[j]
                },
        decreases n - i,
    {
        dst[dst_at + i] = src[src_at + i];
        i += 1;
    }
    assert(dst@ =~= copied(old(dst)@, dst_at as int, src@, src_at as int, n as int));
}

/// Word-at-a-time memcpy: copies a machine word per iteration through
/// unaligned word reads and writes, then finishes the remaining bytes one at
/// a time.
pub fn rust_word(dst: &mut [u8], dst_at: usize, src: &[u8], src_at: usize, n: usize)
    requires
        regions_fit(old(dst)@, dst_at as int, src@, src_at as int, n as int),
    ensures
        final(dst)@ == copied(old(dst)@, dst_at as int, src@, src_at as int, n as int),
{
    let w = word_size();
    let mut i: usize = 0;

    // Body: full machine words.
    while w <= n - i
        invariant
            w == word_bytes(),
            i <= n,
            dst_at + n <= dst.len(),
            src_at + n <= src.len(),
            dst@.len() == old(dst)@.len(),
            forall|j: int|
                0 <= j < dst@.len() ==> #[trigger] dst@[j] == if dst_at <= j < dst_at + i {
                    src@[src_at + (j - dst_at)]
                } else {
                    old(dst)@[j]
                },
        decreases n - i,
    {
        let word = load_word(src, src_at + i);
        store_word(dst, dst_at + i, word);
        assert forall|j: int| 0 <= j < dst@.len() implies #[trigger] dst@[j] == if dst_at <= j < dst_at + (i + w) {
            src@[src_at + (j - dst_at)]
        } else {
            old(dst)@[j]
        } by {
            if dst_at + i <= j < dst_at + i + w {
                let k = (j - (dst_at + i)) as usize;
                assert(byte_of(word, k) == src@[src_at + i + k]);
            }
        }
        i += w;
    }

    // Tail: leftover bytes (fewer than a word).
    while i < n
        invariant
            i <= n,
            dst_at + n <= dst.len(),
            src_at + n <= src.len(),
            dst@.len() == old(dst)@.len(),
            forall|j: int|
                0 <= j < dst@.len() ==> #[trigger] dst@[j] == if dst_at <= j < dst_at + i {
                    src@[src_at + (j - dst_at)]
                } else {
                    old(dst)@[j]
                },
        decreases n - i,
    {
        dst[dst_at + i] = src[src_at + i];
        i += 1;
    }
    assert(dst@ =~= copied(old(dst)@, dst_at as int, src@, src_at as int, n as int));
}

/// The implementations of `memcpy` that are compared: the system libc
/// (`glibc`) and naive C versions, which are C code reached from outside this
/// library, and the Rust versions of this library, which share the contract
/// of [`MemcpyFn::call`].
#[derive(Debug, Clone, Copy, PartialEq, Eq, Structural)]
pub enum MemcpyFn {
    CGlibc,
    CNaive,
    RustNaive,
    RustWord,
}

impl MemcpyFn {
    /// This implementation is one of the library's Rust versions.
    pub open spec fn in_library(self) -> bool {
        self is RustNaive || self is RustWord
    }

    /// Runs this implementation: copies `n` bytes of `src` from `src_at` on to
    /// `dst` at `dst_at`.
    pub fn call(self, dst: &mut [u8], dst_at: usize, src: &[u8], src_at: usize, n: usize)
        requires
            self.in_library(),
            regions_fit(old(dst)@, dst_at as int, src@, src_at as int, n as int),
        ensures
            final(dst)@ == copied(old(dst)@, dst_at as int, src@, src_at as int, n as int),
    {
        match self {
            MemcpyFn::RustNaive => rust_naive(dst, dst_at, src, src_at, n),
            MemcpyFn::RustWord => rust_word(dst, dst_at, src, src_at, n),
            MemcpyFn::CGlibc | MemcpyFn::CNaive => {
                assert(false);
            },
        }
    }
}

/// A named implementation, ready to be benchmarked or tested.
#[derive(Clone, Copy)]
pub struct Implementation {
    pub name: &'static str,
    pub lang: Lang,
    pub func: MemcpyFn,
}

/// Returns all known implementations (C + Rust).
pub fn implementations() -> (v: Vec<Implementation>)
    ensures
        v@.len() == 4,
        v@[0].name@ == "c_glibc"@,
        v@[0].lang == Lang::C,
        v@[0].func == MemcpyFn::CGlibc,
        v@[1].name@ == "c_naive"@,
        v@[1].lang == Lang::C,
        v@[1].func == MemcpyFn::CNaive,
        v@[2].name@ == "rust_naive"@,
        v@[2].lang == Lang::Rust,
        v@[2].func == MemcpyFn::RustNaive,
        v@[3].name@ == "rust_word"@,
        v@[3].lang == Lang::Rust,
        v@[3].func == MemcpyFn::RustWord,
{
    vec![
        Implementation { name: "c_glibc", lang: Lang::C, func: MemcpyFn::CGlibc },
        Implementation { name: "c_naive", lang: Lang::C, func: MemcpyFn::CNaive },
        Implementation { name: "rust_naive", lang: Lang::Rust, func: MemcpyFn::RustNaive },
        Implementation { name: "rust_word", lang: Lang::Rust, func: MemcpyFn::RustWord },
    ]
}

/// After a copy, the `n` bytes of the destination region equal those of the
/// source region, and the destination keeps its length.
pub proof fn lemma_copy_content(dst: Seq<u8>, dst_at: int, src: Seq<u8>, src_at: int, n: int)
    requires
        regions_fit(dst, dst_at, src, src_at, n),
    ensures
        copied(dst, dst_at, src, src_at, n).len() == dst.len(),
        copied(dst, dst_at, src, src_at, n).subrange(dst_at, dst_at + n) == src.subrange(src_at, src_at + n),
{
    assert(copied(dst, dst_at, src, src_at, n).subrange(dst_at, dst_at + n) =~= src.subrange(src_at, src_at + n));
}

/// A copy writes nothing outside the destination region: every byte before
/// or after it keeps its value.
pub proof fn lemma_copy_writes_only_region(dst: Seq<u8>, dst_at: int, src: Seq<u8>, src_at: int, n: int, i: int)
    requires
        regions_fit(dst, dst_at, src, src_at, n),
        0 <= i < dst.len(),
        i < dst_at || dst_at + n <= i,
    ensures
        copied(dst, dst_at, src, src_at, n)[i] == dst[i],
{
}

/// Copying zero bytes changes nothing, wherever the regions start.
pub proof fn lemma_copy_zero_is_noop(dst: Seq<u8>, dst_at: int, src: Seq<u8>, src_at: int)
    requires
        regions_fit(dst, dst_at, src, src_at, 0),
    ensures
        copied(dst, dst_at, src, src_at, 0) == dst,
{
    assert(copied(dst, dst_at, src, src_at, 0) =~= dst);
}

} // verus!

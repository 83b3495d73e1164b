//! Machine words seen as sequences of bytes.

use vstd::prelude::*;

verus! {

/// Number of bytes in a machine word (`size_of::<usize>()`).
pub open spec fn word_bytes() -> nat {
    (usize::BITS / 8) as nat
}

/// Byte number `k` of `w`, counting from the least significant one.
pub open spec fn byte_of(w: usize, k: usize) -> u8 {
    ((w >> ((8 * k) as usize)) & 0xff) as u8
}

/// The number of bytes in a machine word.
pub fn word_size() -> (n: usize)
    ensures
        n == word_bytes(),
        n == 4 || n == 8,
{
    (usize::BITS / 8) as usize
}

/// Or-ing byte `b` in at position `k` of a word whose bytes from `k` up are
/// zero sets byte `k` to `b` and leaves the lower bytes alone.
proof fn lemma_insert_byte(w: usize, b: usize, k: usize, j: usize)
    requires
        8 * k < usize::BITS,
        b < 256,
        w >> ((8 * k) as usize) == 0,
    ensures
        j < k ==> byte_of(w | (b << ((8 * k) as usize)), j) == byte_of(w, j),
        byte_of(w | (b << ((8 * k) as usize)), k) == b,
        8 * (k + 1) < usize::BITS ==> (w | (b << ((8 * k) as usize))) >> ((8 * (k + 1)) as usize) == 0,
{
    assert(j < k ==> byte_of(w | (b << ((8 * k) as usize)), j) == byte_of(w, j)) by (bit_vector)
        requires
            8 * k < usize::BITS,
            b < 256,
            w >> ((8 * k) as usize) == 0,
    ;
    assert(byte_of(w | (b << ((8 * k) as usize)), k) == b) by (bit_vector)
        requires
            8 * k < usize::BITS,
            b < 256,
            w >> ((8 * k) as usize) == 0,
    ;
    assert(8 * (k + 1) < usize::BITS ==> (w | (b << ((8 * k) as usize))) >> ((8 * (k + 1)) as usize) == 0) by (bit_vector)
        requires
            8 * k < usize::BITS,
            b < 256,
            w >> ((8 * k) as usize) == 0,
    ;
}

/// A machine word is determined by its bytes: two words whose bytes agree are
/// equal. So [`load_word`] gives back the word that [`store_word`] wrote.
pub proof fn lemma_word_from_bytes(a: usize, b: usize)
    requires
        forall|k: usize| k < word_bytes() ==> #[trigger] byte_of(a, k) == byte_of(b, k),
    ensures
        a == b,
{
    assert(usize::BITS == 64 || usize::BITS == 32);
    assert(byte_of(a, 0) == byte_of(b, 0));
    assert(byte_of(a, 1) == byte_of(b, 1));
    assert(byte_of(a, 2) == byte_of(b, 2));
    assert(byte_of(a, 3) == byte_of(b, 3));
    if usize::BITS == 64 {
        assert(byte_of(a, 4) == byte_of(b, 4));
        assert(byte_of(a, 5) == byte_of(b, 5));
        assert(byte_of(a, 6) == byte_of(b, 6));
        assert(byte_of(a, 7) == byte_of(b, 7));
    }
    assert(a == b) by (bit_vector)
        requires
            usize::BITS == 64 || usize::BITS == 32,
            byte_of(a, 0) == byte_of(b, 0),
            byte_of(a, 1) == byte_of(b, 1),
            byte_of(a, 2) == byte_of(b, 2),
            byte_of(a, 3) == byte_of(b, 3),
            usize::BITS == 64 ==> byte_of(a, 4) == byte_of(b, 4) && byte_of(a, 5) == byte_of(b, 5)
                && byte_of(a, 6) == byte_of(b, 6) && byte_of(a, 7) == byte_of(b, 7),
    ;
}

/// Reads the machine word whose bytes, least significant first, are
/// `bytes[at..at + word_bytes()]`: the safe form of an unaligned word read.
pub fn load_word(bytes: &[u8], at: usize) -> (w: usize)
    requires
        at + word_bytes() <= bytes@.len(),
    ensures
        forall|k: usize| k < word_bytes() ==> #[trigger] byte_of(w, k) == bytes@[at + k],
{
    let n = word_size();
    let mut w: usize = 0;
    let mut k: usize = 0;
    assert(0usize >> 0usize == 0) by (bit_vector);
    while k < n
        invariant
            n == word_bytes(),
            n == 4 || n == 8,
            k <= n,
            at + n <= bytes.len(),
            forall|j: usize| j < k ==> #[trigger] byte_of(w, j) == bytes@[at + j],
            k < n ==> w >> ((8 * k) as usize) == 0,
        decreases n - k,
    {
        let b = bytes[at + k] as usize;
        assert forall|j: usize| j < k + 1 implies #[trigger] byte_of(w | (b << ((8 * k) as usize)), j) == bytes@[at + j] by {
            lemma_insert_byte(w, b, k, j);
        }
        proof {
            lemma_insert_byte(w, b, k, k);
        }
        w = w | (b << (8 * k));
        k = k + 1;
    }
    w
}

/// Writes the bytes of `w`, least significant first, to
/// `bytes[at..at + word_bytes()]` and leaves the other bytes alone: the safe
/// form of an unaligned word write.
pub fn store_word(bytes: &mut [u8], at: usize, w: usize)
    requires
        at + word_bytes() <= old(bytes)@.len(),
    ensures
        final(bytes)@.len() == old(bytes)@.len(),
        forall|i: int|
            0 <= i < old(bytes)@.len() ==> #[trigger] final(bytes)@[i] == if at <= i < at + word_bytes() {
                byte_of(w, (i - at) as usize)
            } else {
                old(bytes)@[i]
            },
{
    let n = word_size();
    let mut k: usize = 0;
    while k < n
        invariant
            n == word_bytes(),
            n == 4 || n == 8,
            k <= n,
            at + n <= bytes.len(),
            bytes@.len() == old(bytes)@.len(),
            forall|i: int|
                0 <= i < old(bytes)@.len() ==> #[trigger] bytes@[i] == if at <= i < at + k {
                    byte_of(w, (i - at) as usize)
                } else {
                    old(bytes)@[i]
                },
        decreases n - k,
    {
        bytes[at + k] = ((w >> (8 * k)) & 0xff) as u8;
        k = k + 1;
    }
}

} // verus!

//! Runtime helpers: string hashing, UTF-8 lengths, byte slice equality and
//! the platform word size.
use vstd::prelude::*;
use crate::ptr::{LeanPtr, box_spec};

verus! {

/// The multiplier of the hash.
pub const HASH_M: u64 = 0xc6a4a7935bd1e995;
/// The shift of the hash.
pub const HASH_R: u64 = 47;

/// The 8-byte little-endian word of `s` at `off`.
pub open spec fn le_word_at(s: Seq<u8>, off: int) -> u64 {
    (s[off] as u64) | ((s[off + 1] as u64) << 8u64) | ((s[off + 2] as u64) << 16u64) | ((s[off
        + 3] as u64) << 24u64) | ((s[off + 4] as u64) << 32u64) | ((s[off + 5] as u64) << 40u64)
        | ((s[off + 6] as u64) << 48u64) | ((s[off + 7] as u64) << 56u64)
}

/// A block word mixed before it enters the hash.
pub open spec fn mix_block(k: u64) -> u64 {
    let k1 = k.wrapping_mul(HASH_M);
    let k2 = k1 ^ (k1 >> HASH_R);
    k2.wrapping_mul(HASH_M)
}

/// The hash state after the first `n` 8-byte blocks of `s`, from `h0`.
pub open spec fn hash_blocks(s: Seq<u8>, n: nat, h0: u64) -> u64
    decreases n,
{
    if n == 0 {
        h0
    } else {
        let h = hash_blocks(s, (n - 1) as nat, h0);
        (h ^ mix_block(le_word_at(s, (n - 1) * 8))).wrapping_mul(HASH_M)
    }
}

/// The hash state after the last `rem` (fewer than 8) bytes of `s`, from
/// `base` on.
pub open spec fn hash_tail(s: Seq<u8>, base: int, rem: int, h: u64) -> u64 {
    let h7 = if rem >= 7 {
        h ^ ((s[base + 6] as u64) << 48u64)
    } else {
        h
    };
    let h6 = if rem >= 6 {
        h7 ^ ((s[base + 5] as u64) << 40u64)
    } else {
        h7
    };
    let h5 = if rem >= 5 {
        h6 ^ ((s[base + 4] as u64) << 32u64)
    } else {
        h6
    };
    let h4 = if rem >= 4 {
        h5 ^ ((s[base + 3] as u64) << 24u64)
    } else {
        h5
    };
    let h3 = if rem >= 3 {
        h4 ^ ((s[base + 2] as u64) << 16u64)
    } else {
        h4
    };
    let h2 = if rem >= 2 {
        h3 ^ ((s[base + 1] as u64) << 8u64)
    } else {
        h3
    };
    if rem >= 1 {
        (h2 ^ (s[base] as u64)).wrapping_mul(HASH_M)
    } else {
        h2
    }
}

/// The final scrambling of the hash state.
pub open spec fn hash_finish(h: u64) -> u64 {
    let h1 = h ^ (h >> HASH_R);
    let h2 = h1.wrapping_mul(HASH_M);
    h2 ^ (h2 >> HASH_R)
}

/// The 64-bit MurmurHash2 (variant 64A) of the first `len` bytes of `s`,
/// with seed `seed`, reading each 8-byte block little-endian.
pub open spec fn murmur_hash64a(s: Seq<u8>, len: nat, seed: u64) -> u64 {
    let h0 = seed ^ (len as u64).wrapping_mul(HASH_M);
    let nblocks = len / 8;
    hash_finish(hash_tail(s, (nblocks * 8) as int, (len % 8) as int, hash_blocks(s, nblocks, h0)))
}

/// The number that the `n` bytes of `s` from `off` on stand for, the first
/// byte the least significant.
pub open spec fn le_value(s: Seq<u8>, off: int, n: nat) -> nat
    decreases n,
{
    if n == 0 {
        0
    } else {
        s[off] as nat + 256 * le_value(s, off + 1, (n - 1) as nat)
    }
}

/// A block is read as the number its eight bytes stand for, the first byte
/// the least significant.
pub proof fn lemma_block_word_is_le_value(s: Seq<u8>, off: int)
    ensures
        le_word_at(s, off) as nat == le_value(s, off, 8),
{
    reveal_with_fuel(le_value, 9);
    let b0 = s[off];
    let b1 = s[off + 1];
    let b2 = s[off + 2];
    let b3 = s[off + 3];
    let b4 = s[off + 4];
    let b5 = s[off + 5];
    let b6 = s[off + 6];
    let b7 = s[off + 7];
    assert(((b0 as u64) | ((b1 as u64) << 8u64) | ((b2 as u64) << 16u64) | ((b3 as u64) << 24u64)
        | ((b4 as u64) << 32u64) | ((b5 as u64) << 40u64) | ((b6 as u64) << 48u64) | ((b7 as u64)
        << 56u64)) as int == b0 as int + 256 * (b1 as int + 256 * (b2 as int + 256 * (b3 as int + 256
        * (b4 as int + 256 * (b5 as int + 256 * (b6 as int + 256 * (b7 as int + 256 * 0))))))))
        by (bit_vector);
}

/// The last `rem` bytes (fewer than 8) enter the hash as MurmurHash64A has
/// them: the number they stand for, the first byte the least significant,
/// is mixed into the state, which is then multiplied; with no bytes left
/// the state is unchanged.
pub proof fn lemma_tail_mixes_le_value(s: Seq<u8>, base: int, rem: int, h: u64)
    requires
        0 <= rem < 8,
    ensures
        hash_tail(s, base, rem, h) == (if rem == 0 {
            h
        } else {
            (h ^ (le_value(s, base, rem as nat) as u64)).wrapping_mul(HASH_M)
        }),
{
    reveal_with_fuel(le_value, 8);
    let b0 = s[base] as u64;
    let b1 = s[base + 1] as u64;
    let b2 = s[base + 2] as u64;
    let b3 = s[base + 3] as u64;
    let b4 = s[base + 4] as u64;
    let b5 = s[base + 5] as u64;
    let b6 = s[base + 6] as u64;
    if rem == 1 {
        assert(le_value(s, base, 1) == b0);
    } else if rem == 2 {
        assert(le_value(s, base, 2) == b0 + 256 * b1);
        assert((h ^ (b1 << 8u64)) ^ b0 == h ^ ((b0 + 256 * b1) as u64)) by (bit_vector)
            requires
                b0 < 256,
                b1 < 256,
        ;
    } else if rem == 3 {
        assert(le_value(s, base, 3) == b0 + 256 * (b1 + 256 * b2));
        assert(((h ^ (b2 << 16u64)) ^ (b1 << 8u64)) ^ b0 == h ^ ((b0 + 256 * (b1 + 256 * b2)) as u64))
            by (bit_vector)
            requires
                b0 < 256,
                b1 < 256,
                b2 < 256,
        ;
    } else if rem == 4 {
        assert(le_value(s, base, 4) == b0 + 256 * (b1 + 256 * (b2 + 256 * b3)));
        assert((((h ^ (b3 << 24u64)) ^ (b2 << 16u64)) ^ (b1 << 8u64)) ^ b0 == h ^ ((b0 + 256 * (b1
            + 256 * (b2 + 256 * b3))) as u64)) by (bit_vector)
            requires
                b0 < 256,
                b1 < 256,
                b2 < 256,
                b3 < 256,
        ;
    } else if rem == 5 {
        assert(le_value(s, base, 5) == b0 + 256 * (b1 + 256 * (b2 + 256 * (b3 + 256 * b4))));
        assert(((((h ^ (b4 << 32u64)) ^ (b3 << 24u64)) ^ (b2 << 16u64)) ^ (b1 << 8u64)) ^ b0 == h
            ^ ((b0 + 256 * (b1 + 256 * (b2 + 256 * (b3 + 256 * b4)))) as u64)) by (bit_vector)
            requires
                b0 < 256,
                b1 < 256,
                b2 < 256,
                b3 < 256,
                b4 < 256,
        ;
    } else if rem == 6 {
        assert(le_value(s, base, 6) == b0 + 256 * (b1 + 256 * (b2 + 256 * (b3 + 256 * (b4 + 256
            * b5)))));
        assert((((((h ^ (b5 << 40u64)) ^ (b4 << 32u64)) ^ (b3 << 24u64)) ^ (b2 << 16u64)) ^ (b1
            << 8u64)) ^ b0 == h ^ ((b0 + 256 * (b1 + 256 * (b2 + 256 * (b3 + 256 * (b4 + 256
            * b5))))) as u64)) by (bit_vector)
            requires
                b0 < 256,
                b1 < 256,
                b2 < 256,
                b3 < 256,
                b4 < 256,
                b5 < 256,
        ;
    } else if rem == 7 {
        assert(le_value(s, base, 7) == b0 + 256 * (b1 + 256 * (b2 + 256 * (b3 + 256 * (b4 + 256
            * (b5 + 256 * b6))))));
        assert(((((((h ^ (b6 << 48u64)) ^ (b5 << 40u64)) ^ (b4 << 32u64)) ^ (b3 << 24u64)) ^ (b2
            << 16u64)) ^ (b1 << 8u64)) ^ b0 == h ^ ((b0 + 256 * (b1 + 256 * (b2 + 256 * (b3 + 256
            * (b4 + 256 * (b5 + 256 * b6)))))) as u64)) by (bit_vector)
            requires
                b0 < 256,
                b1 < 256,
                b2 < 256,
                b3 < 256,
                b4 < 256,
                b5 < 256,
                b6 < 256,
        ;
    }
}

/// The word of `s` at `off`, read little-endian.
fn read_le_word(s: &[u8], off: usize) -> (r: u64)
    requires
        off + 8 <= s@.len(),
    ensures
        r == le_word_at(s@, off as int),
{
    (s[off] as u64) | ((s[off + 1] as u64) << 8u64) | ((s[off + 2] as u64) << 16u64) | ((s[off
        + 3] as u64) << 24u64) | ((s[off + 4] as u64) << 32u64) | ((s[off + 5] as u64) << 40u64)
        | ((s[off + 6] as u64) << 48u64) | ((s[off + 7] as u64) << 56u64)
}

/// The hash of the first `len` bytes of `s` with seed `init_value`.
pub fn hash_str_rs(len: usize, s: &[u8], init_value: u64) -> (r: u64)
    requires
        len <= s@.len(),
    ensures
        r == murmur_hash64a(s@, len as nat, init_value),
{
    let h0 = init_value ^ (len as u64).wrapping_mul(HASH_M);
    let nblocks = len / 8;
    let mut h = h0;
    let mut i: usize = 0;
    while i < nblocks
        invariant
            i <= nblocks,
            nblocks == len / 8,
            len <= s@.len(),
            h == hash_blocks(s@, i as nat, h0),
        decreases nblocks - i,
    {
        let mut k = read_le_word(s, i * 8);
        k = k.wrapping_mul(HASH_M);
        k = k ^ (k >> HASH_R);
        k = k.wrapping_mul(HASH_M);
        h = h ^ k;
        h = h.wrapping_mul(HASH_M);
        i = i + 1;
    }
    let base = nblocks * 8;
    let rem = len & 7;
    proof {
        assert(len & 7 == len % 8) by (bit_vector);
    }
    if rem >= 7 {
        h = h ^ ((s[base + 6] as u64) << 48u64);
    }
    if rem >= 6 {
        h = h ^ ((s[base + 5] as u64) << 40u64);
    }
    if rem >= 5 {
        h = h ^ ((s[base + 4] as u64) << 32u64);
    }
    if rem >= 4 {
        h = h ^ ((s[base + 3] as u64) << 24u64);
    }
    if rem >= 3 {
        h = h ^ ((s[base + 2] as u64) << 16u64);
    }
    if rem >= 2 {
        h = h ^ ((s[base + 1] as u64) << 8u64);
    }
    if rem >= 1 {
        h = h ^ (s[base] as u64);
        h = h.wrapping_mul(HASH_M);
    }
    h = h ^ (h >> HASH_R);
    h = h.wrapping_mul(HASH_M);
    h = h ^ (h >> HASH_R);
    h
}

/// The number of bytes of the UTF-8 sequence that starts with `c` (a
/// malformed first byte counts as one).
pub open spec fn utf8_size_spec(c: u8) -> u32 {
    if c & 0x80 == 0 {
        1
    } else if c & 0xe0 == 0xc0 {
        2
    } else if c & 0xf0 == 0xe0 {
        3
    } else if c & 0xf8 == 0xf0 {
        4
    } else if c & 0xfc == 0xf8 {
        5
    } else if c & 0xfe == 0xfc {
        6
    } else {
        1
    }
}

/// A UTF-8 sequence is one to six bytes long.
pub proof fn lemma_utf8_size_bounds(c: u8)
    ensures
        1 <= utf8_size_spec(c) <= 6,
{
}

/// The number of bytes of the UTF-8 sequence that starts with `c`.
pub fn utf8_size(c: u8) -> (r: u32)
    ensures
        r == utf8_size_spec(c),
        1 <= r <= 6,
{
    if (c & 0x80) == 0 {
        1
    } else if (c & 0xe0) == 0xc0 {
        2
    } else if (c & 0xf0) == 0xe0 {
        3
    } else if (c & 0xf8) == 0xf0 {
        4
    } else if (c & 0xfc) == 0xf8 {
        5
    } else if (c & 0xfe) == 0xfc {
        6
    } else {
        1
    }
}

/// The number of characters met walking `s` from byte `p`, one character
/// at a time, up to a 0 byte at a character start; `None` when the walk
/// leaves `s` first.
pub open spec fn utf8_strlen_from(s: Seq<u8>, p: nat) -> Option<nat>
    decreases s.len() + 6 - p,
{
    if p >= s.len() {
        None
    } else if s[p as int] == 0 {
        Some(0)
    } else {
        proof {
            lemma_utf8_size_bounds(s[p as int]);
        }
        match utf8_strlen_from(s, p + utf8_size_spec(s[p as int]) as nat) {
            Some(n) => Some(n + 1),
            None => None,
        }
    }
}

/// The number of characters of the 0-terminated UTF-8 string at the start
/// of `s`.
pub fn lean_utf8_strlen_rs(s: &[u8]) -> (r: usize)
    requires
        utf8_strlen_from(s@, 0) is Some,
    ensures
        r == utf8_strlen_from(s@, 0)->Some_0,
{
    let mut r: usize = 0;
    let mut p: usize = 0;
    while s[p] != 0
        invariant
            p < s@.len(),
            r <= p,
            utf8_strlen_from(s@, p as nat) is Some,
            r + utf8_strlen_from(s@, p as nat)->Some_0 == utf8_strlen_from(s@, 0)->Some_0,
        decreases s@.len() - p,
    {
        let sz = utf8_size(s[p]);
        proof {
            assert(utf8_strlen_from(s@, (p + sz) as nat) is Some);
        }
        r = r + 1;
        p = p + sz as usize;
        proof {
            if p >= s@.len() {
                assert(utf8_strlen_from(s@, p as nat) is None);
            }
        }
    }
    r
}

/// The number of characters met walking `s` from byte `i`, one character
/// at a time, while below `sz`.
pub open spec fn utf8_n_strlen_from(s: Seq<u8>, sz: nat, i: nat) -> nat
    decreases sz + 6 - i,
{
    if i >= sz {
        0
    } else {
        proof {
            lemma_utf8_size_bounds(s[i as int]);
        }
        1 + utf8_n_strlen_from(s, sz, i + utf8_size_spec(s[i as int]) as nat)
    }
}

/// The number of characters of the first `sz` bytes of the UTF-8 string
/// `s`.
pub fn lean_utf8_n_strlen_rs(s: &[u8], sz: usize) -> (r: usize)
    requires
        sz <= s@.len(),
        sz + 6 <= usize::MAX,
    ensures
        r == utf8_n_strlen_from(s@, sz as nat, 0),
{
    let mut r: usize = 0;
    let mut i: usize = 0;
    while i < sz
        invariant
            sz <= s@.len(),
            sz + 6 <= usize::MAX,
            i <= sz + 6,
            r <= i,
            r + utf8_n_strlen_from(s@, sz as nat, i as nat) == utf8_n_strlen_from(
                s@,
                sz as nat,
                0,
            ),
        decreases sz + 6 - i,
    {
        let d = utf8_size(s[i]);
        r = r + 1;
        i = i + d as usize;
    }
    r
}

/// Where the walk of `utf8_strlen_from` from byte `p` stops: at the first
/// 0 byte met at a character start; `None` when it leaves `s` first.
pub open spec fn utf8_walk_end(s: Seq<u8>, p: nat) -> Option<nat>
    decreases s.len() + 6 - p,
{
    if p >= s.len() {
        None
    } else if s[p as int] == 0 {
        Some(p)
    } else {
        proof {
            lemma_utf8_size_bounds(s[p as int]);
        }
        utf8_walk_end(s, p + utf8_size_spec(s[p as int]) as nat)
    }
}

proof fn lemma_walk_end_after(s: Seq<u8>, p: nat)
    ensures
        utf8_walk_end(s, p) matches Some(x) ==> p <= x,
    decreases s.len() + 6 - p,
{
    if p < s.len() && s[p as int] != 0 {
        lemma_utf8_size_bounds(s[p as int]);
        lemma_walk_end_after(s, p + utf8_size_spec(s[p as int]) as nat);
    }
}

proof fn lemma_lengths_agree_from(s: Seq<u8>, p: nat, sz: nat)
    requires
        utf8_walk_end(s, p) == Some(sz),
    ensures
        utf8_strlen_from(s, p) == Some(utf8_n_strlen_from(s, sz, p)),
    decreases s.len() + 6 - p,
{
    lemma_walk_end_after(s, p);
    if s[p as int] != 0 {
        lemma_utf8_size_bounds(s[p as int]);
        let q = p + utf8_size_spec(s[p as int]) as nat;
        lemma_walk_end_after(s, q);
        lemma_lengths_agree_from(s, q, sz);
    }
}

/// For a 0-terminated UTF-8 string whose first 0 at a character start is
/// byte `sz`, the length up to the 0 and the length of the first `sz` bytes
/// are the same.
pub proof fn lemma_utf8_lengths_agree(s: Seq<u8>, sz: nat)
    requires
        utf8_walk_end(s, 0) == Some(sz),
    ensures
        utf8_strlen_from(s, 0) == Some(utf8_n_strlen_from(s, sz, 0)),
{
    lemma_lengths_agree_from(s, 0, sz);
}

/// The box of `n`.
pub fn lean_box_usize(n: usize) -> (r: LeanPtr)
    ensures
        r.0 == box_spec(n),
{
    LeanPtr(crate::ptr::box_bits(n))
}

/// The number of bits of a machine word, boxed.
pub fn lean_system_platform_nbits_rs() -> (r: LeanPtr)
    ensures
        r.0 == box_spec(usize::BITS as usize),
{
    lean_box_usize(usize::BITS as usize)
}

/// A slice `array[start .. stop]` of a byte array.
pub struct ByteSlice {
    pub array: Vec<u8>,
    pub start: usize,
    pub stop: usize,
}

impl ByteSlice {
    /// The slice lies within its array.
    pub open spec fn valid(&self) -> bool {
        self.start <= self.stop <= self.array@.len()
    }

    /// The bytes of the slice.
    pub open spec fn bytes(&self) -> Seq<u8> {
        self.array@.subrange(self.start as int, self.stop as int)
    }
}

/// Whether two byte slices hold the same bytes: 1 if so, else 0.
pub fn lean_byteslice_beq_rs(a: &ByteSlice, b: &ByteSlice) -> (r: u8)
    requires
        a.valid(),
        b.valid(),
    ensures
        r == (if a.bytes() == b.bytes() {
            1u8
        } else {
            0u8
        }),
{
    let size_a = a.stop.wrapping_sub(a.start);
    let size_b = b.stop.wrapping_sub(b.start);
    if size_a != size_b {
        proof {
            assert(a.bytes().len() != b.bytes().len());
        }
        return 0;
    }
    if size_a == 0 {
        proof {
            assert(a.bytes() =~= b.bytes());
        }
        return 1;
    }
    let mut i: usize = 0;
    while i < size_a
        invariant
            a.valid(),
            b.valid(),
            size_a == a.stop - a.start,
            size_a == b.stop - b.start,
            i <= size_a,
            forall|j: int| 0 <= j < i ==> a.bytes()[j] == b.bytes()[j],
        decreases size_a - i,
    {
        if a.array[a.start + i] != b.array[b.start + i] {
            proof {
                assert(a.bytes()[i as int] != b.bytes()[i as int]);
            }
            return 0;
        }
        i = i + 1;
    }
    proof {
        assert(a.bytes() =~= b.bytes());
    }
    1
}

/// The runtime is present: always 1.
pub fn lean_runtime_rs_ping() -> (r: u8)
    ensures
        r == 1,
{
    1
}

} // verus!

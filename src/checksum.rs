//! The internet checksum (RFC 1071): a one's-complement sum kept in a `u64`
//! accumulator with end-around carry, folded to 16 bits at the end.
//!
//! Words are read little-endian. Since byte-swapping commutes with the
//! one's-complement sum, the folded result written back little-endian is the
//! checksum in network order.
use vstd::prelude::*;

verus! {

/// Sum of the bytes read as 16-bit little-endian words; an odd last byte is
/// taken as a word whose high byte is zero.
pub open spec fn word_sum(s: Seq<u8>) -> nat
    decreases s.len(),
{
    if s.len() == 0 {
        0
    } else if s.len() == 1 {
        s[0] as nat
    } else {
        s[0] as nat + 256 * (s[1] as nat) + word_sum(s.subrange(2, s.len() as int))
    }
}

/// The accumulator `r` stands for the (non-negative) sum `total`: both have
/// the same residue modulo 0xffff, and `r` is zero exactly when `total` is.
#[verifier::opaque]
pub open spec fn represents(r: u64, total: int) -> bool {
    &&& r as int % 65535 == total % 65535
    &&& (r == 0 <==> total == 0)
}

/// The one's complement of the 16-bit one's-complement fold of `total`.
pub open spec fn ones_complement_of(total: int) -> u16 {
    if total == 0 {
        0xffff
    } else if total % 65535 == 0 {
        0
    } else {
        (65535 - total % 65535) as u16
    }
}

/// As `ones_complement_of`, with zero (reserved for "no checksum") sent as 0xffff.
pub open spec fn ones_complement_no_zero_of(total: int) -> u16 {
    if ones_complement_of(total) == 0 {
        0xffff
    } else {
        ones_complement_of(total)
    }
}

proof fn lemma_mod_shift(x: int, k: int)
    requires
        x >= 0,
        k >= 0,
    ensures
        (x + 65535 * k) % 65535 == x % 65535,
{
    vstd::arithmetic::div_mod::lemma_mod_multiples_vanish(k, x, 65535);
}

/// Adding to an accumulator that stands for `t` gives one that stands for `t + x`.
pub proof fn lemma_represents_add(r1: u64, t: int, x: int, r2: u64)
    requires
        t >= 0,
        x >= 0,
        represents(r1, t),
        represents(r2, r1 + x),
    ensures
        represents(r2, t + x),
{
    reveal(represents);
    vstd::arithmetic::div_mod::lemma_add_mod_noop(r1 as int, x, 65535);
    vstd::arithmetic::div_mod::lemma_add_mod_noop(t, x, 65535);
}

/// Two accumulators that stand for the same sum fold to the same checksum.
pub proof fn lemma_represents_fold(r: u64, t: int)
    requires
        t >= 0,
        represents(r, t),
    ensures
        ones_complement_of(r as int) == ones_complement_of(t),
{
    reveal(represents);
}

/// Word sums add up over a split after an even number of bytes.
pub proof fn lemma_word_sum_append(a: Seq<u8>, b: Seq<u8>)
    requires
        a.len() % 2 == 0,
    ensures
        word_sum(a + b) == word_sum(a) + word_sum(b),
    decreases a.len(),
{
    if a.len() == 0 {
        assert(a + b =~= b);
    } else {
        let rest = a.subrange(2, a.len() as int);
        lemma_word_sum_append(rest, b);
        assert((a + b).subrange(2, (a + b).len() as int) =~= rest + b);
    }
}

/// The word sum is zero exactly when every byte is zero.
pub proof fn lemma_word_sum_zero(s: Seq<u8>)
    ensures
        word_sum(s) == 0 <==> (forall|i: int| 0 <= i < s.len() ==> s[i] == 0),
    decreases s.len(),
{
    if s.len() >= 2 {
        let rest = s.subrange(2, s.len() as int);
        lemma_word_sum_zero(rest);
        if word_sum(s) == 0 {
            assert forall|i: int| 0 <= i < s.len() implies s[i] == 0 by {
                if i >= 2 {
                    assert(rest[i - 2] == s[i]);
                }
            }
        }
        if forall|i: int| 0 <= i < s.len() ==> s[i] == 0 {
            assert forall|i: int| 0 <= i < rest.len() implies rest[i] == 0 by {
                assert(rest[i] == s[i + 2]);
            }
        }
    }
}

/// Filling a zeroed word at an even offset with `lo, hi` adds `lo + 256 * hi`
/// to the word sum.
pub proof fn lemma_word_sum_set_word(h: Seq<u8>, p: int, lo: u8, hi: u8)
    requires
        0 <= p,
        p % 2 == 0,
        p + 2 <= h.len(),
        h[p] == 0,
        h[p + 1] == 0,
    ensures
        word_sum(h.update(p, lo).update(p + 1, hi)) == word_sum(h) + lo + 256 * hi,
{
    let g = h.update(p, lo).update(p + 1, hi);
    let a = h.subrange(0, p);
    let c = h.subrange(p + 2, h.len() as int);
    let b = h.subrange(p, p + 2);
    let b2 = g.subrange(p, p + 2);
    assert(h =~= a + (b + c));
    assert(g =~= a + (b2 + c));
    lemma_word_sum_append(a, b + c);
    lemma_word_sum_append(b, c);
    lemma_word_sum_append(a, b2 + c);
    lemma_word_sum_append(b2, c);
    reveal_with_fuel(word_sum, 3);
}

/// Adding the one's complement of a positive sum to it gives a sum whose
/// one's complement is zero: this is why a written checksum verifies. The
/// same holds where a zero checksum is sent as 0xffff.
pub proof fn lemma_complement_closes(s: int)
    requires
        s > 0,
    ensures
        ones_complement_of(s + ones_complement_of(s)) == 0,
        ones_complement_of(s + ones_complement_no_zero_of(s)) == 0,
{
    let m = s % 65535;
    let q = s / 65535;
    vstd::arithmetic::div_mod::lemma_fundamental_div_mod(s, 65535);
    if m == 0 {
        lemma_mod_shift(s, 1);
    } else {
        assert(s + (65535 - m) == 65535 * (q + 1));
        vstd::arithmetic::div_mod::lemma_mod_multiples_basic(q + 1, 65535);
    }
}

/// Adds `w` to the accumulator with end-around carry.
fn add_with_carry(start: u64, w: u64) -> (r: u64)
    ensures
        r as int % 65535 == (start + w) % 65535,
        r == 0 <==> (start == 0 && w == 0),
{
    if w > u64::MAX - start {
        let r: u64 = w - (u64::MAX - start);
        proof {
            assert(u64::MAX as int == 65535 * 281479271743489int);
            lemma_mod_shift(r as int, 281479271743489int);
        }
        r
    } else {
        start + w
    }
}

/// Add an 8 byte word.
pub fn add_8bytes(start: u64, value: [u8; 8]) -> (r: u64)
    ensures
        represents(r, start + word_sum(value@)),
{
    let w0: u64 = value[0] as u64 + (value[1] as u64) * 0x100;
    let w1: u64 = value[2] as u64 + (value[3] as u64) * 0x100;
    let w2: u64 = value[4] as u64 + (value[5] as u64) * 0x100;
    let w3: u64 = value[6] as u64 + (value[7] as u64) * 0x100;
    let w: u64 = w0 + w1 * 0x1_0000 + w2 * 0x1_0000_0000 + w3 * 0x1_0000_0000_0000;
    proof {
        let s = value@;
        reveal_with_fuel(word_sum, 5);
        assert(word_sum(s) == w0 + w1 + w2 + w3);
        assert(w == (w0 + w1 + w2 + w3) + 65535 * (w1 + w2 * 65537 + w3 * 4295032833));
        lemma_mod_shift(w0 + w1 + w2 + w3, w1 + w2 * 65537 + w3 * 4295032833);
        lemma_word_sum_zero(s);
        vstd::arithmetic::div_mod::lemma_add_mod_noop(start as int, w as int, 65535);
        vstd::arithmetic::div_mod::lemma_add_mod_noop(start as int, word_sum(s) as int, 65535);
    }
    let r: u64 = add_with_carry(start, w);
    proof {
        reveal(represents);
    }
    r
}

/// Add a 4 byte word.
pub fn add_4bytes(start: u64, value: [u8; 4]) -> (r: u64)
    ensures
        represents(r, start + word_sum(value@)),
{
    let w0: u64 = value[0] as u64 + (value[1] as u64) * 0x100;
    let w1: u64 = value[2] as u64 + (value[3] as u64) * 0x100;
    let w: u64 = w0 + w1 * 0x1_0000;
    proof {
        let s = value@;
        reveal_with_fuel(word_sum, 3);
        assert(word_sum(s) == w0 + w1);
        assert(w == (w0 + w1) + 65535 * w1);
        lemma_mod_shift(w0 + w1, w1 as int);
        lemma_word_sum_zero(s);
        vstd::arithmetic::div_mod::lemma_add_mod_noop(start as int, w as int, 65535);
        vstd::arithmetic::div_mod::lemma_add_mod_noop(start as int, word_sum(s) as int, 65535);
    }
    let r: u64 = add_with_carry(start, w);
    proof {
        reveal(represents);
    }
    r
}

/// Add a 2 byte word.
pub fn add_2bytes(start: u64, value: [u8; 2]) -> (r: u64)
    ensures
        represents(r, start + word_sum(value@)),
{
    let w: u64 = value[0] as u64 + (value[1] as u64) * 0x100;
    proof {
        reveal_with_fuel(word_sum, 2);
        assert(word_sum(value@) == w);
    }
    let r: u64 = add_with_carry(start, w);
    proof {
        reveal(represents);
    }
    r
}

/// One step of the slice adder: a chunk of `k` bytes at even offset `i`
/// added to an accumulator that stands for the sum of the bytes before it.
proof fn lemma_prefix_step(s: Seq<u8>, start: int, i: int, k: int, chunk: nat, prev: u64, next: u64)
    requires
        0 <= i,
        i % 2 == 0,
        i + k <= s.len(),
        k >= 0,
        start >= 0,
        chunk == word_sum(s.subrange(i, i + k)),
        represents(prev, start + word_sum(s.subrange(0, i))),
        represents(next, prev + chunk),
    ensures
        represents(next, start + word_sum(s.subrange(0, i + k))),
{
    lemma_word_sum_append(s.subrange(0, i), s.subrange(i, i + k));
    assert(s.subrange(0, i) + s.subrange(i, i + k) =~= s.subrange(0, i + k));
    lemma_represents_add(prev, start + word_sum(s.subrange(0, i)), chunk as int, next);
}

proof fn lemma_single_byte(one: Seq<u8>, padded: Seq<u8>)
    requires
        one.len() == 1,
        padded.len() == 2,
        padded[0] == one[0],
        padded[1] == 0,
    ensures
        word_sum(padded) == word_sum(one),
{
    reveal_with_fuel(word_sum, 2);
}

/// Add the given slice to the checksum. In case the slice
/// has a length that is not multiple of 2 the last byte
/// will be padded with 0.
pub fn add_slice(start_sum: u64, slice: &[u8]) -> (r: u64)
    ensures
        represents(r, start_sum + word_sum(slice@)),
{
    let len: usize = slice.len();
    let mut sum: u64 = start_sum;
    let mut i: usize = 0;
    proof {
        assert(word_sum(slice@.subrange(0, 0)) == 0);
        reveal(represents);
    }
    // sum up all 8 byte words
    while len - i >= 8
        invariant
            len == slice@.len(),
            i <= len,
            i % 2 == 0,
            represents(sum, start_sum + word_sum(slice@.subrange(0, i as int))),
        decreases len - i,
    {
        let value: [u8; 8] = [
            slice[i],
            slice[i + 1],
            slice[i + 2],
            slice[i + 3],
            slice[i + 4],
            slice[i + 5],
            slice[i + 6],
            slice[i + 7],
        ];
        let ghost prev = sum;
        sum = add_8bytes(sum, value);
        proof {
            assert(value@ =~= slice@.subrange(i as int, i + 8));
            lemma_prefix_step(slice@, start_sum as int, i as int, 8, word_sum(value@), prev, sum);
        }
        i = i + 8;
    }
    // in case 4 or more bytes are left add the first 4 bytes
    let mut pos: usize = i;
    if len - pos >= 4 {
        let value: [u8; 4] = [slice[pos], slice[pos + 1], slice[pos + 2], slice[pos + 3]];
        let ghost prev = sum;
        sum = add_4bytes(sum, value);
        proof {
            assert(value@ =~= slice@.subrange(pos as int, pos + 4));
            lemma_prefix_step(slice@, start_sum as int, pos as int, 4, word_sum(value@), prev, sum);
        }
        pos = pos + 4;
    }
    // in case 2 bytes are left add them as a word
    if len - pos >= 2 {
        let value: [u8; 2] = [slice[pos], slice[pos + 1]];
        let ghost prev = sum;
        sum = add_2bytes(sum, value);
        proof {
            assert(value@ =~= slice@.subrange(pos as int, pos + 2));
            lemma_prefix_step(slice@, start_sum as int, pos as int, 2, word_sum(value@), prev, sum);
        }
        pos = pos + 2;
    }
    // an unaligned end is padded with a zero byte
    if pos < len {
        let value: [u8; 2] = [slice[len - 1], 0];
        let ghost prev = sum;
        sum = add_2bytes(sum, value);
        proof {
            assert(pos == len - 1);
            lemma_single_byte(slice@.subrange(pos as int, pos + 1), value@);
            lemma_prefix_step(slice@, start_sum as int, pos as int, 1, word_sum(value@), prev, sum);
        }
        pos = pos + 1;
    }
    proof {
        assert(pos == len);
        assert(slice@.subrange(0, len as int) =~= slice@);
    }
    sum
}

/// Converts summed up words from an u64 to an u16 which can be used in a ipv4.
pub fn ones_complement(sum: u64) -> (r: u16)
    ensures
        r == ones_complement_of(sum as int),
{
    let a: u64 = (sum >> 48) & 0xffff;
    let b: u64 = (sum >> 32) & 0xffff;
    let c: u64 = (sum >> 16) & 0xffff;
    let d: u64 = sum & 0xffff;
    proof {
        assert(a <= 0xffff && b <= 0xffff && c <= 0xffff && d <= 0xffff) by (bit_vector)
            requires
                a == (sum >> 48) & 0xffff,
                b == (sum >> 32) & 0xffff,
                c == (sum >> 16) & 0xffff,
                d == sum & 0xffff,
        ;
        assert(sum == a * 0x1_0000_0000_0000 + b * 0x1_0000_0000 + c * 0x1_0000 + d) by (bit_vector)
            requires
                a == (sum >> 48) & 0xffff,
                b == (sum >> 32) & 0xffff,
                c == (sum >> 16) & 0xffff,
                d == sum & 0xffff,
        ;
    }
    let first: u64 = a + b + c + d;
    proof {
        assert(sum == first + 65535 * (a * 4295032833 + b * 65537 + c));
        lemma_mod_shift(first as int, a * 4295032833 + b * 65537 + c);
    }
    let h1: u64 = (first >> 16) & 0xffff;
    let l1: u64 = first & 0xffff;
    proof {
        assert(first == h1 * 0x1_0000 + l1 && l1 <= 0xffff && h1 <= 3) by (bit_vector)
            requires
                first <= 4 * 0xffff,
                h1 == (first >> 16) & 0xffff,
                l1 == first & 0xffff,
        ;
        lemma_mod_shift((h1 + l1) as int, h1 as int);
    }
    let second: u64 = h1 + l1;
    let h2: u64 = (second >> 16) & 0xffff;
    let l2: u64 = second & 0xffff;
    proof {
        assert(second == h2 * 0x1_0000 + l2 && l2 <= 0xffff && h2 <= 1) by (bit_vector)
            requires
                second <= 3 + 0xffff,
                h2 == (second >> 16) & 0xffff,
                l2 == second & 0xffff,
        ;
        lemma_mod_shift((h2 + l2) as int, h2 as int);
    }
    let third: u64 = h2 + l2;
    let folded: u16 = third as u16;
    let r: u16 = !folded;
    proof {
        assert(r == 0xffff - folded) by (bit_vector)
            requires
                r == !folded,
        ;
        assert(third <= 0xffff);
        assert(sum == 0 <==> third == 0);
    }
    r
}

/// Converts summed up words from an u64 to an u16 with 0 being replaced by 0xffff (useful
/// for TCP and UDP headers).
pub fn ones_complement_with_no_zero(sum: u64) -> (r: u16)
    ensures
        r == ones_complement_no_zero_of(sum as int),
{
    let value: u16 = ones_complement(sum);
    if value == 0 {
        0xffff
    } else {
        value
    }
}

/// Summing a byte sequence in chunks, each chunk but the last of even length,
/// and folding, gives the same checksum as summing it whole: the accumulator
/// after the first chunk, carried into the second, stands for the sum of the
/// two chunks together.
pub proof fn lemma_checksum_chunking(start: u64, a: Seq<u8>, b: Seq<u8>, r1: u64, r2: u64)
    requires
        a.len() % 2 == 0,
        represents(r1, start + word_sum(a)),
        represents(r2, r1 + word_sum(b)),
    ensures
        represents(r2, start + word_sum(a + b)),
        ones_complement_of(r2 as int) == ones_complement_of(start + word_sum(a + b)),
{
    lemma_word_sum_append(a, b);
    lemma_represents_add(r1, start + word_sum(a), word_sum(b) as int, r2);
    lemma_represents_fold(r2, start + word_sum(a + b));
}

} // verus!

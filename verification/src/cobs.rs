//! Consistent Overhead Byte Stuffing, single-block variant (frame bodies of at
//! most 254 bytes). The encoded form of a body `f` is one header byte — the
//! offset to the first zero of `f`, plus one — followed by the bytes of `f`
//! with every zero replaced by the offset to the next zero (or to the virtual
//! sentinel one past the end), so the encoding contains no zero bytes at all.
//!
//! Decoding runs a counter: it is loaded from the header byte, decremented for
//! each following byte, and when it reaches one the next byte is a stuffed
//! zero and reloads the counter.

use vstd::prelude::*;

verus! {

/// The index of the first zero byte of `s` at or after `k`, or `s.len()` if
/// there is none.
pub open spec fn next_zero(s: Seq<u8>, k: int) -> int
    decreases s.len() - k,
{
    if k < 0 {
        0
    } else if k >= s.len() {
        s.len() as int
    } else if s[k] == 0 {
        k
    } else {
        next_zero(s, k + 1)
    }
}

/// The bytes of `s` with every zero replaced by the gap to the next zero.
pub open spec fn stuffed(s: Seq<u8>) -> Seq<u8> {
    Seq::new(s.len(), |i: int| if s[i] == 0 { (next_zero(s, i + 1) - i) as u8 } else { s[i] })
}

/// The COBS encoding of `s`: the header byte, then the stuffed bytes.
pub open spec fn cobs_encode(s: Seq<u8>) -> Seq<u8> {
    seq![(next_zero(s, 0) + 1) as u8] + stuffed(s)
}

/// One step of the destuffing counter: on counter `c` and wire byte `b`, the
/// new counter and the decoded byte.
pub open spec fn destuff_step(c: u8, b: u8) -> (u8, u8) {
    if c == 1 {
        (b, 0u8)
    } else {
        ((c - 1) as u8, b)
    }
}

/// Runs the destuffing counter `c` over the wire bytes `s`, collecting the
/// decoded bytes.
pub open spec fn destuff_run(c: u8, s: Seq<u8>) -> Seq<u8>
    decreases s.len(),
{
    if s.len() == 0 {
        Seq::empty()
    } else {
        seq![destuff_step(c, s[0]).1] + destuff_run(destuff_step(c, s[0]).0, s.skip(1))
    }
}

/// Decodes a COBS block: the first byte loads the counter, the rest are
/// destuffed.
pub open spec fn cobs_destuff(s: Seq<u8>) -> Seq<u8> {
    if s.len() == 0 {
        Seq::empty()
    } else {
        destuff_run(s[0], s.skip(1))
    }
}

/// The destuffing counter that is in force just before wire position `k` of
/// the stuffed bytes of `s`.
pub open spec fn gap(s: Seq<u8>, k: int) -> u8 {
    (next_zero(s, k) - k + 1) as u8
}

/// `next_zero` lands between `k` and the length, on a zero unless it is the
/// sentinel, and everything before it is nonzero.
pub proof fn lemma_next_zero(s: Seq<u8>, k: int)
    requires
        0 <= k <= s.len(),
    ensures
        k <= next_zero(s, k) <= s.len(),
        next_zero(s, k) < s.len() ==> s[next_zero(s, k)] == 0,
        forall|j: int| k <= j < next_zero(s, k) ==> s[j] != 0,
    decreases s.len() - k,
{
    if k < s.len() && s[k] != 0 {
        lemma_next_zero(s, k + 1);
    }
}

/// A nonzero byte does not move the next zero; a zero byte is its own next
/// zero.
pub proof fn lemma_next_zero_unfold(s: Seq<u8>, k: int)
    requires
        0 <= k < s.len(),
    ensures
        s[k] == 0 ==> next_zero(s, k) == k,
        s[k] != 0 ==> next_zero(s, k) == next_zero(s, k + 1),
{
}

/// One destuffing step undoes one stuffing step: at position `k`, the counter
/// `gap(s, k)` and the stuffed byte yield the counter for `k + 1` and the
/// original byte.
pub proof fn lemma_cobs_step(s: Seq<u8>, k: int)
    requires
        s.len() <= 254,
        0 <= k < s.len(),
    ensures
        destuff_step(gap(s, k), stuffed(s)[k]) == (gap(s, k + 1), s[k]),
{
    lemma_next_zero(s, k);
    lemma_next_zero(s, k + 1);
    lemma_next_zero_unfold(s, k);
    if s[k] == 0 {
        assert(next_zero(s, k) == k);
        assert(gap(s, k) == 1);
        assert(stuffed(s)[k] == (next_zero(s, k + 1) - k) as u8);
        assert(gap(s, k + 1) == (next_zero(s, k + 1) - (k + 1) + 1) as u8);
    } else {
        assert(next_zero(s, k) == next_zero(s, k + 1));
        assert(gap(s, k) >= 2);
    }
}

/// Destuffing the tail of the encoding from position `k` onward recovers the
/// tail of `s`.
proof fn lemma_destuff_from(s: Seq<u8>, k: int)
    requires
        s.len() <= 254,
        0 <= k <= s.len(),
    ensures
        destuff_run(gap(s, k), stuffed(s).skip(k)) == s.skip(k),
    decreases s.len() - k,
{
    if k == s.len() {
        assert(stuffed(s).skip(k) =~= Seq::<u8>::empty());
        assert(s.skip(k) =~= Seq::<u8>::empty());
    } else {
        lemma_cobs_step(s, k);
        lemma_destuff_from(s, k + 1);
        assert(stuffed(s).skip(k)[0] == stuffed(s)[k]);
        assert(stuffed(s).skip(k).skip(1) =~= stuffed(s).skip(k + 1));
        assert(destuff_run(gap(s, k), stuffed(s).skip(k)) =~= seq![s[k]] + s.skip(k + 1));
        assert(seq![s[k]] + s.skip(k + 1) =~= s.skip(k));
    }
}

/// Decoding inverts encoding, and the encoded form holds no zero byte: the
/// zero delimiters around a frame can never occur inside it.
pub proof fn lemma_cobs_round_trip(s: Seq<u8>)
    requires
        s.len() <= 254,
    ensures
        cobs_destuff(cobs_encode(s)) == s,
        forall|i: int| 0 <= i < cobs_encode(s).len() ==> cobs_encode(s)[i] != 0,
{
    lemma_next_zero(s, 0);
    assert(cobs_encode(s)[0] == gap(s, 0));
    assert(cobs_encode(s).skip(1) =~= stuffed(s));
    lemma_destuff_from(s, 0);
    assert(stuffed(s).skip(0) =~= stuffed(s));
    assert(s.skip(0) =~= s);
    assert forall|i: int| 0 <= i < cobs_encode(s).len() implies cobs_encode(s)[i] != 0 by {
        if i == 0 {
            assert(cobs_encode(s)[0] == (next_zero(s, 0) + 1) as u8);
        } else {
            let j = i - 1;
            lemma_next_zero(s, j + 1);
            if s[j] == 0 {
                assert(cobs_encode(s)[i] == (next_zero(s, j + 1) - j) as u8);
            } else {
                assert(cobs_encode(s)[i] == s[j]);
            }
        }
    }
}

/// The index of the first zero byte of `source` at or after `start`, or the
/// length if there is none.
pub fn find_zero_from(source: &[u8], start: usize) -> (r: usize)
    requires
        start <= source@.len(),
        source@.len() <= 254,
    ensures
        r == next_zero(source@, start as int),
        start <= r <= source@.len(),
{
    let len = source.len();
    let mut i: usize = start;
    while i < len
        invariant
            start <= i <= len,
            len == source@.len() <= 254,
            next_zero(source@, start as int) == next_zero(source@, i as int),
        decreases len - i,
    {
        if source[i] == 0 {
            proof {
                lemma_next_zero_unfold(source@, i as int);
            }
            return i;
        }
        proof {
            lemma_next_zero_unfold(source@, i as int);
        }
        i += 1;
    }
    len
}

} // verus!

//! ZIP byte reconstruction for DWA DC data processing.
//!
//! The ZIP predictor of OpenEXR stores each byte as the difference to its
//! predecessor (offset by 128) and splits the bytes of a block into two halves:
//! the bytes at even positions first, then those at odd positions. Reading the
//! data back undoes both steps: delta decoding, then interleaving.
use vstd::prelude::*;

verus! {

/// The byte that delta decoding produces from its decoded predecessor `prev`
/// and the stored byte `delta`: `prev + delta - 128`, wrapping modulo 256.
pub open spec fn delta_step(prev: u8, delta: u8) -> u8 {
    ((prev + delta - 128) % 256) as u8
}

/// Delta decoding of a whole sequence: the first byte stays, and every later
/// byte is `delta_step` of the decoded byte before it and the stored byte.
pub open spec fn delta_decoded(s: Seq<u8>) -> Seq<u8>
    decreases s.len(),
{
    if s.len() <= 1 {
        s
    } else {
        let prefix = delta_decoded(s.drop_last());
        prefix.push(delta_step(prefix.last(), s.last()))
    }
}

/// Index of the first byte of the second half when `n` bytes are split into
/// the bytes at even positions followed by the bytes at odd positions.
pub open spec fn half_point(n: nat) -> nat {
    (n + 1) / 2
}

/// Position in the split source of the byte that interleaving puts at
/// position `i` of an output of `n` bytes.
pub open spec fn interleave_source_index(n: nat, i: int) -> int {
    if i % 2 == 0 {
        i / 2
    } else {
        half_point(n) + i / 2
    }
}

/// The `n` bytes that interleaving produces from `source`: even positions come
/// from the first half, odd positions from the second half, in order.
pub open spec fn interleaved(source: Seq<u8>, n: nat) -> Seq<u8> {
    Seq::new(n, |i: int| source[interleave_source_index(n, i)])
}

/// The running sum `s[0] + (s[1] - 128) + ... + (s[i] - 128)`, taken as a
/// plain integer.
pub open spec fn delta_sum(s: Seq<u8>, i: int) -> int
    decreases i,
{
    if i <= 0 {
        s[0] as int
    } else {
        delta_sum(s, i - 1) + s[i] - 128
    }
}

/// Delta decoding keeps the length and the first byte, and decodes every later
/// byte from its decoded predecessor.
pub proof fn lemma_delta_decoded_steps(s: Seq<u8>)
    ensures
        delta_decoded(s).len() == s.len(),
        s.len() > 0 ==> delta_decoded(s)[0] == s[0],
        forall|i: int|
            1 <= i < s.len() ==> #[trigger] delta_decoded(s)[i] == delta_step(
                delta_decoded(s)[i - 1],
                s[i],
            ),
    decreases s.len(),
{
    if s.len() > 1 {
        lemma_delta_decoded_steps(s.drop_last());
        let prefix = delta_decoded(s.drop_last());
        assert forall|i: int| 1 <= i < s.len() implies #[trigger] delta_decoded(s)[i]
            == delta_step(delta_decoded(s)[i - 1], s[i]) by {
            if i < s.len() - 1 {
                assert(delta_decoded(s)[i] == prefix[i]);
                assert(delta_decoded(s)[i - 1] == prefix[i - 1]);
                assert(s.drop_last()[i] == s[i]);
            }
        }
    }
}

/// Delta decoding a prefix of the stored bytes gives the same prefix of the
/// decoded bytes: a byte depends only on the bytes before it.
pub proof fn lemma_delta_decoded_prefix(s: Seq<u8>, k: int)
    requires
        0 <= k <= s.len(),
    ensures
        delta_decoded(s.take(k)) == delta_decoded(s).take(k),
    decreases s.len(),
{
    lemma_delta_decoded_steps(s);
    lemma_delta_decoded_steps(s.take(k));
    if k == s.len() {
        assert(s.take(k) == s);
    } else {
        lemma_delta_decoded_prefix(s.drop_last(), k);
        assert(s.drop_last().take(k) == s.take(k));
        assert(delta_decoded(s).take(k) == delta_decoded(s.drop_last()).take(k)) by {
            if s.len() > 1 {
                assert(delta_decoded(s).drop_last() == delta_decoded(s.drop_last()));
            }
        }
    }
}

/// Each decoded byte is the running sum of the first stored byte and of all
/// later stored bytes minus 128, reduced modulo 256.
pub proof fn lemma_delta_decoded_running_sum(s: Seq<u8>)
    ensures
        forall|i: int| 0 <= i < s.len() ==> #[trigger] delta_decoded(s)[i] == delta_sum(s, i) % 256,
{
    lemma_delta_decoded_steps(s);
    assert forall|i: int| 0 <= i < s.len() implies #[trigger] delta_decoded(s)[i] == delta_sum(s, i)
        % 256 by {
        lemma_running_sum_at(s, i);
    }
}

proof fn lemma_running_sum_at(s: Seq<u8>, i: int)
    requires
        0 <= i < s.len(),
        delta_decoded(s).len() == s.len(),
        delta_decoded(s)[0] == s[0],
        forall|j: int|
            1 <= j < s.len() ==> #[trigger] delta_decoded(s)[j] == delta_step(
                delta_decoded(s)[j - 1],
                s[j],
            ),
    ensures
        delta_decoded(s)[i] == delta_sum(s, i) % 256,
    decreases i,
{
    if i > 0 {
        lemma_running_sum_at(s, i - 1);
        let prev = delta_decoded(s)[i - 1];
        let a = delta_sum(s, i - 1);
        assert(delta_decoded(s)[i] == delta_step(prev, s[i]));
        assert(prev == a % 256);
        assert((a % 256 + s[i] - 128) % 256 == (a + s[i] - 128) % 256) by {
            vstd::arithmetic::div_mod::lemma_add_mod_noop(a, s[i] - 128, 256);
            vstd::arithmetic::div_mod::lemma_mod_twice(a, 256);
            vstd::arithmetic::div_mod::lemma_add_mod_noop(a % 256, s[i] - 128, 256);
        }
    }
}

/// Output position at which interleaving places the source byte at position
/// `k`, for an output of `n` bytes.
pub open spec fn interleave_target_index(n: nat, k: int) -> int {
    if k < half_point(n) {
        2 * k
    } else {
        2 * (k - half_point(n)) + 1
    }
}

/// Interleaving takes each of the first `n` source bytes exactly once: the map
/// from output positions to source positions is a bijection of `0..n`, and
/// `interleave_target_index` is its inverse.
pub proof fn lemma_interleave_is_permutation(n: nat)
    ensures
        forall|i: int| 0 <= i < n ==> 0 <= #[trigger] interleave_source_index(n, i) < n,
        forall|i: int, j: int|
            0 <= i < n && 0 <= j < n && #[trigger] interleave_source_index(n, i)
                == #[trigger] interleave_source_index(n, j) ==> i == j,
        forall|k: int|
            0 <= k < n ==> {
                &&& 0 <= #[trigger] interleave_target_index(n, k) < n
                &&& interleave_source_index(n, interleave_target_index(n, k)) == k
            },
{
}

/// Law: interleaving puts the first half of the source at the even output
/// positions and the second half at the odd ones, each in order: for an
/// output of `n` bytes, position `2k` holds source byte `k` (for
/// `k < (n + 1) / 2`), and position `2k + 1` holds source byte
/// `(n + 1) / 2 + k` (for `k < n / 2`).
pub proof fn lemma_interleaved_halves(source: Seq<u8>, n: nat)
    ensures
        interleaved(source, n).len() == n,
        forall|k: int| 0 <= k < (n + 1) / 2 ==> #[trigger] interleaved(source, n)[2 * k] == source[k],
        forall|k: int|
            0 <= k < n / 2 ==> #[trigger] interleaved(source, n)[2 * k + 1] == source[(n + 1) / 2
                + k],
{
    assert forall|k: int| 0 <= k < (n + 1) / 2 implies #[trigger] interleaved(source, n)[2 * k]
        == source[k] by {
        assert((2 * k) % 2 == 0 && (2 * k) / 2 == k);
    }
    assert forall|k: int| 0 <= k < n / 2 implies #[trigger] interleaved(source, n)[2 * k + 1]
        == source[(n + 1) / 2 + k] by {
        assert((2 * k + 1) % 2 == 1 && (2 * k + 1) / 2 == k);
    }
}

/// Applies delta decoding to a buffer in place.
/// Each byte is reconstructed as: `buf[i] = buf[i-1] + buf[i] - 128`, wrapping.
pub fn reconstruct(buf: &mut [u8])
    ensures
        final(buf)@ == delta_decoded(old(buf)@),
        final(buf)@.len() == old(buf)@.len(),
        old(buf)@.len() > 0 ==> final(buf)@[0] == old(buf)@[0],
        forall|i: int|
            1 <= i < old(buf)@.len() ==> #[trigger] final(buf)@[i] == delta_step(
                final(buf)@[i - 1],
                old(buf)@[i],
            ),
{
    proof {
        lemma_delta_decoded_steps(buf@);
    }
    let n = buf.len();
    if n <= 1 {
        return ;
    }
    let ghost original = buf@;
    proof {
        assert(original.take(1) == seq![original[0]]);
        assert(delta_decoded(original.take(1)) == original.take(1));
    }
    let mut i: usize = 1;
    while i < n
        invariant
            n == buf.len(),
            n == original.len(),
            1 <= i <= n,
            buf@.take(i as int) == delta_decoded(original.take(i as int)),
            forall|j: int| i <= j < n ==> #[trigger] buf@[j] == original[j],
        decreases n - i,
    {
        let prev = buf[i - 1];
        let curr = buf[i];
        proof {
            assert(prev == buf@.take(i as int)[i - 1]);
            let next = original.take(i + 1);
            assert(next.drop_last() == original.take(i as int));
            assert(next.last() == original[i as int]);
        }
        buf[i] = prev.wrapping_add(curr).wrapping_sub(128);
        proof {
            let d = delta_decoded(original.take(i as int));
            assert(buf@[i as int] == delta_step(d.last(), original[i as int]));
            assert(buf@.take(i + 1) == delta_decoded(original.take(i + 1)));
        }
        i = i + 1;
    }
    proof {
        assert(buf@.take(n as int) == buf@);
        assert(original.take(n as int) == original);
    }
}

/// Interleaves bytes from a split buffer.
/// The first half of `source` holds the bytes for even positions of `out`,
/// the second half those for odd positions. The half point is
/// `(out.len() + 1) / 2`.
pub fn interleave(out: &mut [u8], source: &[u8])
    requires
        source.len() >= old(out).len(),
    ensures
        final(out)@ == interleaved(source@, old(out).len() as nat),
        final(out)@.len() == old(out).len(),
        forall|k: int|
            0 <= k < (old(out).len() + 1) / 2 ==> #[trigger] final(out)@[2 * k] == source@[k],
        forall|k: int|
            0 <= k < old(out).len() / 2 ==> #[trigger] final(out)@[2 * k + 1] == source@[(
            old(out).len() + 1) / 2 + k],
{
    let out_size = out.len();
    let mid = out_size - out_size / 2;

    let mut i: usize = 0;
    let mut idx1: usize = 0;
    let mut idx2: usize = 0;

    while i < out_size
        invariant
            out.len() == out_size,
            source.len() >= out_size,
            mid == half_point(out_size as nat),
            i <= out_size,
            i % 2 == 0 || i == out_size,
            idx1 == (i + 1) / 2,
            idx2 == i / 2,
            forall|j: int|
                0 <= j < i ==> #[trigger] out@[j] == interleaved(source@, out_size as nat)[j],
        decreases out_size - i,
    {
        if i < out_size {
            out[i] = source[idx1];
            idx1 += 1;
            i += 1;
        }
        if i < out_size {
            out[i] = source[mid + idx2];
            idx2 += 1;
            i += 1;
        }
    }
    proof {
        assert(out@ == interleaved(source@, out_size as nat));
        lemma_interleaved_halves(source@, out_size as nat);
    }
}

/// Reconstructs bytes from ZIP-compressed data: delta decodes `source` in
/// place, then interleaves its two halves into `out`.
pub fn zip_reconstruct_bytes(out: &mut [u8], source: &mut [u8])
    requires
        old(out).len() == old(source).len(),
    ensures
        final(source)@ == delta_decoded(old(source)@),
        final(out)@ == interleaved(delta_decoded(old(source)@), old(out).len() as nat),
        forall|k: int|
            0 <= k < (old(out).len() + 1) / 2 ==> #[trigger] final(out)@[2 * k] == final(source)@[k],
        forall|k: int|
            0 <= k < old(out).len() / 2 ==> #[trigger] final(out)@[2 * k + 1] == final(source)@[(
            old(out).len() + 1) / 2 + k],
{
    reconstruct(source);
    proof {
        lemma_delta_decoded_steps(old(source)@);
    }
    interleave(out, source);
}

} // verus!

//! Bit-level lemmas shared by the network types and the iterators.
use vstd::prelude::*;
use crate::helpers::spec_bite_mask;
use crate::helpers::spec_bite_mask_u128;

verus! {

/// Masking an already-masked value changes nothing.
pub(crate) proof fn lemma_mask_idem_u32(a: u32, m: u32)
    by (bit_vector)
    ensures
        (a & m) & m == a & m,
{
}

/// Masking an already-masked value changes nothing.
pub(crate) proof fn lemma_mask_idem_u128(a: u128, m: u128)
    by (bit_vector)
    ensures
        (a & m) & m == a & m,
{
}

/// For a mask-aligned address `a`: the first and the last address of the
/// block match the mask, while the address just below the block does not.
pub(crate) proof fn lemma_contains_boundary_u32(a: u32, m: u32)
    by (bit_vector)
    requires
        a & m == a,
    ensures
        (a | !m) & m == a,
        a >= 1 ==> ((a - 1) as u32) & m != a,
{
}

/// For a mask-aligned address `a`: the first and the last address of the
/// block match the mask, while the address just below the block does not.
pub(crate) proof fn lemma_contains_boundary_u128(a: u128, m: u128)
    by (bit_vector)
    requires
        a & m == a,
    ensures
        (a | !m) & m == a,
        a >= 1 ==> ((a - 1) as u128) & m != a,
{
}

/// Splitting a network of prefix `p` at prefix `p + 1` partitions it into
/// exactly two halves: the lower half keeps the address, the upper half
/// starts one half-block higher.
pub(crate) proof fn lemma_partition_u32(a: u32, x: u32, p: u8)
    by (bit_vector)
    requires
        p < 32,
        a & spec_bite_mask(p) == a,
    ensures
        a + (1u32 << ((31 - p) as u32)) <= u32::MAX,
        a & spec_bite_mask((p + 1) as u8) == a,
        ((a + (1u32 << ((31 - p) as u32))) as u32) & spec_bite_mask((p + 1) as u8) == ((a + (
        1u32 << ((31 - p) as u32))) as u32),
        (x & spec_bite_mask(p) == a) <==> (x & spec_bite_mask((p + 1) as u8) == a || x
            & spec_bite_mask((p + 1) as u8) == ((a + (1u32 << ((31 - p) as u32))) as u32)),
        a != ((a + (1u32 << ((31 - p) as u32))) as u32),
{
}

/// Splitting a network of prefix `p` at prefix `p + 1` partitions it into
/// exactly two halves: the lower half keeps the address, the upper half
/// starts one half-block higher.
pub(crate) proof fn lemma_partition_u128(a: u128, x: u128, p: u8)
    by (bit_vector)
    requires
        p < 128,
        a & spec_bite_mask_u128(p) == a,
    ensures
        a + (1u128 << ((127 - p) as u32)) <= u128::MAX,
        a & spec_bite_mask_u128((p + 1) as u8) == a,
        ((a + (1u128 << ((127 - p) as u32))) as u128) & spec_bite_mask_u128((p + 1) as u8) == ((a
            + (1u128 << ((127 - p) as u32))) as u128),
        (x & spec_bite_mask_u128(p) == a) <==> (x & spec_bite_mask_u128((p + 1) as u8) == a || x
            & spec_bite_mask_u128((p + 1) as u8) == ((a + (1u128 << ((127 - p) as u32))) as u128)),
        a != ((a + (1u128 << ((127 - p) as u32))) as u128),
{
}

/// Facts establishing a subnet iterator's starting state: the parent address
/// is aligned to the deeper prefix, the upper bound `to` (the parent address
/// with the new subnet-index bits all ones) is aligned and not below the
/// start, and the element count is one more than the index mask.
pub(crate) proof fn lemma_iter_new_u32(a: u32, po: u8, pn: u8, to: u32)
    by (bit_vector)
    requires
        po < pn,
        pn <= 32,
        a & spec_bite_mask(po) == a,
        to == a | ((!spec_bite_mask((32 - (pn - po)) as u8)) << ((32 - pn) as u32)),
    ensures
        a & spec_bite_mask(pn) == a,
        to & spec_bite_mask(pn) == to,
        to >= a,
        ((to - a) as u32) >> ((32 - pn) as u32) == !spec_bite_mask((32 - (pn - po)) as u8),
{
}

/// Facts establishing a subnet iterator's starting state (128-bit space).
pub(crate) proof fn lemma_iter_new_u128(a: u128, po: u8, pn: u8, to: u128)
    by (bit_vector)
    requires
        po < pn,
        pn <= 128,
        a & spec_bite_mask_u128(po) == a,
        to == a | ((!spec_bite_mask_u128((128 - (pn - po)) as u8)) << ((128 - pn) as u32)),
    ensures
        a & spec_bite_mask_u128(pn) == a,
        to & spec_bite_mask_u128(pn) == to,
        to >= a,
        ((to - a) as u128) >> ((128 - pn) as u32) == !spec_bite_mask_u128((128 - (pn - po)) as u8),
{
}

/// Facts about one iterator step between aligned cursor and bound: the step
/// stays within the bound, keeps the alignment, and lowers the remaining
/// count by exactly one.
pub(crate) proof fn lemma_iter_next_u32(c: u32, to: u32, pn: u8)
    by (bit_vector)
    requires
        1 <= pn <= 32,
        c & spec_bite_mask(pn) == c,
        to & spec_bite_mask(pn) == to,
        c <= to,
    ensures
        (1u32 << ((32 - pn) as u32)) >= 1,
        c < to ==> c + (1u32 << ((32 - pn) as u32)) <= to,
        c == to ==> ((to - c) as u32) >> ((32 - pn) as u32) == 0,
        c < to ==> (((to - c) as u32) >> ((32 - pn) as u32)) >= 1,
        c + (1u32 << ((32 - pn) as u32)) <= u32::MAX ==> (((c + (1u32 << ((32 - pn) as u32)))
            as u32) & spec_bite_mask(pn)) == ((c + (1u32 << ((32 - pn) as u32))) as u32),
        c < to ==> ((to - (c + (1u32 << ((32 - pn) as u32)))) as u32) >> ((32 - pn) as u32) == ((
        (to - c) as u32) >> ((32 - pn) as u32)) - 1,
{
}

/// One iterator step between aligned cursor and bound stays within the
/// bound, and the remaining count is positive below the bound and zero at it
/// (128-bit space).
pub(crate) proof fn lemma_iter_step_bound_u128(c: u128, to: u128, pn: u8)
    by (bit_vector)
    requires
        1 <= pn <= 128,
        c & spec_bite_mask_u128(pn) == c,
        to & spec_bite_mask_u128(pn) == to,
        c <= to,
    ensures
        (1u128 << ((128 - pn) as u32)) >= 1,
        c < to ==> c + (1u128 << ((128 - pn) as u32)) <= to,
        c == to ==> ((to - c) as u128) >> ((128 - pn) as u32) == 0,
        c < to ==> (((to - c) as u128) >> ((128 - pn) as u32)) >= 1,
{
}

/// Advancing an aligned cursor by one step keeps it aligned (128-bit space).
pub(crate) proof fn lemma_iter_step_align_u128(c: u128, pn: u8)
    by (bit_vector)
    requires
        1 <= pn <= 128,
        c & spec_bite_mask_u128(pn) == c,
        c + (1u128 << ((128 - pn) as u32)) <= u128::MAX,
    ensures
        (((c + (1u128 << ((128 - pn) as u32))) as u128) & spec_bite_mask_u128(pn)) == ((c + (1u128
            << ((128 - pn) as u32))) as u128),
{
}

/// Advancing an aligned cursor by one step lowers the remaining count by
/// exactly one (128-bit space).
#[verifier::rlimit(100)]
pub(crate) proof fn lemma_iter_step_decrement_u128(c: u128, to: u128, pn: u8)
    by (bit_vector)
    requires
        1 <= pn <= 128,
        c & spec_bite_mask_u128(pn) == c,
        to & spec_bite_mask_u128(pn) == to,
        c < to,
    ensures
        ((to - (c + (1u128 << ((128 - pn) as u32)))) as u128) >> ((128 - pn) as u32) == (((to - c)
            as u128) >> ((128 - pn) as u32)) - 1,
{
}

/// An address matches a mask-aligned network exactly when it lies between
/// the network's first and last address.
pub(crate) proof fn lemma_contains_range_u32(a: u32, p: u8, x: u32)
    by (bit_vector)
    requires
        a & spec_bite_mask(p) == a,
    ensures
        (x & spec_bite_mask(p) == a) <==> (a <= x <= (a | !spec_bite_mask(p))),
{
}

/// An address matches a mask-aligned network exactly when it lies between
/// the network's first and last address (128-bit space).
pub(crate) proof fn lemma_contains_range_u128(a: u128, p: u8, x: u128)
    by (bit_vector)
    requires
        a & spec_bite_mask_u128(p) == a,
    ensures
        (x & spec_bite_mask_u128(p) == a) <==> (a <= x <= (a | !spec_bite_mask_u128(p))),
{
}

/// Facts about a summarizer block of `2^n` addresses starting at `c`, where
/// the low `t` bits of `c` are zero and `n <= t`: the block start is aligned
/// to prefix `32 - n`, the block fits the address space, its last address is
/// `c + 2^n - 1`, and when `n` is exactly the alignment of `c`, the start is
/// not aligned one level higher.
pub(crate) proof fn lemma_summarize_block_u32(c: u32, t: u32, n: u32)
    by (bit_vector)
    requires
        t <= 32,
        n <= t,
        n <= 31,
        c << ((32 - t) as u32) == 0,
    ensures
        c & spec_bite_mask((32 - n) as u8) == c,
        c + ((1u32 << n) - 1) <= u32::MAX,
        (c | !spec_bite_mask((32 - n) as u8)) == c + ((1u32 << n) - 1),
        (t < 32 && (c >> t) & 1u32 == 1u32 && n == t) ==> c & spec_bite_mask((31 - n) as u8) != c,
{
}

/// The block of a valid network of prefix `p >= 1` spans exactly
/// `2^(32-p)` addresses.
pub(crate) proof fn lemma_block_size_u32(a: u32, p: u8)
    by (bit_vector)
    requires
        1 <= p <= 32,
        a & spec_bite_mask(p) == a,
    ensures
        (a | !spec_bite_mask(p)) >= a,
        ((a | !spec_bite_mask(p)) - a + 1) == (1u32 << ((32 - p) as u32)),
{
}

/// One step of scanning for trailing zeros: a zero bit above an aligned
/// prefix extends the alignment, and full alignment of the top bit means
/// the value is zero.
pub(crate) proof fn lemma_tz_step_u128(x: u128, t: u32)
    by (bit_vector)
    requires
        t < 128,
        (x >> t) << t == x,
        (x >> t) & 1 == 0,
    ensures
        t < 127 ==> (x >> ((t + 1) as u32)) << ((t + 1) as u32) == x,
        t == 127 ==> x == 0,
{
}

/// Facts about a summarizer block of `2^n` addresses starting at `c` in
/// the 128-bit space, where `c` has `t` trailing zero bits and `n <= t`.
pub(crate) proof fn lemma_summarize_block_u128(c: u128, t: u32, n: u32)
    by (bit_vector)
    requires
        t <= 128,
        n <= t,
        n <= 127,
        t < 128 ==> (c >> t) << t == c,
        t == 128 ==> c == 0,
    ensures
        c & spec_bite_mask_u128((128 - n) as u8) == c,
        c + ((1u128 << n) - 1) <= u128::MAX,
        (c | !spec_bite_mask_u128((128 - n) as u8)) == c + ((1u128 << n) - 1),
        (t < 128 && (c >> t) & 1u128 == 1u128 && n == t) ==> c & spec_bite_mask_u128(
            (127 - n) as u8,
        ) != c,
{
}

/// The block of a valid network of prefix `p >= 1` spans exactly
/// `2^(128-p)` addresses.
pub(crate) proof fn lemma_block_size_u128(a: u128, p: u8)
    by (bit_vector)
    requires
        1 <= p <= 128,
        a & spec_bite_mask_u128(p) == a,
    ensures
        (a | !spec_bite_mask_u128(p)) >= a,
        ((a | !spec_bite_mask_u128(p)) - a + 1) == (1u128 << ((128 - p) as u32)),
{
}

/// Doubling a power-of-two shift (128-bit space).
pub(crate) proof fn lemma_shl1_double_u128(k: u32)
    by (bit_vector)
    requires
        1 <= k < 128,
    ensures
        (1u128 << k) == 2 * (1u128 << ((k - 1) as u32)),
{
}

/// A left shift of one is the power of two of the shift (128-bit space).
pub(crate) proof fn lemma_shl1_pow2_u128(n: nat)
    requires
        n < 128,
    ensures
        (1u128 << (n as u32)) == vstd::arithmetic::power2::pow2(n),
    decreases n,
{
    if n == 0 {
        assert(1u128 << 0u32 == 1) by (bit_vector);
        vstd::arithmetic::power2::lemma2_to64();
    } else {
        lemma_shl1_pow2_u128((n - 1) as nat);
        lemma_shl1_double_u128(n as u32);
        vstd::arithmetic::power2::lemma_pow2_unfold(n);
    }
}

} // verus!

//! Bit-mask arithmetic and the CIDR-string splitter.
use vstd::prelude::*;

verus! {

/// Number of bits needed to represent `n`: 0 for 0, otherwise
/// `floor(log2(n)) + 1`.
pub open spec fn spec_bit_length(n: nat) -> nat
    decreases n,
{
    if n == 0 {
        0
    } else {
        1 + spec_bit_length(n / 2)
    }
}

/// `n < 2^k` implies `spec_bit_length(n) <= k`.
proof fn lemma_bit_length_bound(n: nat, k: nat)
    requires
        n < vstd::arithmetic::power2::pow2(k),
    ensures
        spec_bit_length(n) <= k,
    decreases n,
{
    if n > 0 {
        vstd::arithmetic::power2::lemma2_to64();
        assert(k > 0);
        vstd::arithmetic::power2::lemma_pow2_unfold(k);
        lemma_bit_length_bound(n / 2, (k - 1) as nat);
    }
}

/// `2^(bit_length(n) - 1) <= n < 2^bit_length(n)` for `n > 0`.
pub proof fn lemma_bit_length_interval(n: nat)
    requires
        n > 0,
    ensures
        spec_bit_length(n) >= 1,
        vstd::arithmetic::power2::pow2((spec_bit_length(n) - 1) as nat) <= n,
        n < vstd::arithmetic::power2::pow2(spec_bit_length(n)),
    decreases n,
{
    if n / 2 == 0 {
        vstd::arithmetic::power2::lemma2_to64();
        assert(n == 1);
        assert(spec_bit_length(0) == 0);
        assert(spec_bit_length(1) == 1);
    } else {
        lemma_bit_length_interval(n / 2);
        let b = spec_bit_length(n / 2);
        let p = vstd::arithmetic::power2::pow2(b);
        vstd::arithmetic::power2::lemma_pow2_unfold(b);
        vstd::arithmetic::power2::lemma_pow2_unfold((b + 1) as nat);
        assert(spec_bit_length(n) == b + 1);
        assert(vstd::arithmetic::power2::pow2((b + 1) as nat) == 2 * p);
        assert(vstd::arithmetic::power2::pow2((b - 1) as nat) <= n / 2);
        assert(p == 2 * vstd::arithmetic::power2::pow2((b - 1) as nat));
        assert(n >= 2 * (n / 2));
        assert(p <= n);
        assert(n < 2 * p) by {
            assert(n <= 2 * (n / 2) + 1);
            assert(n / 2 < p);
        }
    }
}

/// Bit length of a 32-bit integer: 0 for 0, otherwise the position of the
/// highest set bit plus one.
pub fn bit_length(number: u32) -> (r: u8)
    ensures
        r as nat == spec_bit_length(number as nat),
        r <= 32,
{
    proof {
        vstd::arithmetic::power2::lemma2_to64();
        lemma_bit_length_bound(number as nat, 32);
    }
    let mut n: u32 = number;
    let mut len: u8 = 0;
    while n > 0
        invariant
            spec_bit_length(number as nat) == len + spec_bit_length(n as nat),
            len <= spec_bit_length(number as nat) <= 32,
        decreases n,
    {
        n = n / 2;
        len = len + 1;
    }
    len
}

/// A 32-bit value whose top `mask` bits are ones and whose remaining bits are
/// zeros; all ones when `mask >= 32`.
pub open spec fn spec_bite_mask(mask: u8) -> u32 {
    if mask >= 32 {
        u32::MAX
    } else {
        !(u32::MAX >> (mask as u32))
    }
}

/// A 128-bit value whose top `mask` bits are ones and whose remaining bits are
/// zeros; all ones when `mask >= 128`.
pub open spec fn spec_bite_mask_u128(mask: u8) -> u128 {
    if mask >= 128 {
        u128::MAX
    } else {
        !(u128::MAX >> (mask as u32))
    }
}

/// Bit length of a 128-bit integer: 0 for 0, otherwise the position of the
/// highest set bit plus one.
pub fn bit_length_u128(number: u128) -> (r: u8)
    ensures
        r as nat == spec_bit_length(number as nat),
        r <= 128,
{
    proof {
        vstd::arithmetic::power2::lemma2_to64();
        vstd::arithmetic::power2::lemma_pow2_adds(64, 64);
        lemma_bit_length_bound(number as nat, 128);
    }
    let mut n: u128 = number;
    let mut len: u8 = 0;
    while n > 0
        invariant
            spec_bit_length(number as nat) == len + spec_bit_length(n as nat),
            len <= spec_bit_length(number as nat) <= 128,
        decreases n,
    {
        n = n / 2;
        len = len + 1;
    }
    len
}

/// Netmask for a prefix length: the top `mask` bits set.
pub fn get_bite_mask(mask: u8) -> (r: u32)
    ensures
        r == spec_bite_mask(mask),
{
    if mask >= 32 {
        u32::MAX
    } else {
        !(u32::MAX >> (mask as u32))
    }
}

/// Netmask for a prefix length in the 128-bit address space.
pub fn get_bite_mask_u128(mask: u8) -> (r: u128)
    ensures
        r == spec_bite_mask_u128(mask),
{
    if mask >= 128 {
        u128::MAX
    } else {
        !(u128::MAX >> (mask as u32))
    }
}

/// Index of the first `/` in `s`, or -1 when there is none.
pub open spec fn spec_first_slash(s: Seq<char>) -> int
    decreases s.len(),
{
    if s.len() == 0 {
        -1
    } else if s[0] == '/' {
        0
    } else {
        let r = spec_first_slash(s.drop_first());
        if r < 0 {
            -1
        } else {
            1 + r
        }
    }
}

pub(crate) proof fn lemma_first_slash_props(s: Seq<char>)
    ensures
        spec_first_slash(s) >= 0 ==> {
            &&& spec_first_slash(s) < s.len()
            &&& s[spec_first_slash(s)] == '/'
            &&& forall|j: int| 0 <= j < spec_first_slash(s) ==> s[j] != '/'
        },
        spec_first_slash(s) < 0 ==> forall|j: int| 0 <= j < s.len() ==> s[j] != '/',
    decreases s.len(),
{
    if s.len() > 0 && s[0] != '/' {
        lemma_first_slash_props(s.drop_first());
        let r = spec_first_slash(s.drop_first());
        if r >= 0 {
            assert forall|j: int| 0 <= j < 1 + r implies s[j] != '/' by {
                if j > 0 {
                    assert(s.drop_first()[j - 1] != '/');
                }
            }
        } else {
            assert forall|j: int| 0 <= j < s.len() implies s[j] != '/' by {
                if j > 0 {
                    assert(s.drop_first()[j - 1] != '/');
                }
            }
        }
    }
}

/// Splitting of a CIDR string at its first `/`: `None` when there is no `/`
/// or when either side is empty, otherwise the two sides.
pub open spec fn spec_split_ip_netmask(s: Seq<char>) -> Option<(Seq<char>, Seq<char>)> {
    let i = spec_first_slash(s);
    if i < 0 {
        None
    } else {
        let ip = s.subrange(0, i);
        let mask = s.subrange(i + 1, s.len() as int);
        if ip.len() == 0 || mask.len() == 0 {
            None
        } else {
            Some((ip, mask))
        }
    }
}

/// Splits `input` at the first `/` into the address part and the netmask
/// part; `None` when there is no `/` or either part is empty.
pub fn split_ip_netmask(input: &str) -> (r: Option<(&str, &str)>)
    ensures
        match r {
            None => spec_split_ip_netmask(input@) is None,
            Some((ip, mask)) => spec_split_ip_netmask(input@) == Some((ip@, mask@)),
        },
{
    proof {
        lemma_first_slash_props(input@);
    }
    let n: usize = input.unicode_len();
    let mut i: usize = 0;
    while i < n && input.get_char(i) != '/'
        invariant
            0 <= i <= n,
            n == input@.len(),
            forall|j: int| 0 <= j < i ==> input@[j] != '/',
        decreases n - i,
    {
        i = i + 1;
    }
    if i == n {
        // no separator at all
        assert(spec_first_slash(input@) < 0) by {
            if spec_first_slash(input@) >= 0 {
                assert(input@[spec_first_slash(input@)] == '/');
            }
        }
        return None;
    }
    assert(spec_first_slash(input@) == i) by {
        let f = spec_first_slash(input@);
        if f < 0 {
            assert(input@[i as int] != '/');
        } else if f < i {
            assert(input@[f] != '/');
        } else if f > i {
            assert(input@[i as int] != '/');
        }
    }
    if i == 0 || i + 1 == n {
        return None;
    }
    let ip: &str = input.substring_char(0, i);
    let mask: &str = input.substring_char(i + 1, n);
    Some((ip, mask))
}

} // verus!

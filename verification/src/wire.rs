//! The binary wire form of a network, as the relational-database adapters
//! marshal it: a family byte (2 for IPv4, 3 for IPv6), the prefix length,
//! a fixed is-CIDR marker byte, the address byte count, then the raw
//! address bytes in network order.
use vstd::prelude::*;
use crate::IpNetwork;
use crate::Ipv4Network;
use crate::Ipv6Network;
use crate::helpers::spec_bite_mask;
use crate::helpers::spec_bite_mask_u128;

verus! {

/// The wire form of an IPv4 network: family 2, prefix, marker 1, count 4,
/// and the four address bytes.
pub open spec fn spec_wire_v4(a: u32, p: u8) -> Seq<u8> {
    seq![
        2u8,
        p,
        1u8,
        4u8,
        ((a >> 24u32) & 0xff) as u8,
        ((a >> 16u32) & 0xff) as u8,
        ((a >> 8u32) & 0xff) as u8,
        (a & 0xff) as u8,
    ]
}

/// The wire form of an IPv6 network: family 3, prefix, marker 1, count 16,
/// and the sixteen address bytes.
pub open spec fn spec_wire_v6(a: u128, p: u8) -> Seq<u8> {
    seq![
        3u8,
        p,
        1u8,
        16u8,
        ((a >> 120u32) & 0xff) as u8,
        ((a >> 112u32) & 0xff) as u8,
        ((a >> 104u32) & 0xff) as u8,
        ((a >> 96u32) & 0xff) as u8,
        ((a >> 88u32) & 0xff) as u8,
        ((a >> 80u32) & 0xff) as u8,
        ((a >> 72u32) & 0xff) as u8,
        ((a >> 64u32) & 0xff) as u8,
        ((a >> 56u32) & 0xff) as u8,
        ((a >> 48u32) & 0xff) as u8,
        ((a >> 40u32) & 0xff) as u8,
        ((a >> 32u32) & 0xff) as u8,
        ((a >> 24u32) & 0xff) as u8,
        ((a >> 16u32) & 0xff) as u8,
        ((a >> 8u32) & 0xff) as u8,
        (a & 0xff) as u8,
    ]
}

/// The 32-bit address the four wire address bytes denote.
pub open spec fn spec_wire_addr_v4(raw: Seq<u8>) -> u32 {
    (((raw[4] as nat) * 0x100_0000 + (raw[5] as nat) * 0x1_0000 + (raw[6] as nat) * 0x100 + (
    raw[7] as nat)) as u32)
}

/// The address and prefix an IPv4 wire form denotes, when the bytes have
/// the right shape, the prefix fits, and no host bit is set.
pub open spec fn spec_parse_wire_v4(raw: Seq<u8>) -> Option<(u32, u8)> {
    if raw.len() == 8 && raw[0] == 2 && raw[2] == 1 && raw[3] == 4 && raw[1] <= 32
        && spec_wire_addr_v4(raw) & spec_bite_mask(raw[1]) == spec_wire_addr_v4(raw) {
        Some((spec_wire_addr_v4(raw), raw[1]))
    } else {
        None
    }
}

/// The 128-bit address the sixteen wire address bytes denote.
pub open spec fn spec_wire_addr_v6(raw: Seq<u8>) -> u128 {
    let hi = (raw[4] as nat) * 0x100_0000_0000_0000 + (raw[5] as nat) * 0x1_0000_0000_0000 + (
    raw[6] as nat) * 0x100_0000_0000 + (raw[7] as nat) * 0x1_0000_0000 + (raw[8] as nat)
        * 0x100_0000 + (raw[9] as nat) * 0x1_0000 + (raw[10] as nat) * 0x100 + (raw[11] as nat);
    let lo = (raw[12] as nat) * 0x100_0000_0000_0000 + (raw[13] as nat) * 0x1_0000_0000_0000 + (
    raw[14] as nat) * 0x100_0000_0000 + (raw[15] as nat) * 0x1_0000_0000 + (raw[16] as nat)
        * 0x100_0000 + (raw[17] as nat) * 0x1_0000 + (raw[18] as nat) * 0x100 + (raw[19] as nat);
    ((hi * 0x1_0000_0000_0000_0000 + lo) as u128)
}

/// The address and prefix an IPv6 wire form denotes, when the bytes have
/// the right shape, the prefix fits, and no host bit is set.
pub open spec fn spec_parse_wire_v6(raw: Seq<u8>) -> Option<(u128, u8)> {
    if raw.len() == 20 && raw[0] == 3 && raw[2] == 1 && raw[3] == 16 && raw[1] <= 128
        && spec_wire_addr_v6(raw) & spec_bite_mask_u128(raw[1]) == spec_wire_addr_v6(raw) {
        Some((spec_wire_addr_v6(raw), raw[1]))
    } else {
        None
    }
}

impl Ipv4Network {
    /// Returns the binary wire form of the network.
    pub fn to_wire_bytes(&self) -> (r: Vec<u8>)
        ensures
            r@ == spec_wire_v4(self.spec_network_address(), self.spec_netmask()),
    {
        let a = self.network_address();
        proof {
            assert((a >> 24u32) & 0xff < 256 && (a >> 16u32) & 0xff < 256 && (a >> 8u32) & 0xff
                < 256 && a & 0xff < 256) by (bit_vector);
        }
        let mut v: Vec<u8> = Vec::new();
        v.push(2);
        v.push(self.netmask());
        v.push(1);
        v.push(4);
        v.push(((a >> 24u32) & 0xff) as u8);
        v.push(((a >> 16u32) & 0xff) as u8);
        v.push(((a >> 8u32) & 0xff) as u8);
        v.push((a & 0xff) as u8);
        proof {
            assert(v@ =~= spec_wire_v4(self.spec_network_address(), self.spec_netmask()));
        }
        v
    }

    /// Reads a network back from its binary wire form; `None` when the
    /// bytes are not the wire form of a valid IPv4 network.
    pub fn from_wire_bytes(raw: &[u8]) -> (r: Option<Self>)
        ensures
            match spec_parse_wire_v4(raw@) {
                Some((a, p)) => {
                    &&& r is Some
                    &&& r->0.spec_network_address() == a
                    &&& r->0.spec_netmask() == p
                },
                None => r is None,
            },
    {
        if raw.len() != 8 {
            return None;
        }
        let b0 = *vstd::slice::slice_index_get(raw, 0);
        let p = *vstd::slice::slice_index_get(raw, 1);
        let b2 = *vstd::slice::slice_index_get(raw, 2);
        let b3 = *vstd::slice::slice_index_get(raw, 3);
        if b0 != 2 || b2 != 1 || b3 != 4 {
            return None;
        }
        let a = (*vstd::slice::slice_index_get(raw, 4) as u32) * 0x100_0000 + (
        *vstd::slice::slice_index_get(raw, 5) as u32) * 0x1_0000 + (*vstd::slice::slice_index_get(
            raw,
            6,
        ) as u32) * 0x100 + (*vstd::slice::slice_index_get(raw, 7) as u32);
        match Self::new(a, p) {
            Ok(network) => Some(network),
            Err(_) => None,
        }
    }
}

impl Ipv6Network {
    /// Returns the binary wire form of the network.
    pub fn to_wire_bytes(&self) -> (r: Vec<u8>)
        ensures
            r@ == spec_wire_v6(self.spec_network_address(), self.spec_netmask()),
    {
        let a = self.network_address();
        proof {
            assert((a >> 120u32) & 0xff < 256 && (a >> 112u32) & 0xff < 256 && (a >> 104u32) & 0xff
                < 256 && (a >> 96u32) & 0xff < 256 && (a >> 88u32) & 0xff < 256 && (a >> 80u32)
                & 0xff < 256 && (a >> 72u32) & 0xff < 256 && (a >> 64u32) & 0xff < 256)
                by (bit_vector);
            assert((a >> 56u32) & 0xff < 256 && (a >> 48u32) & 0xff < 256 && (a >> 40u32) & 0xff
                < 256 && (a >> 32u32) & 0xff < 256 && (a >> 24u32) & 0xff < 256 && (a >> 16u32)
                & 0xff < 256 && (a >> 8u32) & 0xff < 256 && a & 0xff < 256) by (bit_vector);
        }
        let mut v: Vec<u8> = Vec::new();
        v.push(3);
        v.push(self.netmask());
        v.push(1);
        v.push(16);
        v.push(((a >> 120u32) & 0xff) as u8);
        v.push(((a >> 112u32) & 0xff) as u8);
        v.push(((a >> 104u32) & 0xff) as u8);
        v.push(((a >> 96u32) & 0xff) as u8);
        v.push(((a >> 88u32) & 0xff) as u8);
        v.push(((a >> 80u32) & 0xff) as u8);
        v.push(((a >> 72u32) & 0xff) as u8);
        v.push(((a >> 64u32) & 0xff) as u8);
        v.push(((a >> 56u32) & 0xff) as u8);
        v.push(((a >> 48u32) & 0xff) as u8);
        v.push(((a >> 40u32) & 0xff) as u8);
        v.push(((a >> 32u32) & 0xff) as u8);
        v.push(((a >> 24u32) & 0xff) as u8);
        v.push(((a >> 16u32) & 0xff) as u8);
        v.push(((a >> 8u32) & 0xff) as u8);
        v.push((a & 0xff) as u8);
        proof {
            assert(v@ =~= spec_wire_v6(self.spec_network_address(), self.spec_netmask()));
        }
        v
    }

    /// Reads a network back from its binary wire form; `None` when the
    /// bytes are not the wire form of a valid IPv6 network.
    pub fn from_wire_bytes(raw: &[u8]) -> (r: Option<Self>)
        ensures
            match spec_parse_wire_v6(raw@) {
                Some((a, p)) => {
                    &&& r is Some
                    &&& r->0.spec_network_address() == a
                    &&& r->0.spec_netmask() == p
                },
                None => r is None,
            },
    {
        if raw.len() != 20 {
            return None;
        }
        let b0 = *vstd::slice::slice_index_get(raw, 0);
        let p = *vstd::slice::slice_index_get(raw, 1);
        let b2 = *vstd::slice::slice_index_get(raw, 2);
        let b3 = *vstd::slice::slice_index_get(raw, 3);
        if b0 != 3 || b2 != 1 || b3 != 16 {
            return None;
        }
        let mut hi: u64 = 0;
        let mut k: usize = 4;
        while k < 12
            invariant
                4 <= k <= 12,
                raw@.len() == 20,
                hi <= 0xffff_ffff_ffff_ffff,
                hi as nat == spec_wire_bytes_val(raw@, 4, k as int),
            decreases 12 - k,
        {
            proof {
                lemma_wire_bytes_val_small(raw@, 4, k as int);
            }
            hi = hi * 0x100 + (*vstd::slice::slice_index_get(raw, k) as u64);
            k = k + 1;
        }
        let mut lo: u64 = 0;
        let mut j: usize = 12;
        while j < 20
            invariant
                12 <= j <= 20,
                raw@.len() == 20,
                lo <= 0xffff_ffff_ffff_ffff,
                lo as nat == spec_wire_bytes_val(raw@, 12, j as int),
            decreases 20 - j,
        {
            proof {
                lemma_wire_bytes_val_small(raw@, 12, j as int);
            }
            lo = lo * 0x100 + (*vstd::slice::slice_index_get(raw, j) as u64);
            j = j + 1;
        }
        let a: u128 = (hi as u128) * 0x1_0000_0000_0000_0000 + (lo as u128);
        proof {
            lemma_wire_bytes_val_unroll(raw@, 4);
            lemma_wire_bytes_val_unroll(raw@, 12);
        }
        match Self::new(a, p) {
            Ok(network) => Some(network),
            Err(_) => None,
        }
    }
}

/// The big-endian value of the wire bytes in `[lo, hi)`.
pub open spec fn spec_wire_bytes_val(raw: Seq<u8>, lo: int, hi: int) -> nat
    decreases hi - lo,
{
    if hi <= lo {
        0
    } else {
        spec_wire_bytes_val(raw, lo, hi - 1) * 0x100 + (raw[hi - 1] as nat)
    }
}

/// Eight wire bytes fit a 64-bit value.
proof fn lemma_wire_bytes_val_bound(raw: Seq<u8>, lo: int, hi: int)
    requires
        hi - lo <= 8,
    ensures
        spec_wire_bytes_val(raw, lo, hi) < 0x1_0000_0000_0000_0000,
    decreases hi - lo,
{
    if hi > lo {
        lemma_wire_bytes_val_bound(raw, lo, hi - 1);
        let v = spec_wire_bytes_val(raw, lo, hi - 1);
        assert(hi - 1 - lo <= 7);
        lemma_wire_bytes_val_small(raw, lo, hi - 1);
    }
}

/// The value of at most seven wire bytes leaves room for one more.
proof fn lemma_wire_bytes_val_small(raw: Seq<u8>, lo: int, hi: int)
    requires
        hi - lo <= 7,
    ensures
        spec_wire_bytes_val(raw, lo, hi) < 0x1_0000_0000_0000_00,
    decreases hi - lo,
{
    if hi > lo {
        lemma_wire_bytes_val_small2(raw, lo, hi - 1);
    }
}

proof fn lemma_wire_bytes_val_small2(raw: Seq<u8>, lo: int, hi: int)
    requires
        hi - lo <= 6,
    ensures
        spec_wire_bytes_val(raw, lo, hi) < 0x1_0000_0000_0000,
    decreases hi - lo,
{
    if hi > lo {
        lemma_wire_bytes_val_small3(raw, lo, hi - 1);
    }
}

proof fn lemma_wire_bytes_val_small3(raw: Seq<u8>, lo: int, hi: int)
    requires
        hi - lo <= 5,
    ensures
        spec_wire_bytes_val(raw, lo, hi) < 0x100_0000_0000,
    decreases hi - lo,
{
    if hi > lo {
        lemma_wire_bytes_val_small4(raw, lo, hi - 1);
    }
}

proof fn lemma_wire_bytes_val_small4(raw: Seq<u8>, lo: int, hi: int)
    requires
        hi - lo <= 4,
    ensures
        spec_wire_bytes_val(raw, lo, hi) < 0x1_0000_0000,
    decreases hi - lo,
{
    if hi > lo {
        lemma_wire_bytes_val_small5(raw, lo, hi - 1);
    }
}

proof fn lemma_wire_bytes_val_small5(raw: Seq<u8>, lo: int, hi: int)
    requires
        hi - lo <= 3,
    ensures
        spec_wire_bytes_val(raw, lo, hi) < 0x100_0000,
    decreases hi - lo,
{
    if hi > lo {
        lemma_wire_bytes_val_small6(raw, lo, hi - 1);
    }
}

proof fn lemma_wire_bytes_val_small6(raw: Seq<u8>, lo: int, hi: int)
    requires
        hi - lo <= 2,
    ensures
        spec_wire_bytes_val(raw, lo, hi) < 0x1_0000,
    decreases hi - lo,
{
    if hi > lo {
        assert(spec_wire_bytes_val(raw, lo, hi - 1) < 0x100) by {
            if hi - 1 > lo {
                assert(spec_wire_bytes_val(raw, lo, hi - 2) == 0);
            }
        }
    }
}

/// Unrolls the eight-byte value into the per-byte sum the wire address
/// specifications use.
proof fn lemma_wire_bytes_val_unroll(raw: Seq<u8>, lo: int)
    ensures
        spec_wire_bytes_val(raw, lo, lo + 8) == (raw[lo] as nat) * 0x100_0000_0000_0000 + (raw[lo
            + 1] as nat) * 0x1_0000_0000_0000 + (raw[lo + 2] as nat) * 0x100_0000_0000 + (raw[lo
            + 3] as nat) * 0x1_0000_0000 + (raw[lo + 4] as nat) * 0x100_0000 + (raw[lo + 5] as nat)
            * 0x1_0000 + (raw[lo + 6] as nat) * 0x100 + (raw[lo + 7] as nat),
{
    assert(spec_wire_bytes_val(raw, lo, lo) == 0);
    assert(spec_wire_bytes_val(raw, lo, lo + 1) == (raw[lo] as nat));
    assert(spec_wire_bytes_val(raw, lo, lo + 2) == spec_wire_bytes_val(raw, lo, lo + 1) * 0x100 + (
    raw[lo + 1] as nat));
    assert(spec_wire_bytes_val(raw, lo, lo + 3) == spec_wire_bytes_val(raw, lo, lo + 2) * 0x100 + (
    raw[lo + 2] as nat));
    assert(spec_wire_bytes_val(raw, lo, lo + 4) == spec_wire_bytes_val(raw, lo, lo + 3) * 0x100 + (
    raw[lo + 3] as nat));
    assert(spec_wire_bytes_val(raw, lo, lo + 5) == spec_wire_bytes_val(raw, lo, lo + 4) * 0x100 + (
    raw[lo + 4] as nat));
    assert(spec_wire_bytes_val(raw, lo, lo + 6) == spec_wire_bytes_val(raw, lo, lo + 5) * 0x100 + (
    raw[lo + 5] as nat));
    assert(spec_wire_bytes_val(raw, lo, lo + 7) == spec_wire_bytes_val(raw, lo, lo + 6) * 0x100 + (
    raw[lo + 6] as nat));
    assert(spec_wire_bytes_val(raw, lo, lo + 8) == spec_wire_bytes_val(raw, lo, lo + 7) * 0x100 + (
    raw[lo + 7] as nat));
}

impl IpNetwork {
    /// Returns the binary wire form of the contained network.
    pub fn to_wire_bytes(&self) -> (r: Vec<u8>)
        ensures
            r@ == match *self {
                IpNetwork::V4(network) => spec_wire_v4(
                    network.spec_network_address(),
                    network.spec_netmask(),
                ),
                IpNetwork::V6(network) => spec_wire_v6(
                    network.spec_network_address(),
                    network.spec_netmask(),
                ),
            },
    {
        match self {
            IpNetwork::V4(network) => network.to_wire_bytes(),
            IpNetwork::V6(network) => network.to_wire_bytes(),
        }
    }

    /// Reads a network of either family back from its binary wire form,
    /// deciding the family by the first byte.
    pub fn from_wire_bytes(raw: &[u8]) -> (r: Option<Self>)
        ensures
            match r {
                Some(network) => match network {
                    IpNetwork::V4(n4) => spec_parse_wire_v4(raw@) == Some(
                        (n4.spec_network_address(), n4.spec_netmask()),
                    ),
                    IpNetwork::V6(n6) => spec_parse_wire_v6(raw@) == Some(
                        (n6.spec_network_address(), n6.spec_netmask()),
                    ),
                },
                None => spec_parse_wire_v4(raw@) is None && spec_parse_wire_v6(raw@) is None,
            },
    {
        if raw.len() < 1 {
            return None;
        }
        let b0 = *vstd::slice::slice_index_get(raw, 0);
        if b0 == 2 {
            match Ipv4Network::from_wire_bytes(raw) {
                Some(network) => Some(IpNetwork::V4(network)),
                None => None,
            }
        } else if b0 == 3 {
            match Ipv6Network::from_wire_bytes(raw) {
                Some(network) => Some(IpNetwork::V6(network)),
                None => None,
            }
        } else {
            None
        }
    }
}

} // verus!

//! The library's general laws, stated over all values and proved once.
use vstd::prelude::*;
use crate::Ipv4Network;
use crate::Ipv6Network;
use crate::bitmath;
use crate::helpers::spec_bite_mask;
use crate::helpers::spec_bite_mask_u128;
use crate::ipv4_network::spec_mergeable_v4;
use crate::ipv6_network::spec_mergeable_v6;

verus! {

/// An IPv4 network contains an address exactly when the address lies
/// between its network address and its broadcast address.
pub proof fn lemma_contains_iff_in_range_v4(n: Ipv4Network, x: u32)
    requires
        n.is_valid(),
    ensures
        n.spec_contains(x) <==> (n.spec_network_address() <= x <= n.spec_broadcast()),
{
    bitmath::lemma_contains_range_u32(n.spec_network_address(), n.spec_netmask(), x);
}

/// An IPv6 network contains an address exactly when the address lies
/// between its network address and its last address.
pub proof fn lemma_contains_iff_in_range_v6(n: Ipv6Network, x: u128)
    requires
        n.is_valid(),
    ensures
        n.spec_contains(x) <==> (n.spec_network_address() <= x <= n.spec_last_address()),
{
    bitmath::lemma_contains_range_u128(n.spec_network_address(), n.spec_netmask(), x);
}

/// Containment boundary (IPv4): a valid network contains its own network
/// address and its broadcast address, and does not contain the address just
/// below the network address, when the address is not the family's minimum.
pub proof fn lemma_contains_boundary_v4(n: Ipv4Network)
    requires
        n.is_valid(),
    ensures
        n.spec_contains(n.spec_network_address()),
        n.spec_contains(n.spec_broadcast()),
        n.spec_network_address() > 0 ==> !n.spec_contains((n.spec_network_address() - 1) as u32),
{
    bitmath::lemma_contains_boundary_u32(
        n.spec_network_address(),
        spec_bite_mask(n.spec_netmask()),
    );
}

/// Containment boundary (IPv6): a valid network contains its own network
/// address and its last address, and does not contain the address just
/// below the network address, when the address is not the family's minimum.
pub proof fn lemma_contains_boundary_v6(n: Ipv6Network)
    requires
        n.is_valid(),
    ensures
        n.spec_contains(n.spec_network_address()),
        n.spec_contains(n.spec_last_address()),
        n.spec_network_address() > 0 ==> !n.spec_contains((n.spec_network_address() - 1) as u128),
{
    bitmath::lemma_contains_boundary_u128(
        n.spec_network_address(),
        spec_bite_mask_u128(n.spec_netmask()),
    );
}

/// Subnet exhaustiveness (IPv4): the two subnets of a network at prefix one
/// deeper — the pair that `subnets()` emits — partition the parent exactly:
/// every address of the parent lies in exactly one of them.
pub proof fn lemma_subnets_partition_v4(n: Ipv4Network, c0: Ipv4Network, c1: Ipv4Network, x: u32)
    requires
        n.is_valid(),
        n.spec_netmask() < 32,
        c0.spec_network_address() == n.spec_network_address(),
        c0.spec_netmask() == n.spec_netmask() + 1,
        c1.spec_network_address() == n.spec_network_address() + (1u32 << ((31 - n.spec_netmask())
            as u32)),
        c1.spec_netmask() == n.spec_netmask() + 1,
    ensures
        n.spec_contains(x) <==> (c0.spec_contains(x) || c1.spec_contains(x)),
        !(c0.spec_contains(x) && c1.spec_contains(x)),
{
    bitmath::lemma_partition_u32(n.spec_network_address(), x, n.spec_netmask());
}

/// Subnet exhaustiveness (IPv6): the two subnets of a network at prefix one
/// deeper — the pair that `subnets()` emits — partition the parent exactly:
/// every address of the parent lies in exactly one of them.
pub proof fn lemma_subnets_partition_v6(n: Ipv6Network, c0: Ipv6Network, c1: Ipv6Network, x: u128)
    requires
        n.is_valid(),
        n.spec_netmask() < 128,
        c0.spec_network_address() == n.spec_network_address(),
        c0.spec_netmask() == n.spec_netmask() + 1,
        c1.spec_network_address() == n.spec_network_address() + (1u128 << ((127 - n.spec_netmask())
            as u32)),
        c1.spec_netmask() == n.spec_netmask() + 1,
    ensures
        n.spec_contains(x) <==> (c0.spec_contains(x) || c1.spec_contains(x)),
        !(c0.spec_contains(x) && c1.spec_contains(x)),
{
    bitmath::lemma_partition_u128(n.spec_network_address(), x, n.spec_netmask());
}

/// Round trip (IPv4): parsing the canonical text of a valid network gives
/// back exactly the network's address and netmask, so the parsed network
/// equals the formatted one.
pub proof fn lemma_parse_format_roundtrip_v4(n: Ipv4Network)
    requires
        n.is_valid(),
    ensures
        crate::text::spec_from_str_v4(
            crate::text::spec_fmt_net_v4(n.spec_network_address(), n.spec_netmask()),
        ) == Ok::<(u32, u8), crate::IpNetworkParseError>(
            (n.spec_network_address(), n.spec_netmask()),
        ),
{
    crate::text::lemma_roundtrip_v4(n.spec_network_address(), n.spec_netmask());
}

/// Round trip (IPv6): parsing the canonical text of a valid network gives
/// back exactly the network's address and netmask, so the parsed network
/// equals the formatted one.
pub proof fn lemma_parse_format_roundtrip_v6(n: Ipv6Network)
    requires
        n.is_valid(),
    ensures
        crate::text::spec_from_str_v6(
            crate::text::spec_fmt_net_v6(n.spec_network_address(), n.spec_netmask()),
        ) == Ok::<(u128, u8), crate::IpNetworkParseError>(
            (n.spec_network_address(), n.spec_netmask()),
        ),
{
    crate::text::lemma_roundtrip_v6(n.spec_network_address(), n.spec_netmask());
}

/// Round trip of the version-agnostic form: parsing the canonical text of
/// a valid network of either family gives back the same tagged network.
pub proof fn lemma_parse_format_roundtrip_ip(n: crate::IpNetwork)
    requires
        match n {
            crate::IpNetwork::V4(n4) => n4.is_valid(),
            crate::IpNetwork::V6(n6) => n6.is_valid(),
        },
    ensures
        match n {
            crate::IpNetwork::V4(n4) => crate::text::spec_from_str_ip(
                crate::text::spec_fmt_net_v4(n4.spec_network_address(), n4.spec_netmask()),
            ) == Ok::<(crate::IpAddr, u8), crate::IpNetworkParseError>(
                (crate::IpAddr::V4(n4.spec_network_address()), n4.spec_netmask()),
            ),
            crate::IpNetwork::V6(n6) => crate::text::spec_from_str_ip(
                crate::text::spec_fmt_net_v6(n6.spec_network_address(), n6.spec_netmask()),
            ) == Ok::<(crate::IpAddr, u8), crate::IpNetworkParseError>(
                (crate::IpAddr::V6(n6.spec_network_address()), n6.spec_netmask()),
            ),
        },
{
    match n {
        crate::IpNetwork::V4(n4) => {
            crate::text::lemma_roundtrip_ip_v4(n4.spec_network_address(), n4.spec_netmask());
        },
        crate::IpNetwork::V6(n6) => {
            crate::text::lemma_roundtrip_ip_v6(n6.spec_network_address(), n6.spec_netmask());
        },
    }
}

/// The chain shape that `summarize_address_range` guarantees: valid blocks,
/// the first starting at `first`, the last ending at `last`, each block
/// starting right after its predecessor ends.
pub open spec fn spec_block_chain(blocks: Seq<Ipv4Network>, first: u32, last: u32) -> bool {
    &&& blocks.len() >= 1
    &&& blocks[0].spec_network_address() == first
    &&& blocks[blocks.len() - 1].spec_broadcast() == last
    &&& forall|i: int| 0 <= i < blocks.len() ==> (#[trigger] blocks[i]).is_valid()
    &&& forall|i: int|
        0 <= i < blocks.len() - 1 ==> (#[trigger] blocks[i + 1]).spec_network_address() == blocks[
            i
        ].spec_broadcast() + 1
}

/// In a chain of blocks, an earlier block ends strictly before a later
/// block begins.
proof fn lemma_chain_monotone(blocks: Seq<Ipv4Network>, first: u32, last: u32, i: int, j: int)
    requires
        spec_block_chain(blocks, first, last),
        0 <= i < j < blocks.len(),
    ensures
        blocks[i].spec_broadcast() < blocks[j].spec_network_address(),
    decreases j - i,
{
    assert(blocks[i + 1].spec_network_address() == blocks[i].spec_broadcast() + 1);
    if j == i + 1 {
    } else {
        lemma_chain_monotone(blocks, first, last, i, j - 1);
        lemma_contains_iff_in_range_v4(blocks[j - 1], blocks[j - 1].spec_network_address());
        assert(blocks[(j - 1) + 1].spec_network_address() == blocks[j - 1].spec_broadcast() + 1);
    }
}

/// Summarizer exactness (IPv4): for a chain of blocks as returned by
/// `summarize_address_range`, an address lies in `[first, last]` exactly
/// when some block contains it, and no two blocks share an address.
pub proof fn lemma_summarize_exact_cover(blocks: Seq<Ipv4Network>, first: u32, last: u32, x: u32)
    requires
        spec_block_chain(blocks, first, last),
    ensures
        (first <= x <= last) <==> exists|i: int|
            0 <= i < blocks.len() && (#[trigger] blocks[i]).spec_contains(x),
        forall|i: int, j: int|
            0 <= i < j < blocks.len() ==> !((#[trigger] blocks[i]).spec_contains(x) && (
            #[trigger] blocks[j]).spec_contains(x)),
    decreases blocks.len(),
{
    let len = blocks.len() as int;
    // any contained address lies in [first, last]
    assert forall|i: int|
        0 <= i < len && (#[trigger] blocks[i]).spec_contains(x) implies first <= x <= last by {
        lemma_contains_iff_in_range_v4(blocks[i], x);
        if i > 0 {
            lemma_chain_monotone(blocks, first, last, 0, i);
            lemma_contains_iff_in_range_v4(blocks[0], blocks[0].spec_network_address());
        }
        if i < len - 1 {
            lemma_chain_monotone(blocks, first, last, i, len - 1);
            lemma_contains_iff_in_range_v4(
                blocks[len - 1],
                blocks[len - 1].spec_network_address(),
            );
        }
    }
    // no address is in two blocks
    assert forall|i: int, j: int|
        0 <= i < j < len implies !((#[trigger] blocks[i]).spec_contains(x) && (
    #[trigger] blocks[j]).spec_contains(x)) by {
        lemma_contains_iff_in_range_v4(blocks[i], x);
        lemma_contains_iff_in_range_v4(blocks[j], x);
        lemma_chain_monotone(blocks, first, last, i, j);
    }
    // every address of [first, last] is in some block
    if first <= x <= last {
        if x <= blocks[0].spec_broadcast() {
            lemma_contains_iff_in_range_v4(blocks[0], x);
            assert(blocks[0].spec_contains(x));
        } else {
            let rest = blocks.drop_first();
            let first2 = blocks[1].spec_network_address();
            assert(spec_block_chain(rest, first2, last)) by {
                assert(rest[rest.len() - 1] == blocks[len - 1]);
                assert forall|i: int| 0 <= i < rest.len() implies (
                #[trigger] rest[i]).is_valid() by {
                    assert(rest[i] == blocks[i + 1]);
                }
                assert forall|i: int|
                    0 <= i < rest.len() - 1 implies (#[trigger] rest[i + 1]).spec_network_address()
                    == rest[i].spec_broadcast() + 1 by {
                    assert(rest[i] == blocks[i + 1]);
                    assert(rest[i + 1] == blocks[i + 2]);
                }
            }
            lemma_summarize_exact_cover(rest, first2, last, x);
            let w = choose|i: int| 0 <= i < rest.len() && (#[trigger] rest[i]).spec_contains(x);
            assert(rest[w] == blocks[w + 1]);
            assert(blocks[w + 1].spec_contains(x));
        }
    }
}

/// The chain shape that the IPv6 `summarize_address_range` guarantees.
pub open spec fn spec_block_chain_v6(blocks: Seq<Ipv6Network>, first: u128, last: u128) -> bool {
    &&& blocks.len() >= 1
    &&& blocks[0].spec_network_address() == first
    &&& blocks[blocks.len() - 1].spec_last_address() == last
    &&& forall|i: int| 0 <= i < blocks.len() ==> (#[trigger] blocks[i]).is_valid()
    &&& forall|i: int|
        0 <= i < blocks.len() - 1 ==> (#[trigger] blocks[i + 1]).spec_network_address() == blocks[
            i
        ].spec_last_address() + 1
}

/// In a chain of blocks, an earlier block ends strictly before a later
/// block begins (128-bit space).
proof fn lemma_chain_monotone_v6(blocks: Seq<Ipv6Network>, first: u128, last: u128, i: int, j: int)
    requires
        spec_block_chain_v6(blocks, first, last),
        0 <= i < j < blocks.len(),
    ensures
        blocks[i].spec_last_address() < blocks[j].spec_network_address(),
    decreases j - i,
{
    assert(blocks[i + 1].spec_network_address() == blocks[i].spec_last_address() + 1);
    if j == i + 1 {
    } else {
        lemma_chain_monotone_v6(blocks, first, last, i, j - 1);
        lemma_contains_iff_in_range_v6(blocks[j - 1], blocks[j - 1].spec_network_address());
        assert(blocks[(j - 1) + 1].spec_network_address() == blocks[j - 1].spec_last_address()
            + 1);
    }
}

/// Summarizer exactness (IPv6): for a chain of blocks as returned by
/// `summarize_address_range`, an address lies in `[first, last]` exactly
/// when some block contains it, and no two blocks share an address.
pub proof fn lemma_summarize_exact_cover_v6(
    blocks: Seq<Ipv6Network>,
    first: u128,
    last: u128,
    x: u128,
)
    requires
        spec_block_chain_v6(blocks, first, last),
    ensures
        (first <= x <= last) <==> exists|i: int|
            0 <= i < blocks.len() && (#[trigger] blocks[i]).spec_contains(x),
        forall|i: int, j: int|
            0 <= i < j < blocks.len() ==> !((#[trigger] blocks[i]).spec_contains(x) && (
            #[trigger] blocks[j]).spec_contains(x)),
    decreases blocks.len(),
{
    let len = blocks.len() as int;
    // any contained address lies in [first, last]
    assert forall|i: int|
        0 <= i < len && (#[trigger] blocks[i]).spec_contains(x) implies first <= x <= last by {
        lemma_contains_iff_in_range_v6(blocks[i], x);
        if i > 0 {
            lemma_chain_monotone_v6(blocks, first, last, 0, i);
            lemma_contains_iff_in_range_v6(blocks[0], blocks[0].spec_network_address());
        }
        if i < len - 1 {
            lemma_chain_monotone_v6(blocks, first, last, i, len - 1);
            lemma_contains_iff_in_range_v6(
                blocks[len - 1],
                blocks[len - 1].spec_network_address(),
            );
        }
    }
    // no address is in two blocks
    assert forall|i: int, j: int|
        0 <= i < j < len implies !((#[trigger] blocks[i]).spec_contains(x) && (
    #[trigger] blocks[j]).spec_contains(x)) by {
        lemma_contains_iff_in_range_v6(blocks[i], x);
        lemma_contains_iff_in_range_v6(blocks[j], x);
        lemma_chain_monotone_v6(blocks, first, last, i, j);
    }
    // every address of [first, last] is in some block
    if first <= x <= last {
        if x <= blocks[0].spec_last_address() {
            lemma_contains_iff_in_range_v6(blocks[0], x);
            assert(blocks[0].spec_contains(x));
        } else {
            let rest = blocks.drop_first();
            let first2 = blocks[1].spec_network_address();
            assert(spec_block_chain_v6(rest, first2, last)) by {
                assert(rest[rest.len() - 1] == blocks[len - 1]);
                assert forall|i: int| 0 <= i < rest.len() implies (
                #[trigger] rest[i]).is_valid() by {
                    assert(rest[i] == blocks[i + 1]);
                }
                assert forall|i: int|
                    0 <= i < rest.len() - 1 implies (#[trigger] rest[i + 1]).spec_network_address()
                    == rest[i].spec_last_address() + 1 by {
                    assert(rest[i] == blocks[i + 1]);
                    assert(rest[i + 1] == blocks[i + 2]);
                }
            }
            lemma_summarize_exact_cover_v6(rest, first2, last, x);
            let w = choose|i: int| 0 <= i < rest.len() && (#[trigger] rest[i]).spec_contains(x);
            assert(rest[w] == blocks[w + 1]);
            assert(blocks[w + 1].spec_contains(x));
        }
    }
}

} // verus!

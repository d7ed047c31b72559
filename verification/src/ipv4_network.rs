//! IPv4 network: a validated (address, prefix) pair over the 32-bit space.
use vstd::prelude::*;
use crate::IpNetworkError;
use crate::bitmath;
use crate::helpers::get_bite_mask;
use crate::helpers::spec_bite_mask;

verus! {

/// Two adjacent blocks that could be replaced by a single block of prefix
/// one shorter: equal prefixes, the second directly following the first,
/// and the first aligned one prefix level higher.
pub open spec fn spec_mergeable_v4(x: Ipv4Network, y: Ipv4Network) -> bool {
    &&& x.spec_netmask() == y.spec_netmask()
    &&& x.spec_netmask() >= 1
    &&& y.spec_network_address() == x.spec_broadcast() + 1
    &&& x.spec_network_address() & spec_bite_mask((x.spec_netmask() - 1) as u8)
        == x.spec_network_address()
}

/// IPv4 network: a 32-bit network address plus a prefix length (`netmask`),
/// with all host bits of the address zero.
#[derive(Clone, Copy, Debug, Eq, PartialEq, Structural, Hash, PartialOrd, Ord)]
pub struct Ipv4Network {
    network_address: u32,
    netmask: u8,
}

impl Ipv4Network {
    /// IPv4 address length in bits.
    pub const LENGTH: u8 = 32;

    /// The network address, as seen by specifications.
    pub closed spec fn spec_network_address(self) -> u32 {
        self.network_address
    }

    /// The netmask (prefix length), as seen by specifications.
    pub closed spec fn spec_netmask(self) -> u8 {
        self.netmask
    }

    /// The value invariant: the prefix fits the address width and no host
    /// bit of the address is set.
    pub open spec fn is_valid(self) -> bool {
        &&& self.spec_netmask() <= 32
        &&& self.spec_network_address() & spec_bite_mask(self.spec_netmask())
            == self.spec_network_address()
    }

    #[verifier::type_invariant]
    pub(crate) open spec fn type_inv(self) -> bool {
        self.is_valid()
    }

    /// Two networks with the same address and netmask are the same value.
    pub proof fn lemma_fields_determine(a: Self, b: Self)
        requires
            a.spec_network_address() == b.spec_network_address(),
            a.spec_netmask() == b.spec_netmask(),
        ensures
            a == b,
    {
    }

    /// What `contains` returns: the candidate masked by the netmask equals
    /// the network address.
    pub open spec fn spec_contains(self, ip: u32) -> bool {
        ip & spec_bite_mask(self.spec_netmask()) == self.spec_network_address()
    }

    /// The last address of the block (host bits all ones).
    pub open spec fn spec_broadcast(self) -> u32 {
        self.spec_network_address() | !spec_bite_mask(self.spec_netmask())
    }

    /// Constructs a new `Ipv4Network` from a network address and a netmask
    /// (prefix length).
    ///
    /// Fails with `NetmaskError` if the netmask exceeds 32, and with
    /// `HostBitsSet` if any address bit beyond the prefix is set.
    pub fn new(network_address: u32, netmask: u8) -> (r: Result<Self, IpNetworkError>)
        ensures
            netmask > 32 ==> r == Err::<Self, IpNetworkError>(IpNetworkError::NetmaskError(netmask)),
            netmask <= 32 && network_address & spec_bite_mask(netmask) != network_address ==> r
                == Err::<Self, IpNetworkError>(IpNetworkError::HostBitsSet),
            netmask <= 32 && network_address & spec_bite_mask(netmask) == network_address ==> {
                &&& r is Ok
                &&& r->Ok_0.spec_network_address() == network_address
                &&& r->Ok_0.spec_netmask() == netmask
            },
    {
        if netmask > 32 {
            return Err(IpNetworkError::NetmaskError(netmask));
        }
        if network_address & get_bite_mask(netmask) != network_address {
            return Err(IpNetworkError::HostBitsSet);
        }
        Ok(Self { network_address, netmask })
    }

    /// Constructs a new `Ipv4Network`, truncating (zeroing) any host bits of
    /// the given address; fails only if the netmask exceeds 32.
    pub fn new_truncate(network_address: u32, netmask: u8) -> (r: Result<Self, IpNetworkError>)
        ensures
            netmask > 32 ==> r == Err::<Self, IpNetworkError>(IpNetworkError::NetmaskError(netmask)),
            netmask <= 32 ==> {
                &&& r is Ok
                &&& r->Ok_0.spec_network_address() == network_address & spec_bite_mask(netmask)
                &&& r->Ok_0.spec_netmask() == netmask
            },
    {
        if netmask > 32 {
            return Err(IpNetworkError::NetmaskError(netmask));
        }
        let truncated = network_address & get_bite_mask(netmask);
        proof {
            bitmath::lemma_mask_idem_u32(network_address, spec_bite_mask(netmask));
        }
        Ok(Self { network_address: truncated, netmask })
    }

    /// Returns the network address (the first address of the block).
    pub fn network_address(&self) -> (r: u32)
        ensures
            r == self.spec_network_address(),
    {
        self.network_address
    }

    /// Returns the netmask (prefix length); at most 32.
    pub fn netmask(&self) -> (r: u8)
        ensures
            r == self.spec_netmask(),
            r <= 32,
    {
        proof {
            use_type_invariant(self);
        }
        self.netmask
    }

    /// Returns the broadcast address (the last address of the block).
    pub fn broadcast_address(&self) -> (r: u32)
        ensures
            r == self.spec_broadcast(),
    {
        self.network_address | !get_bite_mask(self.netmask)
    }

    /// Returns `true` iff `ip` lies inside this network: masking `ip` with
    /// the netmask yields the network address.
    pub fn contains(&self, ip: u32) -> (r: bool)
        ensures
            r == self.spec_contains(ip),
    {
        ip & get_bite_mask(self.netmask) == self.network_address
    }

    /// Returns the network one prefix bit shorter, its address re-masked;
    /// `None` when the prefix is already zero.
    pub fn supernet(&self) -> (r: Option<Self>)
        ensures
            self.spec_netmask() == 0 ==> r is None,
            self.spec_netmask() > 0 ==> {
                &&& r is Some
                &&& r->0.spec_network_address() == self.spec_network_address() & spec_bite_mask(
                    (self.spec_netmask() - 1) as u8,
                )
                &&& r->0.spec_netmask() == self.spec_netmask() - 1
            },
    {
        proof {
            use_type_invariant(self);
        }
        if self.netmask == 0 {
            None
        } else {
            let new_netmask = self.netmask - 1;
            let truncated = self.network_address & get_bite_mask(new_netmask);
            proof {
                bitmath::lemma_mask_idem_u32(self.network_address, spec_bite_mask(new_netmask));
            }
            Some(Self { network_address: truncated, netmask: new_netmask })
        }
    }

    /// Returns an iterator over the two halves of this network (its subnets
    /// of prefix one deeper); `None` when the prefix is already 32.
    pub fn subnets(&self) -> (r: Option<crate::iterator::Ipv4NetworkIterator>)
        ensures
            self.spec_netmask() == 32 ==> r is None,
            self.spec_netmask() < 32 ==> {
                &&& r is Some
                &&& r->0.wf()
                &&& r->0.spec_new_netmask() == self.spec_netmask() + 1
                &&& r->0.spec_current() == self.spec_network_address()
                &&& r->0.remaining() == 2
            },
    {
        proof {
            use_type_invariant(self);
        }
        if self.netmask == 32 {
            None
        } else {
            let it = crate::iterator::Ipv4NetworkIterator::new(*self, self.netmask + 1);
            proof {
                assert(!crate::helpers::spec_bite_mask(31u8) == 1u32) by (bit_vector);
            }
            Some(it)
        }
    }

    /// Returns an iterator over all subnets of this network with the given
    /// prefix length, which must be deeper than the network's own and at
    /// most 32.
    pub fn subnets_with_prefix(&self, prefix: u8) -> (r: crate::iterator::Ipv4NetworkIterator)
        requires
            self.spec_netmask() < prefix,
            prefix <= 32,
        ensures
            r.wf(),
            r.spec_new_netmask() == prefix,
            r.spec_current() == self.spec_network_address(),
            r.remaining() == (!spec_bite_mask((32 - (prefix - self.spec_netmask())) as u8)) + 1,
    {
        crate::iterator::Ipv4NetworkIterator::new(*self, prefix)
    }

    /// Returns an iterator over the host addresses of this network: the
    /// addresses strictly between the network address and the broadcast
    /// address; empty when the block has no such addresses.
    pub fn hosts(&self) -> (r: crate::iterator::Ipv4RangeIterator)
        ensures
            r.remaining() == if self.spec_network_address() + 1 <= self.spec_broadcast() - 1 {
                (self.spec_broadcast() - self.spec_network_address() - 1) as nat
            } else {
                0
            },
            r.remaining() > 0 ==> r.spec_current() == self.spec_network_address() + 1
                && r.spec_to() == self.spec_broadcast() - 1,
    {
        let a = self.network_address;
        let b = self.broadcast_address();
        if a < u32::MAX && b > 0 && a + 1 <= b - 1 {
            crate::iterator::Ipv4RangeIterator::new(a + 1, b - 1)
        } else {
            crate::iterator::Ipv4RangeIterator::new_empty()
        }
    }

    /// What `is_loopback` returns: both ends of the block lie in 127.0.0.0/8.
    pub open spec fn spec_is_loopback(self) -> bool {
        &&& self.spec_network_address() & 0xff00_0000 == 0x7f00_0000
        &&& self.spec_broadcast() & 0xff00_0000 == 0x7f00_0000
    }

    /// Returns `true` iff the whole block lies inside the loopback range
    /// 127.0.0.0/8.
    pub fn is_loopback(&self) -> (r: bool)
        ensures
            r == self.spec_is_loopback(),
    {
        let b = self.broadcast_address();
        self.network_address & 0xff00_0000 == 0x7f00_0000 && b & 0xff00_0000 == 0x7f00_0000
    }

    /// What `is_broadcast` returns: the block is exactly the all-ones
    /// address 255.255.255.255.
    pub open spec fn spec_is_broadcast(self) -> bool {
        &&& self.spec_network_address() == u32::MAX
        &&& self.spec_broadcast() == u32::MAX
    }

    /// Returns `true` iff the network is exactly the broadcast address
    /// 255.255.255.255/32.
    pub fn is_broadcast(&self) -> (r: bool)
        ensures
            r == self.spec_is_broadcast(),
    {
        let b = self.broadcast_address();
        self.network_address == u32::MAX && b == u32::MAX
    }

    /// What `is_private` returns: both ends of the block lie in one of
    /// 10.0.0.0/8, 172.16.0.0/12 or 192.168.0.0/16.
    pub open spec fn spec_is_private(self) -> bool {
        let a = self.spec_network_address();
        let b = self.spec_broadcast();
        ||| (a & 0xff00_0000 == 0x0a00_0000 && b & 0xff00_0000 == 0x0a00_0000)
        ||| (a & 0xfff0_0000 == 0xac10_0000 && b & 0xfff0_0000 == 0xac10_0000)
        ||| (a & 0xffff_0000 == 0xc0a8_0000 && b & 0xffff_0000 == 0xc0a8_0000)
    }

    /// Returns `true` iff the whole block lies inside one of the private
    /// ranges 10.0.0.0/8, 172.16.0.0/12 and 192.168.0.0/16.
    pub fn is_private(&self) -> (r: bool)
        ensures
            r == self.spec_is_private(),
    {
        let a = self.network_address;
        let b = self.broadcast_address();
        (a & 0xff00_0000 == 0x0a00_0000 && b & 0xff00_0000 == 0x0a00_0000) || (a & 0xfff0_0000
            == 0xac10_0000 && b & 0xfff0_0000 == 0xac10_0000) || (a & 0xffff_0000 == 0xc0a8_0000
            && b & 0xffff_0000 == 0xc0a8_0000)
    }

    /// What `is_link_local` returns: both ends of the block lie in
    /// 169.254.0.0/16.
    pub open spec fn spec_is_link_local(self) -> bool {
        &&& self.spec_network_address() & 0xffff_0000 == 0xa9fe_0000
        &&& self.spec_broadcast() & 0xffff_0000 == 0xa9fe_0000
    }

    /// Returns `true` iff the whole block lies inside the link-local range
    /// 169.254.0.0/16.
    pub fn is_link_local(&self) -> (r: bool)
        ensures
            r == self.spec_is_link_local(),
    {
        let b = self.broadcast_address();
        self.network_address & 0xffff_0000 == 0xa9fe_0000 && b & 0xffff_0000 == 0xa9fe_0000
    }

    /// What `is_multicast` returns: both ends of the block lie in
    /// 224.0.0.0/4.
    pub open spec fn spec_is_multicast(self) -> bool {
        &&& self.spec_network_address() & 0xf000_0000 == 0xe000_0000
        &&& self.spec_broadcast() & 0xf000_0000 == 0xe000_0000
    }

    /// Returns `true` iff the whole block lies inside the multicast range
    /// 224.0.0.0/4.
    pub fn is_multicast(&self) -> (r: bool)
        ensures
            r == self.spec_is_multicast(),
    {
        let b = self.broadcast_address();
        self.network_address & 0xf000_0000 == 0xe000_0000 && b & 0xf000_0000 == 0xe000_0000
    }

    /// What `is_documentation` returns: both ends of the block lie in one of
    /// 192.0.2.0/24, 198.51.100.0/24 or 203.0.113.0/24.
    pub open spec fn spec_is_documentation(self) -> bool {
        let a = self.spec_network_address();
        let b = self.spec_broadcast();
        ||| (a & 0xffff_ff00 == 0xc000_0200 && b & 0xffff_ff00 == 0xc000_0200)
        ||| (a & 0xffff_ff00 == 0xc633_6400 && b & 0xffff_ff00 == 0xc633_6400)
        ||| (a & 0xffff_ff00 == 0xcb00_7100 && b & 0xffff_ff00 == 0xcb00_7100)
    }

    /// Returns `true` iff the whole block lies inside one of the ranges
    /// reserved for documentation: 192.0.2.0/24, 198.51.100.0/24 and
    /// 203.0.113.0/24.
    pub fn is_documentation(&self) -> (r: bool)
        ensures
            r == self.spec_is_documentation(),
    {
        let a = self.network_address;
        let b = self.broadcast_address();
        (a & 0xffff_ff00 == 0xc000_0200 && b & 0xffff_ff00 == 0xc000_0200) || (a & 0xffff_ff00
            == 0xc633_6400 && b & 0xffff_ff00 == 0xc633_6400) || (a & 0xffff_ff00 == 0xcb00_7100
            && b & 0xffff_ff00 == 0xcb00_7100)
    }

    /// What `is_global` returns: none of the private, loopback, link-local,
    /// broadcast or documentation classifications applies.
    pub open spec fn spec_is_global(self) -> bool {
        &&& !self.spec_is_private()
        &&& !self.spec_is_loopback()
        &&& !self.spec_is_link_local()
        &&& !self.spec_is_broadcast()
        &&& !self.spec_is_documentation()
    }

    /// Returns `true` iff the network appears to be globally routable: it is
    /// neither private, loopback, link-local, the broadcast address, nor
    /// reserved for documentation.
    pub fn is_global(&self) -> (r: bool)
        ensures
            r == self.spec_is_global(),
    {
        !self.is_private() && !self.is_loopback() && !self.is_link_local() && !self.is_broadcast()
            && !self.is_documentation()
    }

    /// Converts the inclusive address range `[first, last]` into the
    /// minimal ordered list of CIDR blocks exactly covering it: the blocks
    /// are valid networks, the first starts at `first`, the last ends at
    /// `last`, each block starts right after its predecessor ends, and no
    /// two adjacent blocks could be merged into one valid block.
    pub fn summarize_address_range(first: u32, last: u32) -> (r: Vec<Ipv4Network>)
        ensures
            first > last ==> r@.len() == 0,
            first <= last ==> {
                &&& r@.len() >= 1
                &&& r@[0].spec_network_address() == first
                &&& r@[r@.len() - 1].spec_broadcast() == last
            },
            forall|i: int| 0 <= i < r@.len() ==> (#[trigger] r@[i]).is_valid(),
            forall|i: int|
                0 <= i < r@.len() - 1 ==> (#[trigger] r@[i + 1]).spec_network_address() == r@[
                    i
                ].spec_broadcast() + 1,
            forall|i: int| 0 <= i < r@.len() - 1 ==> !spec_mergeable_v4(#[trigger] r@[i], r@[i + 1]),
    {
        let mut blocks: Vec<Ipv4Network> = Vec::new();
        if first > last {
            return blocks;
        }
        let mut cur: u32 = first;
        let mut done: bool = false;
        while !done
            invariant
                first <= last,
                blocks@.len() > 0 ==> blocks@[0].spec_network_address() == first,
                forall|i: int| 0 <= i < blocks@.len() ==> (#[trigger] blocks@[i]).is_valid(),
                forall|i: int|
                    0 <= i < blocks@.len() - 1 ==> (#[trigger] blocks@[
                        i + 1
                    ]).spec_network_address() == blocks@[i].spec_broadcast() + 1,
                forall|i: int|
                    0 <= i < blocks@.len() - 1 ==> !spec_mergeable_v4(
                        #[trigger] blocks@[i],
                        blocks@[i + 1],
                    ),
                done ==> blocks@.len() > 0 && blocks@[blocks@.len() - 1].spec_broadcast() == last,
                !done ==> cur <= last,
                !done && blocks@.len() == 0 ==> cur == first,
                !done && blocks@.len() > 0 ==> blocks@[blocks@.len() - 1].spec_broadcast() + 1
                    == cur,
                !done && blocks@.len() > 0 ==> {
                    let prev = blocks@[blocks@.len() - 1];
                    ||| (prev.spec_netmask() >= 1 && prev.spec_network_address() & spec_bite_mask(
                        (prev.spec_netmask() - 1) as u8,
                    ) != prev.spec_network_address())
                    ||| last - cur < prev.spec_broadcast() - prev.spec_network_address()
                },
            decreases last - cur, (if done {
                0int
            } else {
                1int
            }),
        {
            let t: u32 = cur.trailing_zeros();
            proof {
                vstd::std_specs::bits::axiom_u32_trailing_zeros(cur);
            }
            let bld: u32;
            if cur == 0 && last == u32::MAX {
                bld = 32;
            } else {
                let rl: u32 = last - cur + 1;
                proof {
                    crate::helpers::lemma_bit_length_interval(rl as nat);
                }
                let bl: u8 = crate::helpers::bit_length(rl);
                bld = (bl - 1) as u32;
            }
            let n: u32 = if t < bld {
                t
            } else {
                bld
            };
            if n >= 32 {
                // only the full address space reaches here: emit 0.0.0.0/0
                proof {
                    assert(0u32 & spec_bite_mask(0u8) == 0u32) by (bit_vector);
                    assert((0u32 | !spec_bite_mask(0u8)) == u32::MAX) by (bit_vector);
                }
                let net = Ipv4Network::from_raw(0, 0);
                blocks.push(net);
                done = true;
                proof {
                    assert(t == 32 && bld == 32);
                    assert(cur == 0 && last == u32::MAX);
                    assert(net.spec_broadcast() == u32::MAX);
                    assert(blocks@[blocks@.len() - 1] == net);
                }
            } else {
                proof {
                    crate::bitmath::lemma_summarize_block_u32(cur, t, n);
                    vstd::bits::lemma_u32_pow2_no_overflow(n as nat);
                    vstd::bits::lemma_u32_shl_is_mul(1u32, n);
                    // 2^n fits in the remaining range
                    if n < bld {
                        vstd::arithmetic::power2::lemma_pow2_strictly_increases(
                            n as nat,
                            bld as nat,
                        );
                    }
                    if cur == 0 && last == u32::MAX {
                        vstd::arithmetic::power2::lemma_pow2_strictly_increases(n as nat, 32);
                        vstd::arithmetic::power2::lemma2_to64();
                        vstd::arithmetic::power2::lemma2_to64_rest();
                    }
                    assert(vstd::arithmetic::power2::pow2(n as nat) <= last - cur + 1);
                }
                let prefix: u8 = (32 - n) as u8;
                let net = Ipv4Network::from_raw(cur, prefix);
                let ghost old_blocks = blocks@;
                let ghost old_cur = cur;
                blocks.push(net);
                let block_end = net.broadcast_address();
                proof {
                    assert(block_end == old_cur + (1u32 << n) - 1);
                    assert(block_end <= last);
                    // no two adjacent blocks can be merged
                    if old_blocks.len() > 0 {
                        let prev = old_blocks[old_blocks.len() - 1];
                        if spec_mergeable_v4(prev, net) {
                            crate::bitmath::lemma_block_size_u32(
                                prev.spec_network_address(),
                                prev.spec_netmask(),
                            );
                            crate::bitmath::lemma_block_size_u32(
                                net.spec_network_address(),
                                net.spec_netmask(),
                            );
                            assert(false);
                        }
                    }
                }
                proof {
                    assert(blocks@[blocks@.len() - 1] == net);
                    if block_end != last {
                        // the pushed block is alignment-limited or uses up
                        // most of the range, so the next block cannot merge
                        // with it
                        if n == t {
                            assert(t < 32);
                            assert(net.spec_netmask() >= 1 && net.spec_network_address()
                                & spec_bite_mask((net.spec_netmask() - 1) as u8)
                                != net.spec_network_address());
                        } else {
                            assert(n == bld);
                            vstd::arithmetic::power2::lemma_pow2_unfold((n + 1) as nat);
                            assert(last - cur + 1 < vstd::arithmetic::power2::pow2((n + 1) as nat));
                            assert(last - (block_end + 1) < net.spec_broadcast()
                                - net.spec_network_address());
                        }
                    }
                }
                if block_end == last {
                    done = true;
                } else {
                    cur = block_end + 1;
                }
            }
        }
        blocks
    }

    /// Constructs the /32 network holding exactly the given address.
    pub fn from_address(ip: u32) -> (r: Self)
        ensures
            r.spec_network_address() == ip,
            r.spec_netmask() == 32,
    {
        proof {
            assert(ip & spec_bite_mask(32u8) == ip) by (bit_vector);
        }
        Self { network_address: ip, netmask: 32 }
    }

    /// Constructs a network whose fields are already known to satisfy the
    /// invariant; used by the crate's own iterators and algorithms.
    pub(crate) fn from_raw(network_address: u32, netmask: u8) -> (r: Self)
        requires
            netmask <= 32,
            network_address & spec_bite_mask(netmask) == network_address,
        ensures
            r.spec_network_address() == network_address,
            r.spec_netmask() == netmask,
    {
        Self { network_address, netmask }
    }
}

} // verus!

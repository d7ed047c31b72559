//! IPv6 network: a validated (address, prefix) pair over the 128-bit space.
use vstd::prelude::*;
use crate::IpNetworkError;
use crate::bitmath;
use crate::helpers::get_bite_mask_u128;
use crate::helpers::spec_bite_mask_u128;

verus! {

/// IPv6 multicast address scopes.
#[derive(Clone, Copy, Debug, Eq, PartialEq, Structural, Hash)]
pub enum Ipv6MulticastScope {
    InterfaceLocal,
    LinkLocal,
    RealmLocal,
    AdminLocal,
    SiteLocal,
    OrganizationLocal,
    Global,
}

/// Two adjacent blocks that could be replaced by a single block of prefix
/// one shorter: equal prefixes, the second directly following the first,
/// and the first aligned one prefix level higher.
pub open spec fn spec_mergeable_v6(x: Ipv6Network, y: Ipv6Network) -> bool {
    &&& x.spec_netmask() == y.spec_netmask()
    &&& x.spec_netmask() >= 1
    &&& y.spec_network_address() == x.spec_last_address() + 1
    &&& x.spec_network_address() & spec_bite_mask_u128((x.spec_netmask() - 1) as u8)
        == x.spec_network_address()
}

/// Number of trailing zero bits of a 128-bit value; 128 for zero.
fn trailing_zeros_u128(x: u128) -> (r: u32)
    ensures
        r <= 128,
        x == 0 <==> r == 128,
        r < 128 ==> ((x >> r) & 1 == 1 && (x >> r) << r == x),
        r == 128 ==> x == 0,
{
    let mut t: u32 = 0;
    proof {
        assert((x >> 0u32) << 0u32 == x) by (bit_vector);
    }
    while t < 128 && (x >> t) & 1 == 0
        invariant
            t <= 128,
            t < 128 ==> (x >> t) << t == x,
            t == 128 ==> x == 0,
        decreases 128 - t,
    {
        proof {
            crate::bitmath::lemma_tz_step_u128(x, t);
        }
        t = t + 1;
    }
    proof {
        if t < 128 {
            assert(((x >> t) & 1 != 0) ==> ((x >> t) & 1 == 1)) by (bit_vector);
            assert(x == 0 ==> (x >> t) & 1 == 0) by (bit_vector);
        }
    }
    t
}

/// IPv6 network: a 128-bit network address plus a prefix length (`netmask`),
/// with all host bits of the address zero.
#[derive(Clone, Copy, Debug, Eq, PartialEq, Structural, Hash, PartialOrd, Ord)]
pub struct Ipv6Network {
    network_address: u128,
    netmask: u8,
}

impl Ipv6Network {
    /// IPv6 address length in bits.
    pub const LENGTH: u8 = 128;

    /// The network address, as seen by specifications.
    pub closed spec fn spec_network_address(self) -> u128 {
        self.network_address
    }

    /// The netmask (prefix length), as seen by specifications.
    pub closed spec fn spec_netmask(self) -> u8 {
        self.netmask
    }

    /// The value invariant: the prefix fits the address width and no host
    /// bit of the address is set.
    pub open spec fn is_valid(self) -> bool {
        &&& self.spec_netmask() <= 128
        &&& self.spec_network_address() & spec_bite_mask_u128(self.spec_netmask())
            == self.spec_network_address()
    }

    #[verifier::type_invariant]
    pub(crate) open spec fn type_inv(self) -> bool {
        self.is_valid()
    }

    /// Two networks with the same address and netmask are the same value.
    pub proof fn lemma_fields_determine(a: Self, b: Self)
        requires
            a.spec_network_address() == b.spec_network_address(),
            a.spec_netmask() == b.spec_netmask(),
        ensures
            a == b,
    {
    }

    /// What `contains` returns: the candidate masked by the netmask equals
    /// the network address.
    pub open spec fn spec_contains(self, ip: u128) -> bool {
        ip & spec_bite_mask_u128(self.spec_netmask()) == self.spec_network_address()
    }

    /// The last address of the block (host bits all ones).
    pub open spec fn spec_last_address(self) -> u128 {
        self.spec_network_address() | !spec_bite_mask_u128(self.spec_netmask())
    }

    /// The first (most significant) 16-bit segment of the network address.
    pub open spec fn spec_segment0(self) -> u16 {
        (self.spec_network_address() >> 112) as u16
    }

    /// The second 16-bit segment of the network address.
    pub open spec fn spec_segment1(self) -> u16 {
        ((self.spec_network_address() >> 96) & 0xffff) as u16
    }

    /// Constructs a new `Ipv6Network` from a network address and a netmask
    /// (prefix length).
    ///
    /// Fails with `NetmaskError` if the netmask exceeds 128, and with
    /// `HostBitsSet` if any address bit beyond the prefix is set.
    pub fn new(network_address: u128, netmask: u8) -> (r: Result<Self, IpNetworkError>)
        ensures
            netmask > 128 ==> r == Err::<Self, IpNetworkError>(
                IpNetworkError::NetmaskError(netmask),
            ),
            netmask <= 128 && network_address & spec_bite_mask_u128(netmask) != network_address
                ==> r == Err::<Self, IpNetworkError>(IpNetworkError::HostBitsSet),
            netmask <= 128 && network_address & spec_bite_mask_u128(netmask) == network_address
                ==> {
                &&& r is Ok
                &&& r->Ok_0.spec_network_address() == network_address
                &&& r->Ok_0.spec_netmask() == netmask
            },
    {
        if netmask > 128 {
            return Err(IpNetworkError::NetmaskError(netmask));
        }
        if network_address & get_bite_mask_u128(netmask) != network_address {
            return Err(IpNetworkError::HostBitsSet);
        }
        Ok(Self { network_address, netmask })
    }

    /// Constructs a new `Ipv6Network`, truncating (zeroing) any host bits of
    /// the given address; fails only if the netmask exceeds 128.
    pub fn new_truncate(network_address: u128, netmask: u8) -> (r: Result<Self, IpNetworkError>)
        ensures
            netmask > 128 ==> r == Err::<Self, IpNetworkError>(
                IpNetworkError::NetmaskError(netmask),
            ),
            netmask <= 128 ==> {
                &&& r is Ok
                &&& r->Ok_0.spec_network_address() == network_address & spec_bite_mask_u128(
                    netmask,
                )
                &&& r->Ok_0.spec_netmask() == netmask
            },
    {
        if netmask > 128 {
            return Err(IpNetworkError::NetmaskError(netmask));
        }
        let truncated = network_address & get_bite_mask_u128(netmask);
        proof {
            bitmath::lemma_mask_idem_u128(network_address, spec_bite_mask_u128(netmask));
        }
        Ok(Self { network_address: truncated, netmask })
    }

    /// Returns the network address (the first address of the block).
    pub fn network_address(&self) -> (r: u128)
        ensures
            r == self.spec_network_address(),
    {
        self.network_address
    }

    /// Returns the netmask (prefix length); at most 128.
    pub fn netmask(&self) -> (r: u8)
        ensures
            r == self.spec_netmask(),
            r <= 128,
    {
        proof {
            use_type_invariant(self);
        }
        self.netmask
    }

    /// Returns the last address of the block (host bits all ones).
    pub fn last_address(&self) -> (r: u128)
        ensures
            r == self.spec_last_address(),
    {
        self.network_address | !get_bite_mask_u128(self.netmask)
    }

    /// Returns `true` iff `ip` lies inside this network: masking `ip` with
    /// the netmask yields the network address.
    pub fn contains(&self, ip: u128) -> (r: bool)
        ensures
            r == self.spec_contains(ip),
    {
        ip & get_bite_mask_u128(self.netmask) == self.network_address
    }

    /// Returns the network one prefix bit shorter, its address re-masked;
    /// `None` when the prefix is already zero.
    pub fn supernet(&self) -> (r: Option<Self>)
        ensures
            self.spec_netmask() == 0 ==> r is None,
            self.spec_netmask() > 0 ==> {
                &&& r is Some
                &&& r->0.spec_network_address() == self.spec_network_address()
                    & spec_bite_mask_u128((self.spec_netmask() - 1) as u8)
                &&& r->0.spec_netmask() == self.spec_netmask() - 1
            },
    {
        proof {
            use_type_invariant(self);
        }
        if self.netmask == 0 {
            None
        } else {
            let new_netmask = self.netmask - 1;
            let truncated = self.network_address & get_bite_mask_u128(new_netmask);
            proof {
                bitmath::lemma_mask_idem_u128(self.network_address, spec_bite_mask_u128(
                    new_netmask,
                ));
            }
            Some(Self { network_address: truncated, netmask: new_netmask })
        }
    }

    /// Returns an iterator over the two halves of this network (its subnets
    /// of prefix one deeper); `None` when the prefix is already 128.
    pub fn subnets(&self) -> (r: Option<crate::iterator::Ipv6NetworkIterator>)
        ensures
            self.spec_netmask() == 128 ==> r is None,
            self.spec_netmask() < 128 ==> {
                &&& r is Some
                &&& r->0.wf()
                &&& r->0.spec_new_netmask() == self.spec_netmask() + 1
                &&& r->0.spec_current() == self.spec_network_address()
                &&& r->0.remaining() == 2
            },
    {
        proof {
            use_type_invariant(self);
        }
        if self.netmask == 128 {
            None
        } else {
            let it = crate::iterator::Ipv6NetworkIterator::new(*self, self.netmask + 1);
            proof {
                assert(!crate::helpers::spec_bite_mask_u128(127u8) == 1u128) by (bit_vector);
            }
            Some(it)
        }
    }

    /// Returns an iterator over all subnets of this network with the given
    /// prefix length, which must be deeper than the network's own and at
    /// most 128.
    pub fn subnets_with_prefix(&self, prefix: u8) -> (r: crate::iterator::Ipv6NetworkIterator)
        requires
            self.spec_netmask() < prefix,
            prefix <= 128,
        ensures
            r.wf(),
            r.spec_new_netmask() == prefix,
            r.spec_current() == self.spec_network_address(),
            r.remaining() == (!spec_bite_mask_u128((128 - (prefix - self.spec_netmask())) as u8))
                + 1,
    {
        crate::iterator::Ipv6NetworkIterator::new(*self, prefix)
    }

    /// What `is_unspecified` returns: the network is exactly ::/128.
    pub open spec fn spec_is_unspecified(self) -> bool {
        self.spec_network_address() == 0 && self.spec_netmask() == 128
    }

    /// Returns `true` iff this is the special 'unspecified' network ::/128.
    pub fn is_unspecified(&self) -> (r: bool)
        ensures
            r == self.spec_is_unspecified(),
    {
        self.network_address == 0 && self.netmask == 128
    }

    /// What `is_loopback` returns: the network address is ::1.
    pub open spec fn spec_is_loopback(self) -> bool {
        self.spec_network_address() == 1
    }

    /// Returns `true` iff this is the loopback network (its address is ::1).
    pub fn is_loopback(&self) -> (r: bool)
        ensures
            r == self.spec_is_loopback(),
    {
        self.network_address == 1
    }

    /// What `is_unique_local` returns: the address starts with fc00::/7 and
    /// the prefix is at least 7.
    pub open spec fn spec_is_unique_local(self) -> bool {
        self.spec_segment0() & 0xfe00 == 0xfc00 && self.spec_netmask() >= 7
    }

    /// Returns `true` iff this is part of the unique-local range fc00::/7.
    pub fn is_unique_local(&self) -> (r: bool)
        ensures
            r == self.spec_is_unique_local(),
    {
        let seg0 = (self.network_address >> 112) as u16;
        seg0 & 0xfe00 == 0xfc00 && self.netmask >= 7
    }

    /// What `is_unicast_link_local` returns: the address starts with
    /// fe80::/10 and the prefix is at least 10.
    pub open spec fn spec_is_unicast_link_local(self) -> bool {
        self.spec_segment0() & 0xffc0 == 0xfe80 && self.spec_netmask() >= 10
    }

    /// Returns `true` iff this is part of the unicast link-local range
    /// fe80::/10.
    pub fn is_unicast_link_local(&self) -> (r: bool)
        ensures
            r == self.spec_is_unicast_link_local(),
    {
        let seg0 = (self.network_address >> 112) as u16;
        seg0 & 0xffc0 == 0xfe80 && self.netmask >= 10
    }

    /// What `is_unicast_site_local` returns: the address starts with
    /// fec0::/10 and the prefix is at least 10.
    pub open spec fn spec_is_unicast_site_local(self) -> bool {
        self.spec_segment0() & 0xffc0 == 0xfec0 && self.spec_netmask() >= 10
    }

    /// Returns `true` iff this is part of the deprecated unicast site-local
    /// range fec0::/10.
    pub fn is_unicast_site_local(&self) -> (r: bool)
        ensures
            r == self.spec_is_unicast_site_local(),
    {
        let seg0 = (self.network_address >> 112) as u16;
        seg0 & 0xffc0 == 0xfec0 && self.netmask >= 10
    }

    /// What `is_documentation` returns: the address starts with
    /// 2001:db8::/32 and the prefix is at least 32.
    pub open spec fn spec_is_documentation(self) -> bool {
        self.spec_segment0() == 0x2001 && self.spec_segment1() == 0xdb8 && self.spec_netmask()
            >= 32
    }

    /// Returns `true` iff this is part of the range reserved for
    /// documentation, 2001:db8::/32.
    pub fn is_documentation(&self) -> (r: bool)
        ensures
            r == self.spec_is_documentation(),
    {
        let seg0 = (self.network_address >> 112) as u16;
        let seg1 = ((self.network_address >> 96) & 0xffff) as u16;
        seg0 == 0x2001 && seg1 == 0xdb8 && self.netmask >= 32
    }

    /// What `is_multicast` returns: the address starts with ff00::/8 and
    /// the prefix is at least 8.
    pub open spec fn spec_is_multicast(self) -> bool {
        self.spec_segment0() & 0xff00 == 0xff00 && self.spec_netmask() >= 8
    }

    /// Returns `true` iff this is part of the multicast range ff00::/8.
    pub fn is_multicast(&self) -> (r: bool)
        ensures
            r == self.spec_is_multicast(),
    {
        let seg0 = (self.network_address >> 112) as u16;
        seg0 & 0xff00 == 0xff00 && self.netmask >= 8
    }

    /// What `is_unicast_global` returns: none of the multicast, loopback,
    /// link-local, site-local, unique-local, unspecified or documentation
    /// classifications applies.
    pub open spec fn spec_is_unicast_global(self) -> bool {
        &&& !self.spec_is_multicast()
        &&& !self.spec_is_loopback()
        &&& !self.spec_is_unicast_link_local()
        &&& !self.spec_is_unicast_site_local()
        &&& !self.spec_is_unique_local()
        &&& !self.spec_is_unspecified()
        &&& !self.spec_is_documentation()
    }

    /// Returns `true` iff the network is a globally routable unicast
    /// network: it is none of multicast, loopback, unicast link-local,
    /// unicast site-local, unique-local, unspecified or documentation.
    pub fn is_unicast_global(&self) -> (r: bool)
        ensures
            r == self.spec_is_unicast_global(),
    {
        !self.is_multicast() && !self.is_loopback() && !self.is_unicast_link_local()
            && !self.is_unicast_site_local() && !self.is_unique_local() && !self.is_unspecified()
            && !self.is_documentation()
    }

    /// What `multicast_scope` returns: for a multicast network, the scope
    /// encoded by the low four bits of the first segment; otherwise absent.
    pub open spec fn spec_multicast_scope(self) -> Option<Ipv6MulticastScope> {
        if self.spec_is_multicast() {
            match self.spec_segment0() & 0x000f {
                1u16 => Some(Ipv6MulticastScope::InterfaceLocal),
                2u16 => Some(Ipv6MulticastScope::LinkLocal),
                3u16 => Some(Ipv6MulticastScope::RealmLocal),
                4u16 => Some(Ipv6MulticastScope::AdminLocal),
                5u16 => Some(Ipv6MulticastScope::SiteLocal),
                8u16 => Some(Ipv6MulticastScope::OrganizationLocal),
                14u16 => Some(Ipv6MulticastScope::Global),
                _ => None,
            }
        } else {
            None
        }
    }

    /// Returns the network's multicast scope if the network is multicast.
    pub fn multicast_scope(&self) -> (r: Option<Ipv6MulticastScope>)
        ensures
            r == self.spec_multicast_scope(),
    {
        if self.is_multicast() {
            let seg0 = (self.network_address >> 112) as u16;
            match seg0 & 0x000f {
                1 => Some(Ipv6MulticastScope::InterfaceLocal),
                2 => Some(Ipv6MulticastScope::LinkLocal),
                3 => Some(Ipv6MulticastScope::RealmLocal),
                4 => Some(Ipv6MulticastScope::AdminLocal),
                5 => Some(Ipv6MulticastScope::SiteLocal),
                8 => Some(Ipv6MulticastScope::OrganizationLocal),
                14 => Some(Ipv6MulticastScope::Global),
                _ => None,
            }
        } else {
            None
        }
    }

    /// What `is_global` returns: global multicast scope, or unicast global
    /// when the network is not multicast.
    pub open spec fn spec_is_global(self) -> bool {
        match self.spec_multicast_scope() {
            Some(scope) => scope == Ipv6MulticastScope::Global,
            None => self.spec_is_unicast_global(),
        }
    }

    /// Returns `true` iff the network appears to be globally routable:
    /// either its multicast scope is global, or it is not multicast at all
    /// and is unicast global.
    pub fn is_global(&self) -> (r: bool)
        ensures
            r == self.spec_is_global(),
    {
        match self.multicast_scope() {
            Some(Ipv6MulticastScope::Global) => true,
            Some(_) => false,
            None => self.is_unicast_global(),
        }
    }

    /// Converts the inclusive address range `[first, last]` into the
    /// minimal ordered list of CIDR blocks exactly covering it: the blocks
    /// are valid networks, the first starts at `first`, the last ends at
    /// `last`, each block starts right after its predecessor ends, and no
    /// two adjacent blocks could be merged into one valid block.
    pub fn summarize_address_range(first: u128, last: u128) -> (r: Vec<Ipv6Network>)
        ensures
            first > last ==> r@.len() == 0,
            first <= last ==> {
                &&& r@.len() >= 1
                &&& r@[0].spec_network_address() == first
                &&& r@[r@.len() - 1].spec_last_address() == last
            },
            forall|i: int| 0 <= i < r@.len() ==> (#[trigger] r@[i]).is_valid(),
            forall|i: int|
                0 <= i < r@.len() - 1 ==> (#[trigger] r@[i + 1]).spec_network_address() == r@[
                    i
                ].spec_last_address() + 1,
            forall|i: int|
                0 <= i < r@.len() - 1 ==> !spec_mergeable_v6(#[trigger] r@[i], r@[i + 1]),
    {
        let mut blocks: Vec<Ipv6Network> = Vec::new();
        if first > last {
            return blocks;
        }
        let mut cur: u128 = first;
        let mut done: bool = false;
        while !done
            invariant
                first <= last,
                blocks@.len() > 0 ==> blocks@[0].spec_network_address() == first,
                forall|i: int| 0 <= i < blocks@.len() ==> (#[trigger] blocks@[i]).is_valid(),
                forall|i: int|
                    0 <= i < blocks@.len() - 1 ==> (#[trigger] blocks@[
                        i + 1
                    ]).spec_network_address() == blocks@[i].spec_last_address() + 1,
                forall|i: int|
                    0 <= i < blocks@.len() - 1 ==> !spec_mergeable_v6(
                        #[trigger] blocks@[i],
                        blocks@[i + 1],
                    ),
                done ==> blocks@.len() > 0 && blocks@[blocks@.len() - 1].spec_last_address()
                    == last,
                !done ==> cur <= last,
                !done && blocks@.len() == 0 ==> cur == first,
                !done && blocks@.len() > 0 ==> blocks@[blocks@.len() - 1].spec_last_address() + 1
                    == cur,
                !done && blocks@.len() > 0 ==> {
                    let prev = blocks@[blocks@.len() - 1];
                    ||| (prev.spec_netmask() >= 1 && prev.spec_network_address()
                        & spec_bite_mask_u128((prev.spec_netmask() - 1) as u8)
                        != prev.spec_network_address())
                    ||| last - cur < prev.spec_last_address() - prev.spec_network_address()
                },
            decreases last - cur, (if done {
                0int
            } else {
                1int
            }),
        {
            let t: u32 = trailing_zeros_u128(cur);
            let bld: u32;
            if cur == 0 && last == u128::MAX {
                bld = 128;
            } else {
                let rl: u128 = last - cur + 1;
                proof {
                    crate::helpers::lemma_bit_length_interval(rl as nat);
                }
                let bl: u8 = crate::helpers::bit_length_u128(rl);
                bld = (bl - 1) as u32;
            }
            let n: u32 = if t < bld {
                t
            } else {
                bld
            };
            if n >= 128 {
                // only the full address space reaches here: emit ::/0
                proof {
                    assert(0u128 & spec_bite_mask_u128(0u8) == 0u128) by (bit_vector);
                    assert((0u128 | !spec_bite_mask_u128(0u8)) == u128::MAX) by (bit_vector);
                }
                let net = Ipv6Network::from_raw(0, 0);
                blocks.push(net);
                done = true;
                proof {
                    assert(t == 128 && bld == 128);
                    assert(cur == 0 && last == u128::MAX);
                    assert(net.spec_last_address() == u128::MAX);
                    assert(blocks@[blocks@.len() - 1] == net);
                }
            } else {
                proof {
                    crate::bitmath::lemma_summarize_block_u128(cur, t, n);
                    crate::bitmath::lemma_shl1_pow2_u128(n as nat);
                    vstd::arithmetic::power2::lemma_pow2_pos(n as nat);
                    if n < bld {
                        vstd::arithmetic::power2::lemma_pow2_strictly_increases(
                            n as nat,
                            bld as nat,
                        );
                    }
                    assert(vstd::arithmetic::power2::pow2(n as nat) <= last - cur + 1);
                }
                let prefix: u8 = (128 - n) as u8;
                let net = Ipv6Network::from_raw(cur, prefix);
                let ghost old_blocks = blocks@;
                let ghost old_cur = cur;
                blocks.push(net);
                let block_end = net.last_address();
                proof {
                    assert(block_end == old_cur + (1u128 << n) - 1);
                    assert(block_end <= last);
                    // no two adjacent blocks can be merged
                    if old_blocks.len() > 0 {
                        let prev = old_blocks[old_blocks.len() - 1];
                        if spec_mergeable_v6(prev, net) {
                            crate::bitmath::lemma_block_size_u128(
                                prev.spec_network_address(),
                                prev.spec_netmask(),
                            );
                            crate::bitmath::lemma_block_size_u128(
                                net.spec_network_address(),
                                net.spec_netmask(),
                            );
                            assert(false);
                        }
                    }
                    assert(blocks@[blocks@.len() - 1] == net);
                    if block_end != last {
                        // the pushed block is alignment-limited or uses up
                        // most of the range, so the next block cannot merge
                        // with it
                        if n == t {
                            assert(t < 128);
                            assert(net.spec_netmask() >= 1 && net.spec_network_address()
                                & spec_bite_mask_u128((net.spec_netmask() - 1) as u8)
                                != net.spec_network_address());
                        } else {
                            assert(n == bld);
                            vstd::arithmetic::power2::lemma_pow2_unfold((n + 1) as nat);
                            assert(last - cur + 1 < vstd::arithmetic::power2::pow2((n + 1) as nat));
                            assert(last - (block_end + 1) < net.spec_last_address()
                                - net.spec_network_address());
                        }
                    }
                }
                if block_end == last {
                    done = true;
                } else {
                    cur = block_end + 1;
                }
            }
        }
        blocks
    }

    /// Constructs the /128 network holding exactly the given address.
    pub fn from_address(ip: u128) -> (r: Self)
        ensures
            r.spec_network_address() == ip,
            r.spec_netmask() == 128,
    {
        proof {
            assert(ip & spec_bite_mask_u128(128u8) == ip) by (bit_vector);
        }
        Self { network_address: ip, netmask: 128 }
    }

    /// Constructs a network whose fields are already known to satisfy the
    /// invariant; used by the crate's own iterators and algorithms.
    pub(crate) fn from_raw(network_address: u128, netmask: u8) -> (r: Self)
        requires
            netmask <= 128,
            network_address & spec_bite_mask_u128(netmask) == network_address,
        ensures
            r.spec_network_address() == network_address,
            r.spec_netmask() == netmask,
    {
        Self { network_address, netmask }
    }
}

} // verus!

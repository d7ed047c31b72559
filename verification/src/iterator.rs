//! Lazy, finite iterators over address ranges and subnet enumerations.
//!
//! Each iterator is an explicit state machine of a cursor, an inclusive
//! upper bound and a done flag, so that the final element can be emitted
//! even when it sits at the end of the address space.
use vstd::prelude::*;
use crate::Ipv4Network;
use crate::Ipv6Network;
use crate::bitmath;
use crate::helpers::get_bite_mask;
use crate::helpers::get_bite_mask_u128;
use crate::helpers::spec_bite_mask;
use crate::helpers::spec_bite_mask_u128;

verus! {

/// Iterator over an inclusive range of IPv4 addresses.
pub struct Ipv4RangeIterator {
    current: u32,
    to: u32,
    is_done: bool,
}

impl Ipv4RangeIterator {
    /// The next address to emit, as seen by specifications.
    pub closed spec fn spec_current(self) -> u32 {
        self.current
    }

    /// The inclusive upper bound, as seen by specifications.
    pub closed spec fn spec_to(self) -> u32 {
        self.to
    }

    /// Whether the iterator has marked itself exhausted after reaching the
    /// end of the address space.
    pub closed spec fn spec_is_done(self) -> bool {
        self.is_done
    }

    /// Exact number of addresses still to be emitted.
    pub open spec fn remaining(self) -> nat {
        if self.spec_is_done() || self.spec_current() > self.spec_to() {
            0
        } else {
            (self.spec_to() - self.spec_current() + 1) as nat
        }
    }

    /// Constructs a new `Ipv4RangeIterator`; both `from` and `to` are
    /// inclusive.
    pub fn new(from: u32, to: u32) -> (r: Self)
        requires
            from <= to,
        ensures
            r.spec_current() == from,
            r.spec_to() == to,
            !r.spec_is_done(),
            r.remaining() == to - from + 1,
    {
        Self { current: from, to, is_done: false }
    }

    /// Constructs an iterator that emits nothing.
    pub(crate) fn new_empty() -> (r: Self)
        ensures
            r.remaining() == 0,
    {
        Self { current: 1, to: 0, is_done: true }
    }

    /// Emits the next address of the range, or `None` once the range is
    /// exhausted; the exact remaining count falls by one per emitted
    /// address and is zero exactly at exhaustion.
    pub fn next(&mut self) -> (r: Option<u32>)
        ensures
            old(self).remaining() == 0 ==> r is None && final(self).remaining() == 0,
            old(self).remaining() > 0 ==> {
                &&& r == Some(old(self).spec_current())
                &&& final(self).remaining() == old(self).remaining() - 1
                &&& final(self).spec_to() == old(self).spec_to()
                &&& final(self).remaining() > 0 ==> final(self).spec_current() == old(
                    self,
                ).spec_current() + 1
            },
    {
        if self.current <= self.to && !self.is_done {
            let output = self.current;
            match self.current.checked_add(1) {
                Some(x) => { self.current = x },
                None => { self.is_done = true },
            }
            Some(output)
        } else {
            None
        }
    }

    /// Exact number of addresses still to be emitted.
    pub fn len(&self) -> (r: usize)
        requires
            self.remaining() <= usize::MAX,
        ensures
            r == self.remaining(),
    {
        if self.is_done || self.current > self.to {
            0
        } else {
            let d = self.to - self.current;
            d as usize + 1
        }
    }
}

/// Iterator over the subnets of a given IPv4 network at a deeper prefix.
pub struct Ipv4NetworkIterator {
    current: u32,
    to: u32,
    new_netmask: u8,
    is_done: bool,
}

impl Ipv4NetworkIterator {
    /// The address of the next subnet to emit, as seen by specifications.
    pub closed spec fn spec_current(self) -> u32 {
        self.current
    }

    /// The address of the last subnet, as seen by specifications.
    pub closed spec fn spec_to(self) -> u32 {
        self.to
    }

    /// The prefix length of the emitted subnets.
    pub closed spec fn spec_new_netmask(self) -> u8 {
        self.new_netmask
    }

    /// Whether the iterator has marked itself exhausted after reaching the
    /// end of the address space.
    pub closed spec fn spec_is_done(self) -> bool {
        self.is_done
    }

    /// The distance between the addresses of two consecutive subnets.
    pub open spec fn spec_step(self) -> u32 {
        1u32 << ((32 - self.spec_new_netmask()) as u32)
    }

    /// The iterator's structural invariant: the emitted prefix is in range
    /// and cursor and bound are aligned to it.
    pub open spec fn wf(self) -> bool {
        &&& 1 <= self.spec_new_netmask() <= 32
        &&& self.spec_current() & spec_bite_mask(self.spec_new_netmask()) == self.spec_current()
        &&& self.spec_to() & spec_bite_mask(self.spec_new_netmask()) == self.spec_to()
    }

    /// Exact number of subnets still to be emitted.
    pub open spec fn remaining(self) -> nat {
        if self.spec_is_done() || self.spec_current() > self.spec_to() {
            0
        } else {
            ((((self.spec_to() - self.spec_current()) as u32) >> ((32
                - self.spec_new_netmask()) as u32)) + 1) as nat
        }
    }

    /// Constructs the iterator over all subnets of `network` with prefix
    /// length `new_netmask`; there are `2^(new_netmask - netmask)` of them,
    /// starting at the network's own address.
    pub fn new(network: Ipv4Network, new_netmask: u8) -> (r: Self)
        requires
            network.spec_netmask() < new_netmask,
            new_netmask <= 32,
        ensures
            r.wf(),
            !r.spec_is_done(),
            r.spec_new_netmask() == new_netmask,
            r.spec_current() == network.spec_network_address(),
            r.spec_to() == network.spec_network_address() | ((!spec_bite_mask(
                (32 - (new_netmask - network.spec_netmask())) as u8,
            )) << ((32 - new_netmask) as u32)),
            r.remaining() == (!spec_bite_mask((32 - (new_netmask - network.spec_netmask())) as u8))
                + 1,
    {
        proof {
            use_type_invariant(&network);
        }
        let netmask = network.netmask();
        let current = network.network_address();
        let mask = (!get_bite_mask(32 - (new_netmask - netmask))) << ((32 - new_netmask) as u32);
        let to = current | mask;
        proof {
            bitmath::lemma_iter_new_u32(current, netmask, new_netmask, to);
        }
        Self { current, to, new_netmask, is_done: false }
    }

    /// The distance between the addresses of two consecutive subnets.
    fn step(&self) -> (r: u32)
        requires
            self.wf(),
        ensures
            r == self.spec_step(),
    {
        1u32 << ((32 - self.new_netmask) as u32)
    }

    /// Emits the next subnet, or `None` once the enumeration is exhausted;
    /// the exact remaining count falls by one per emitted subnet and is
    /// zero exactly at exhaustion.
    pub fn next(&mut self) -> (r: Option<Ipv4Network>)
        requires
            old(self).wf(),
        ensures
            final(self).wf(),
            final(self).spec_new_netmask() == old(self).spec_new_netmask(),
            final(self).spec_to() == old(self).spec_to(),
            old(self).remaining() == 0 ==> r is None && final(self).remaining() == 0,
            old(self).remaining() > 0 ==> {
                &&& r is Some
                &&& r->0.spec_network_address() == old(self).spec_current()
                &&& r->0.spec_netmask() == old(self).spec_new_netmask()
                &&& final(self).remaining() == old(self).remaining() - 1
                &&& final(self).remaining() > 0 ==> final(self).spec_current() == old(
                    self,
                ).spec_current() + old(self).spec_step()
            },
    {
        if self.current <= self.to && !self.is_done {
            proof {
                bitmath::lemma_iter_next_u32(self.current, self.to, self.new_netmask);
            }
            let output = self.current;
            match self.current.checked_add(self.step()) {
                Some(x) => { self.current = x },
                None => { self.is_done = true },
            }
            Some(Ipv4Network::from_raw(output, self.new_netmask))
        } else {
            None
        }
    }

    /// Exact number of subnets still to be emitted.
    pub fn len(&self) -> (r: usize)
        requires
            self.wf(),
            self.remaining() <= usize::MAX,
        ensures
            r == self.remaining(),
    {
        if self.is_done || self.current > self.to {
            0
        } else {
            let d = (self.to - self.current) >> ((32 - self.new_netmask) as u32);
            d as usize + 1
        }
    }
}

/// Iterator over the subnets of a given IPv6 network at a deeper prefix.
pub struct Ipv6NetworkIterator {
    current: u128,
    to: u128,
    new_netmask: u8,
    is_done: bool,
}

impl Ipv6NetworkIterator {
    /// The address of the next subnet to emit, as seen by specifications.
    pub closed spec fn spec_current(self) -> u128 {
        self.current
    }

    /// The address of the last subnet, as seen by specifications.
    pub closed spec fn spec_to(self) -> u128 {
        self.to
    }

    /// The prefix length of the emitted subnets.
    pub closed spec fn spec_new_netmask(self) -> u8 {
        self.new_netmask
    }

    /// Whether the iterator has marked itself exhausted after reaching the
    /// end of the address space.
    pub closed spec fn spec_is_done(self) -> bool {
        self.is_done
    }

    /// The distance between the addresses of two consecutive subnets.
    pub open spec fn spec_step(self) -> u128 {
        1u128 << ((128 - self.spec_new_netmask()) as u32)
    }

    /// The iterator's structural invariant: the emitted prefix is in range
    /// and cursor and bound are aligned to it.
    pub open spec fn wf(self) -> bool {
        &&& 1 <= self.spec_new_netmask() <= 128
        &&& self.spec_current() & spec_bite_mask_u128(self.spec_new_netmask())
            == self.spec_current()
        &&& self.spec_to() & spec_bite_mask_u128(self.spec_new_netmask()) == self.spec_to()
    }

    /// Exact number of subnets still to be emitted; for the enumeration of
    /// the whole space at prefix 128 this is `2^128`, which only this
    /// specification-level count can express without truncation.
    pub open spec fn remaining(self) -> nat {
        if self.spec_is_done() || self.spec_current() > self.spec_to() {
            0
        } else {
            ((((self.spec_to() - self.spec_current()) as u128) >> ((128
                - self.spec_new_netmask()) as u32)) + 1) as nat
        }
    }

    /// Constructs the iterator over all subnets of `network` with prefix
    /// length `new_netmask`; there are `2^(new_netmask - netmask)` of them,
    /// starting at the network's own address.
    pub fn new(network: Ipv6Network, new_netmask: u8) -> (r: Self)
        requires
            network.spec_netmask() < new_netmask,
            new_netmask <= 128,
        ensures
            r.wf(),
            !r.spec_is_done(),
            r.spec_new_netmask() == new_netmask,
            r.spec_current() == network.spec_network_address(),
            r.spec_to() == network.spec_network_address() | ((!spec_bite_mask_u128(
                (128 - (new_netmask - network.spec_netmask())) as u8,
            )) << ((128 - new_netmask) as u32)),
            r.remaining() == (!spec_bite_mask_u128(
                (128 - (new_netmask - network.spec_netmask())) as u8,
            )) + 1,
    {
        proof {
            use_type_invariant(&network);
        }
        let netmask = network.netmask();
        let current = network.network_address();
        let mask = (!get_bite_mask_u128(128 - (new_netmask - netmask))) << ((128 - new_netmask)
            as u32);
        let to = current | mask;
        proof {
            bitmath::lemma_iter_new_u128(current, netmask, new_netmask, to);
        }
        Self { current, to, new_netmask, is_done: false }
    }

    /// The distance between the addresses of two consecutive subnets.
    fn step(&self) -> (r: u128)
        requires
            self.wf(),
        ensures
            r == self.spec_step(),
    {
        1u128 << ((128 - self.new_netmask) as u32)
    }

    /// Exact number of subnets still to be emitted, saturated to the
    /// largest 128-bit value when the enumeration spans the whole space.
    pub fn real_len(&self) -> (r: u128)
        requires
            self.wf(),
        ensures
            self.remaining() <= u128::MAX ==> r == self.remaining(),
            self.remaining() > u128::MAX ==> r == u128::MAX,
    {
        if self.is_done || self.current > self.to {
            0
        } else {
            let d = (self.to - self.current) >> ((128 - self.new_netmask) as u32);
            d.saturating_add(1)
        }
    }

    /// Emits the next subnet, or `None` once the enumeration is exhausted;
    /// the exact remaining count falls by one per emitted subnet and is
    /// zero exactly at exhaustion.
    pub fn next(&mut self) -> (r: Option<Ipv6Network>)
        requires
            old(self).wf(),
        ensures
            final(self).wf(),
            final(self).spec_new_netmask() == old(self).spec_new_netmask(),
            final(self).spec_to() == old(self).spec_to(),
            old(self).remaining() == 0 ==> r is None && final(self).remaining() == 0,
            old(self).remaining() > 0 ==> {
                &&& r is Some
                &&& r->0.spec_network_address() == old(self).spec_current()
                &&& r->0.spec_netmask() == old(self).spec_new_netmask()
                &&& final(self).remaining() == old(self).remaining() - 1
                &&& final(self).remaining() > 0 ==> final(self).spec_current() == old(
                    self,
                ).spec_current() + old(self).spec_step()
            },
    {
        if self.current <= self.to && !self.is_done {
            proof {
                bitmath::lemma_iter_step_bound_u128(self.current, self.to, self.new_netmask);
                if self.current < self.to {
                    bitmath::lemma_iter_step_decrement_u128(
                        self.current,
                        self.to,
                        self.new_netmask,
                    );
                }
                if self.current + self.spec_step() <= u128::MAX {
                    bitmath::lemma_iter_step_align_u128(self.current, self.new_netmask);
                }
            }
            let output = self.current;
            match self.current.checked_add(self.step()) {
                Some(x) => { self.current = x },
                None => { self.is_done = true },
            }
            Some(Ipv6Network::from_raw(output, self.new_netmask))
        } else {
            None
        }
    }

    /// Exact number of subnets still to be emitted, as a machine-size
    /// count; callers must know the count fits.
    pub fn len(&self) -> (r: usize)
        requires
            self.wf(),
            self.remaining() <= usize::MAX,
        ensures
            r == self.remaining(),
    {
        if self.is_done || self.current > self.to {
            0
        } else {
            let d = (self.to - self.current) >> ((128 - self.new_netmask) as u32);
            d as usize + 1
        }
    }
}

} // verus!

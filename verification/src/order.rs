//! The order of physical addresses, which is the order of their raw values.

use crate::addr::{
    checked_sum, group_phys_addr, phys, saturating_sum, wrap, PhysAddr,
};
use crate::bindings::phys_addr_t;
use core::cmp::Ordering;
use vstd::prelude::*;
use vstd::std_specs::cmp::PartialOrdSpec;

verus! {

impl PartialOrd for PhysAddr {
    /// Compares the raw values of the two addresses.
    fn partial_cmp(&self, other: &PhysAddr) -> (r: Option<Ordering>) {
        let a = self.as_raw();
        let b = other.as_raw();
        if a < b {
            Some(Ordering::Less)
        } else if a > b {
            Some(Ordering::Greater)
        } else {
            Some(Ordering::Equal)
        }
    }
}

impl vstd::std_specs::cmp::PartialOrdSpecImpl for PhysAddr {
    open spec fn obeys_partial_cmp_spec() -> bool {
        true
    }

    open spec fn partial_cmp_spec(&self, other: &PhysAddr) -> Option<Ordering> {
        if self@ < other@ {
            Some(Ordering::Less)
        } else if self@ > other@ {
            Some(Ordering::Greater)
        } else {
            Some(Ordering::Equal)
        }
    }
}

/// Comparing two addresses gives `Less`, `Equal` or `Greater` exactly as
/// `a < b`, `a == b` or `b < a`, which is the order of their raw values.
pub proof fn law_comparison_is_raw_order(a: PhysAddr, b: PhysAddr)
    ensures
        a.partial_cmp_spec(&b) == Some(Ordering::Less) <==> a < b,
        a.partial_cmp_spec(&b) == Some(Ordering::Equal) <==> a == b,
        a.partial_cmp_spec(&b) == Some(Ordering::Greater) <==> b < a,
        a < b <==> a@ < b@,
        a <= b <==> a@ <= b@,
{
    broadcast use group_phys_addr;
}

/// Addresses made from raw values compare as the raw values do: equal
/// exactly when the values are, and below exactly when the value is below.
pub proof fn law_from_raw_keeps_order(x: phys_addr_t, y: phys_addr_t)
    ensures
        phys(x) == phys(y) <==> x == y,
        phys(x) < phys(y) <==> x < y,
        phys(x) <= phys(y) <==> x <= y,
{
    broadcast use group_phys_addr;
    assert(phys(x)@ == x && phys(y)@ == y);
}

/// Where checked addition succeeds, its result is what wrapping and
/// saturating addition give, and it is not below the address; it fails
/// exactly where wrapping addition would go below the address.
pub proof fn law_checked_add_agrees(p: PhysAddr, rhs: phys_addr_t)
    ensures
        checked_sum(p@, rhs) is Some ==> checked_sum(p@, rhs)->0 == wrap(p@ + rhs)
            && checked_sum(p@, rhs)->0 == saturating_sum(p@, rhs)
            && p <= phys(checked_sum(p@, rhs)->0),
        checked_sum(p@, rhs) is None <==> phys(wrap(p@ + rhs)) < p,
{
    broadcast use group_phys_addr;
}

/// Saturating addition never lowers an address, and it keeps the order of
/// two addresses.
pub proof fn law_saturating_add_keeps_order(p: PhysAddr, q: PhysAddr, rhs: phys_addr_t)
    ensures
        p <= phys(saturating_sum(p@, rhs)),
        p <= q ==> phys(saturating_sum(p@, rhs)) <= phys(saturating_sum(q@, rhs)),
{
    broadcast use group_phys_addr;
}

} // verus!

//! `PhysAddr`, a physical address kept apart from every other integer.

use crate::bindings::phys_addr_t;
use vstd::arithmetic::div_mod::{lemma_fundamental_div_mod, lemma_mod_multiples_vanish};
use vstd::arithmetic::power2::{lemma2_to64_rest, lemma_pow2_adds, pow2};
use vstd::bits::{lemma_u64_low_bits_mask_is_mod, lemma_u64_pow2_no_overflow};
use vstd::prelude::*;

verus! {

/// The number of values of `phys_addr_t`: arithmetic that wraps is
/// arithmetic modulo this number.
pub open spec fn modulus() -> int {
    0x1_0000_0000_0000_0000
}

/// The raw value that stands for the mathematical integer `x` once it has
/// wrapped around: `x` modulo 2^64.
pub open spec fn wrap(x: int) -> phys_addr_t {
    (x % modulus()) as phys_addr_t
}

/// `x + y` where it fits, nothing where it overflows.
pub open spec fn checked_sum(x: phys_addr_t, y: phys_addr_t) -> Option<phys_addr_t> {
    if x + y > phys_addr_t::MAX {
        None
    } else {
        Some((x + y) as phys_addr_t)
    }
}

/// `x - y` where it does not go below zero, nothing where it does.
pub open spec fn checked_difference(x: phys_addr_t, y: phys_addr_t) -> Option<phys_addr_t> {
    if y > x {
        None
    } else {
        Some((x - y) as phys_addr_t)
    }
}

/// `x + y`, capped at the largest value.
pub open spec fn saturating_sum(x: phys_addr_t, y: phys_addr_t) -> phys_addr_t {
    if x + y > phys_addr_t::MAX {
        phys_addr_t::MAX
    } else {
        (x + y) as phys_addr_t
    }
}

/// `x - y`, capped at zero.
pub open spec fn saturating_difference(x: phys_addr_t, y: phys_addr_t) -> phys_addr_t {
    if y > x {
        0
    } else {
        (x - y) as phys_addr_t
    }
}

/// `a` is 2^n for some n below 64.
pub open spec fn is_power_of_two(a: phys_addr_t) -> bool {
    exists|n: nat| n < 64 && #[trigger] pow2(n) == a
}

/// The largest multiple of `align` that is not above `x`.
pub open spec fn round_down(x: int, align: int) -> int {
    x - x % align
}

/// The smallest multiple of `align` that is not below `x`.
pub open spec fn round_up(x: int, align: int) -> int {
    round_down(x + align - 1, align)
}

/// What the bit mask of `align_down` leaves of `x`: `x` with the bits of
/// `align - 1` (taken modulo 2^64) cleared.
pub open spec fn clear_low_bits(x: phys_addr_t, align: phys_addr_t) -> phys_addr_t {
    x & !wrap(align - 1)
}

/// A physical address.
///
/// The raw value is private: an address is made with `from_raw` and read
/// with `as_raw`, so that it cannot be mixed up with a virtual address or
/// with another integer by accident.
#[derive(Copy, Clone, Debug, PartialEq, Eq, Structural, Ord, Hash)]
pub struct PhysAddr(phys_addr_t);

impl View for PhysAddr {
    type V = phys_addr_t;

    /// The raw value of the address.
    closed spec fn view(&self) -> phys_addr_t {
        self.0
    }
}

impl PhysAddr {
    /// Addresses are ordered by their raw values: `a < b` in a contract.
    pub open spec fn spec_lt(self, other: PhysAddr) -> bool {
        self@ < other@
    }

    /// Addresses are ordered by their raw values: `a <= b` in a contract.
    pub open spec fn spec_le(self, other: PhysAddr) -> bool {
        self@ <= other@
    }
}

/// The address whose raw value is `v`.
pub closed spec fn phys(v: phys_addr_t) -> PhysAddr {
    PhysAddr(v)
}

/// An address is its raw value: two addresses with the same raw value are
/// the same address.
pub broadcast proof fn lemma_view_determines(a: PhysAddr, b: PhysAddr)
    ensures
        #[trigger] a@ == #[trigger] b@ ==> a == b,
{
}

/// The address made from a raw value has that raw value.
pub broadcast proof fn lemma_phys_view(v: phys_addr_t)
    ensures
        #[trigger] phys(v)@ == v,
{
}

/// The address made from the raw value of `a` is `a`.
pub broadcast proof fn lemma_phys_of_view(a: PhysAddr)
    ensures
        #[trigger] phys(a@) == a,
{
}

pub broadcast group group_phys_addr {
    lemma_view_determines,
    lemma_phys_view,
    lemma_phys_of_view,
}

/// Masking with `!(2^n - 1)` rounds down to a multiple of 2^n.
proof fn lemma_clear_low_bits_rounds_down(x: phys_addr_t, align: phys_addr_t)
    requires
        is_power_of_two(align),
    ensures
        clear_low_bits(x, align) == round_down(x as int, align as int),
{
    let n = choose|n: nat| n < 64 && #[trigger] pow2(n) == align;
    lemma_u64_pow2_no_overflow(n);
    lemma_u64_low_bits_mask_is_mod(x, n);
    let m = wrap(align - 1);
    assert(m == align - 1);
    assert(x & !m == x - (x & m)) by (bit_vector);
}

/// 2^64 is a multiple of every power of two below it.
pub proof fn lemma_power_of_two_divides_modulus(align: phys_addr_t)
    requires
        is_power_of_two(align),
    ensures
        align > 0,
        modulus() % (align as int) == 0,
{
    let n = choose|n: nat| n < 64 && #[trigger] pow2(n) == align;
    lemma_pow2_adds(n, (64 - n) as nat);
    lemma2_to64_rest();
    lemma_u64_pow2_no_overflow(n);
    lemma_mod_multiples_vanish(pow2((64 - n) as nat) as int, 0, align as int);
}

impl PhysAddr {
    /// The zero physical address. Equivalent to `PhysAddr::default()`.
    pub fn zero() -> (r: PhysAddr)
        ensures
            r@ == 0,
    {
        PhysAddr(0)
    }

    /// Creates a `PhysAddr` from a raw `phys_addr_t` value.
    pub fn from_raw(addr: phys_addr_t) -> (r: PhysAddr)
        ensures
            r@ == addr,
    {
        PhysAddr(addr)
    }

    /// Returns the raw `phys_addr_t` value of the physical address.
    pub fn as_raw(self) -> (r: phys_addr_t)
        ensures
            r == self@,
    {
        self.0
    }

    /// Returns `true` if the physical address is null (zero).
    pub fn is_null(self) -> (r: bool)
        ensures
            r == (self@ == 0),
    {
        self.0 == 0
    }

    /// Checked addition. Returns `None` if overflow occurs.
    pub fn checked_add(self, rhs: phys_addr_t) -> (r: Option<PhysAddr>)
        ensures
            match r {
                Some(p) => checked_sum(self@, rhs) == Some(p@),
                None => checked_sum(self@, rhs) is None,
            },
    {
        match self.0.checked_add(rhs) {
            Some(v) => Some(PhysAddr(v)),
            None => None,
        }
    }

    /// Checked subtraction. Returns `None` if overflow occurs.
    pub fn checked_sub(self, rhs: phys_addr_t) -> (r: Option<PhysAddr>)
        ensures
            match r {
                Some(p) => checked_difference(self@, rhs) == Some(p@),
                None => checked_difference(self@, rhs) is None,
            },
    {
        match self.0.checked_sub(rhs) {
            Some(v) => Some(PhysAddr(v)),
            None => None,
        }
    }

    /// Saturating addition. Caps at `phys_addr_t::MAX` on overflow.
    pub fn saturating_add(self, rhs: phys_addr_t) -> (r: PhysAddr)
        ensures
            r@ == saturating_sum(self@, rhs),
    {
        PhysAddr(self.0.saturating_add(rhs))
    }

    /// Saturating subtraction. Caps at 0 on underflow.
    pub fn saturating_sub(self, rhs: phys_addr_t) -> (r: PhysAddr)
        ensures
            r@ == saturating_difference(self@, rhs),
    {
        PhysAddr(self.0.saturating_sub(rhs))
    }

    /// Wrapping addition.
    pub fn wrapping_add(self, rhs: phys_addr_t) -> (r: PhysAddr)
        ensures
            r@ == wrap(self@ + rhs),
    {
        PhysAddr(self.0.wrapping_add(rhs))
    }

    /// Wrapping subtraction.
    pub fn wrapping_sub(self, rhs: phys_addr_t) -> (r: PhysAddr)
        ensures
            r@ == wrap(self@ - rhs),
    {
        PhysAddr(self.0.wrapping_sub(rhs))
    }

    /// Wrapping multiplication.
    pub fn wrapping_mul(self, rhs: phys_addr_t) -> (r: PhysAddr)
        ensures
            r@ == wrap(self@ * rhs),
    {
        PhysAddr(self.0.wrapping_mul(rhs))
    }

    /// Aligns the address down to the nearest multiple of `align`.
    ///
    /// `align` must be a power of two for the result to be a multiple of it;
    /// on any other value the mask is applied all the same.
    pub fn align_down(self, align: phys_addr_t) -> (r: PhysAddr)
        ensures
            r@ == clear_low_bits(self@, align),
            is_power_of_two(align) ==> r@ == round_down(self@ as int, align as int),
    {
        proof {
            if is_power_of_two(align) {
                lemma_clear_low_bits_rounds_down(self@, align);
            }
        }
        PhysAddr(self.0 & !(align.wrapping_sub(1)))
    }

    /// Aligns the address up to the nearest multiple of `align`.
    ///
    /// `align` must be a power of two for the result to be a multiple of it.
    /// Where the next multiple is 2^64 itself, the result wraps to zero.
    pub fn align_up(self, align: phys_addr_t) -> (r: PhysAddr)
        ensures
            r@ == clear_low_bits(wrap(self@ + wrap(align - 1)), align),
            is_power_of_two(align) ==> r@ == wrap(round_up(self@ as int, align as int)),
    {
        proof {
            if is_power_of_two(align) {
                lemma_round_up_wraps(self@, align);
            }
        }
        self.add_const(align.wrapping_sub(1)).align_down(align)
    }

    /// Wrapping addition, as `align_up` uses it.
    fn add_const(self, rhs: phys_addr_t) -> (r: PhysAddr)
        ensures
            r@ == wrap(self@ + rhs),
    {
        PhysAddr(self.0.wrapping_add(rhs))
    }
}

impl Default for PhysAddr {
    /// The zero physical address.
    fn default() -> (r: PhysAddr)
        ensures
            r@ == 0,
    {
        PhysAddr(0)
    }
}

impl From<phys_addr_t> for PhysAddr {
    /// The address with the raw value `addr`, as `from_raw` makes it.
    fn from(addr: phys_addr_t) -> (r: PhysAddr) {
        Self::from_raw(addr)
    }
}

impl vstd::std_specs::convert::FromSpecImpl<phys_addr_t> for PhysAddr {
    open spec fn obeys_from_spec() -> bool {
        true
    }

    open spec fn from_spec(addr: phys_addr_t) -> PhysAddr {
        phys(addr)
    }
}

impl From<PhysAddr> for phys_addr_t {
    /// The raw value of `addr`, as `as_raw` reads it.
    fn from(addr: PhysAddr) -> (r: phys_addr_t) {
        addr.as_raw()
    }
}

impl vstd::std_specs::convert::FromSpecImpl<PhysAddr> for phys_addr_t {
    open spec fn obeys_from_spec() -> bool {
        true
    }

    open spec fn from_spec(addr: PhysAddr) -> phys_addr_t {
        addr@
    }
}

impl core::ops::Add<phys_addr_t> for PhysAddr {
    type Output = PhysAddr;

    /// Adds with wrapping on overflow.
    ///
    /// For checked or saturating arithmetic, use `checked_add` or
    /// `saturating_add`.
    fn add(self, rhs: phys_addr_t) -> (r: PhysAddr) {
        self.wrapping_add(rhs)
    }
}

impl vstd::std_specs::ops::AddSpecImpl<phys_addr_t> for PhysAddr {
    open spec fn obeys_add_spec() -> bool {
        true
    }

    open spec fn add_req(self, rhs: phys_addr_t) -> bool {
        true
    }

    open spec fn add_spec(self, rhs: phys_addr_t) -> PhysAddr {
        phys(wrap(self@ + rhs))
    }
}

impl core::ops::Sub<phys_addr_t> for PhysAddr {
    type Output = PhysAddr;

    /// Subtracts with wrapping on underflow.
    ///
    /// For checked or saturating arithmetic, use `checked_sub` or
    /// `saturating_sub`.
    fn sub(self, rhs: phys_addr_t) -> (r: PhysAddr) {
        self.wrapping_sub(rhs)
    }
}

impl vstd::std_specs::ops::SubSpecImpl<phys_addr_t> for PhysAddr {
    open spec fn obeys_sub_spec() -> bool {
        true
    }

    open spec fn sub_req(self, rhs: phys_addr_t) -> bool {
        true
    }

    open spec fn sub_spec(self, rhs: phys_addr_t) -> PhysAddr {
        phys(wrap(self@ - rhs))
    }
}

impl core::ops::Sub<PhysAddr> for PhysAddr {
    type Output = phys_addr_t;

    /// Calculates the offset from `rhs` to `self`.
    ///
    /// Performs saturating subtraction. If `rhs` is greater than `self`,
    /// the result will be 0.
    fn sub(self, rhs: PhysAddr) -> (r: phys_addr_t) {
        self.0.saturating_sub(rhs.0)
    }
}

impl vstd::std_specs::ops::SubSpecImpl<PhysAddr> for PhysAddr {
    open spec fn obeys_sub_spec() -> bool {
        true
    }

    open spec fn sub_req(self, rhs: PhysAddr) -> bool {
        true
    }

    open spec fn sub_spec(self, rhs: PhysAddr) -> phys_addr_t {
        saturating_difference(self@, rhs@)
    }
}


/// Rounding up after a wrapping addition of `align - 1` gives the multiple
/// of `align` above `x`, taken modulo 2^64.
proof fn lemma_round_up_wraps(x: phys_addr_t, align: phys_addr_t)
    requires
        is_power_of_two(align),
    ensures
        clear_low_bits(wrap(x + wrap(align - 1)), align) == wrap(round_up(x as int, align as int)),
{
    let y = wrap(x + wrap(align - 1));
    lemma_clear_low_bits_rounds_down(y, align);
    lemma_power_of_two_divides_modulus(align);
    let a = align as int;
    let k = modulus() / a;
    lemma_fundamental_div_mod(modulus(), a);
    assert(modulus() == a * k);
    if x + a - 1 > phys_addr_t::MAX {
        assert(y == x + a - 1 - modulus());
        lemma_mod_multiples_vanish(k, y as int, a);
        assert((x + a - 1) % a == (y as int) % a);
    } else {
        assert(y == x + a - 1);
    }
}

} // verus!

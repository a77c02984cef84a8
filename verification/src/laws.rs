//! What holds across the operations on physical addresses: the laws that
//! the contracts of `PhysAddr` add up to.

use crate::addr::{
    checked_difference, checked_sum, saturating_difference, saturating_sum,
    group_phys_addr, is_power_of_two, lemma_power_of_two_divides_modulus, modulus, phys,
    round_down, round_up, wrap, PhysAddr,
};
use crate::bindings::phys_addr_t;
use crate::radix::{digit_char, radix_digits};
use vstd::arithmetic::div_mod::{
    lemma_div_decreases, lemma_fundamental_div_mod, lemma_mod_multiples_vanish,
};
use vstd::prelude::*;
use vstd::std_specs::ops::{AddSpec, SubSpec};

verus! {

/// `from_raw` and `as_raw` undo each other: the raw value of the address
/// made from `v` is `v`, and the address made from the raw value of `a` is
/// `a`.
pub proof fn law_raw_round_trip(a: PhysAddr, v: phys_addr_t)
    ensures
        phys(v)@ == v,
        phys(a@) == a,
{
    broadcast use group_phys_addr;
}

/// An address is null exactly when it is the zero address, which is also
/// the default one.
pub proof fn law_null_is_zero(a: PhysAddr)
    ensures
        (a@ == 0) <==> a == phys(0),
{
    broadcast use group_phys_addr;
}

/// Wrapping subtraction undoes wrapping addition, and the other way round.
pub proof fn law_wrapping_sub_undoes_add(x: phys_addr_t, y: phys_addr_t)
    ensures
        wrap(wrap(x + y) - y) == x,
        wrap(wrap(x - y) + y) == x,
{
}

/// Where `x + y` does not overflow, checked, saturating and wrapping
/// addition all give `x + y`; where it does, checked addition gives
/// nothing, saturating addition the largest value and wrapping addition
/// `x + y - 2^64`.
pub proof fn law_addition_modes_agree(x: phys_addr_t, y: phys_addr_t)
    ensures
        x + y <= phys_addr_t::MAX ==> checked_sum(x, y) == Some(wrap(x + y))
            && saturating_sum(x, y) == x + y && wrap(x + y) == x + y,
        x + y > phys_addr_t::MAX ==> checked_sum(x, y) is None
            && saturating_sum(x, y) == phys_addr_t::MAX && wrap(x + y) == x + y - modulus(),
{
}

/// Where `y <= x`, checked, saturating and wrapping subtraction all give
/// `x - y`; below zero, checked subtraction gives nothing, saturating
/// subtraction zero and wrapping subtraction `x - y + 2^64`.
pub proof fn law_subtraction_modes_agree(x: phys_addr_t, y: phys_addr_t)
    ensures
        y <= x ==> checked_difference(x, y) == Some(wrap(x - y))
            && saturating_difference(x, y) == x - y && wrap(x - y) == x - y,
        y > x ==> checked_difference(x, y) is None && saturating_difference(x, y) == 0
            && wrap(x - y) == x - y + modulus(),
{
}

/// The offset from `b` to `a` (the saturating `a - b`) added back to `b`
/// gives `a` whenever `b` is not above `a`.
pub proof fn law_offset_adds_back(a: PhysAddr, b: PhysAddr)
    requires
        b@ <= a@,
    ensures
        phys(wrap(b@ + saturating_difference(a@, b@))) == a,
{
    broadcast use group_phys_addr;
}

/// The offset operator `a - b` between two addresses is the distance from
/// `b` up to `a`: added to `b` it gives `a` whenever `b` is not above `a`,
/// and it is zero where `b` is above `a`.
pub proof fn law_offset_operator(a: PhysAddr, b: PhysAddr)
    ensures
        b@ <= a@ ==> b@ + <PhysAddr as SubSpec<PhysAddr>>::sub_spec(a, b) == a@,
        b@ > a@ ==> <PhysAddr as SubSpec<PhysAddr>>::sub_spec(a, b) == 0,
{
}

/// Subtracting `x` with the `-` operator undoes adding it with `+`, and the
/// other way round, for every address and amount.
pub proof fn law_add_sub_operators_undo(a: PhysAddr, x: phys_addr_t)
    ensures
        <PhysAddr as SubSpec<phys_addr_t>>::sub_spec(
            <PhysAddr as AddSpec<phys_addr_t>>::add_spec(a, x),
            x,
        ) == a,
        <PhysAddr as AddSpec<phys_addr_t>>::add_spec(
            <PhysAddr as SubSpec<phys_addr_t>>::sub_spec(a, x),
            x,
        ) == a,
{
    broadcast use group_phys_addr;
}

/// Two different multiples of `a` lie at least `a` apart.
proof fn lemma_multiples_apart(m: int, r: int, a: int)
    requires
        a > 0,
        m % a == 0,
        r % a == 0,
        m < r,
    ensures
        m + a <= r,
{
    lemma_fundamental_div_mod(m, a);
    lemma_fundamental_div_mod(r, a);
    let qm = m / a;
    let qr = r / a;
    assert(qm < qr) by (nonlinear_arith)
        requires a * qm < a * qr, a > 0;
    assert(a * (qm + 1) <= a * qr) by (nonlinear_arith)
        requires qm < qr, a > 0;
    assert(a * (qm + 1) == a * qm + a) by (nonlinear_arith);
}

/// `round_down(x, a)` is a multiple of `a` within `a` below `x`.
proof fn lemma_round_down_bounds(x: int, a: int)
    requires
        a > 0,
    ensures
        round_down(x, a) % a == 0,
        round_down(x, a) <= x < round_down(x, a) + a,
        x % a == 0 ==> round_down(x, a) == x,
{
    lemma_fundamental_div_mod(x, a);
    lemma_mod_multiples_vanish(x / a, 0, a);
}

/// Aligning down to a power of two gives the largest multiple of it that
/// is not above the address; an address that is a multiple already stays
/// as it is.
pub proof fn law_align_down_is_greatest_multiple(x: phys_addr_t, align: phys_addr_t, m: int)
    requires
        is_power_of_two(align),
        m % (align as int) == 0,
        m <= x,
    ensures
        round_down(x as int, align as int) % (align as int) == 0,
        round_down(x as int, align as int) <= x < round_down(x as int, align as int) + align,
        m <= round_down(x as int, align as int),
        x % align == 0 ==> round_down(x as int, align as int) == x,
{
    lemma_power_of_two_divides_modulus(align);
    let a = align as int;
    lemma_round_down_bounds(x as int, a);
    if m > round_down(x as int, a) {
        lemma_multiples_apart(round_down(x as int, a), m, a);
    }
}

/// Aligning up to a power of two, where the result fits, gives the
/// smallest multiple of it that is not below the address; an address that
/// is a multiple already stays as it is.
pub proof fn law_align_up_is_least_multiple(x: phys_addr_t, align: phys_addr_t, m: int)
    requires
        is_power_of_two(align),
        x + align - 1 <= phys_addr_t::MAX,
        m % (align as int) == 0,
        x <= m,
    ensures
        wrap(round_up(x as int, align as int)) == round_up(x as int, align as int),
        round_up(x as int, align as int) % (align as int) == 0,
        x <= round_up(x as int, align as int) < x + align,
        round_up(x as int, align as int) <= m,
        x % align == 0 ==> round_up(x as int, align as int) == x,
{
    lemma_power_of_two_divides_modulus(align);
    let a = align as int;
    let r = round_up(x as int, a);
    lemma_round_down_bounds(x + a - 1, a);
    if m < r {
        lemma_multiples_apart(m, r, a);
    }
    if x % align == 0 {
        lemma_round_down_bounds(x as int, a);
        if r != x {
            lemma_multiples_apart(x as int, r, a);
        }
    }
}

/// The result of aligning up to a power of two is aligned, even where it
/// wraps to zero: aligning it down again leaves it as it is.
pub proof fn law_align_up_then_down(x: phys_addr_t, align: phys_addr_t)
    requires
        is_power_of_two(align),
    ensures
        wrap(round_up(x as int, align as int)) % align == 0,
        round_down(wrap(round_up(x as int, align as int)) as int, align as int)
            == wrap(round_up(x as int, align as int)),
{
    lemma_power_of_two_divides_modulus(align);
    let a = align as int;
    let r = round_up(x as int, a);
    lemma_round_down_bounds(x + a - 1, a);
    let k = modulus() / a;
    lemma_fundamental_div_mod(modulus(), a);
    assert(r % a == 0);
    if r >= modulus() {
        assert(a * k == modulus());
        assert(a * (-k) == -modulus()) by (nonlinear_arith)
            requires a * k == modulus();
        lemma_mod_multiples_vanish(-k, r, a);
        assert((r - modulus()) % a == 0);
        assert(wrap(r) == r - modulus());
    } else {
        assert(wrap(r) == r);
    }
    lemma_round_down_bounds(wrap(r) as int, a);
}

/// The number that the digit character `c` stands for, in either case.
pub open spec fn char_value(c: char) -> int {
    if '0' <= c <= '9' {
        c as int - 48
    } else if 'a' <= c <= 'z' {
        c as int - 87
    } else {
        c as int - 55
    }
}

/// The number that the digits `s` stand for in `radix`, most significant
/// digit first.
pub open spec fn digits_value(s: Seq<char>, radix: nat) -> int
    decreases s.len(),
{
    if s.len() == 0 {
        0
    } else {
        digits_value(s.drop_last(), radix) * radix + char_value(s.last())
    }
}

/// `c` is one of the standard digit characters: `0`-`9`, then `a`-`f`, or
/// `A`-`F` where `upper` holds.
pub open spec fn is_digit_char(c: char, upper: bool) -> bool {
    ||| '0' <= c <= '9'
    ||| upper && 'A' <= c <= 'F'
    ||| !upper && 'a' <= c <= 'f'
}

/// `c` is a standard digit character of a value below `radix`.
pub open spec fn is_radix_digit(c: char, radix: nat, upper: bool) -> bool {
    is_digit_char(c, upper) && char_value(c) < radix
}

/// Each digit character is a standard one and stands for its digit.
proof fn lemma_digit_char_value(d: nat, upper: bool)
    requires
        d < 16,
    ensures
        char_value(digit_char(d, upper)) == d,
        is_digit_char(digit_char(d, upper), upper),
        digit_char(d, upper) == '0' <==> d == 0,
{
}

/// The digits that formatting writes are the representation of the number
/// in the radix: each is a standard digit character (`0`-`9`, then `a`-`f`,
/// or `A`-`F` in upper case) of a value below the radix, together they stand
/// for the number written, and they have no leading zero: the first digit
/// is `0` only for the number zero, which is written as that one digit.
pub proof fn law_radix_digits_denote_value(n: nat, radix: nat, upper: bool)
    requires
        2 <= radix <= 16,
    ensures
        forall|i: int|
            0 <= i < radix_digits(n, radix, upper).len() ==> is_radix_digit(
                #[trigger] radix_digits(n, radix, upper)[i],
                radix,
                upper,
            ),
        digits_value(radix_digits(n, radix, upper), radix) == n,
        radix_digits(n, radix, upper).len() >= 1,
        radix_digits(n, radix, upper)[0] == '0' <==> n == 0,
        n == 0 ==> radix_digits(n, radix, upper) == seq!['0'],
    decreases n,
{
    let s = radix_digits(n, radix, upper);
    if n < radix {
        lemma_digit_char_value(n, upper);
        assert(s.drop_last() =~= Seq::<char>::empty());
        assert(digits_value(s.drop_last(), radix) == 0);
    } else {
        lemma_digit_char_value(n % radix, upper);
        lemma_div_decreases(n as int, radix as int);
        law_radix_digits_denote_value(n / radix, radix, upper);
        let t = radix_digits(n / radix, radix, upper);
        assert(s.drop_last() =~= t);
        assert(s[0] == t[0]);
        lemma_fundamental_div_mod(n as int, radix as int);
        assert(n / radix > 0) by (nonlinear_arith)
            requires n >= radix, radix > 0;
        assert(digits_value(t, radix) * radix == radix * (n / radix)) by (nonlinear_arith)
            requires digits_value(t, radix) == n / radix;
        assert forall|i: int| 0 <= i < s.len() implies is_radix_digit(#[trigger] s[i], radix, upper) by {
            if i < t.len() {
                assert(s[i] == t[i]);
            }
        }
    }
}

} // verus!

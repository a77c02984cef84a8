use phys_addr::addr::PhysAddr;
use phys_addr::bindings::phys_addr_t;

#[test]
fn module_doc_example() {
    let addr = PhysAddr::from_raw(0x1008 as phys_addr_t);
    assert_eq!(addr + 8, PhysAddr::from_raw(0x1010 as phys_addr_t));
    let new_addr = addr.checked_add(8).expect("Overflow occurred");
    assert_eq!(new_addr.as_raw(), 0x1010);
    let aligned_addr = addr.align_down(8);
    assert_eq!(aligned_addr.as_raw(), 0x1008);
}

#[test]
fn raw_round_trip() {
    let v: phys_addr_t = 0xdead_beef_0000_1234;
    assert_eq!(PhysAddr::from_raw(v).as_raw(), v);
    let a = PhysAddr::from_raw(v);
    assert_eq!(PhysAddr::from_raw(a.as_raw()), a);
    let b: PhysAddr = PhysAddr::from(v);
    assert_eq!(b, a);
    let w: phys_addr_t = phys_addr_t::from(a);
    assert_eq!(w, v);
    let c: PhysAddr = v.into();
    assert_eq!(c, a);
}

#[test]
fn null_is_zero_and_default() {
    assert_eq!(PhysAddr::default(), PhysAddr::zero());
    assert!(PhysAddr::default().is_null());
    assert!(!PhysAddr::from_raw(phys_addr_t::MAX).is_null());
}

#[test]
fn wrapping_sub_undoes_wrapping_add() {
    let a = PhysAddr::from_raw(phys_addr_t::MAX - 3);
    assert_eq!(a.wrapping_add(10).wrapping_sub(10), a);
    assert_eq!(a.wrapping_sub(phys_addr_t::MAX).wrapping_add(phys_addr_t::MAX), a);
    assert_eq!((a + 10) - 10, a);
}

#[test]
fn checked_add_at_the_edge() {
    let a = PhysAddr::from_raw(phys_addr_t::MAX - 1);
    assert_eq!(a.checked_add(1), Some(PhysAddr::from_raw(phys_addr_t::MAX)));
    assert_eq!(a.checked_add(2), None);
    assert_eq!(a.saturating_add(2), PhysAddr::from_raw(phys_addr_t::MAX));
    assert_eq!(a.wrapping_add(2), PhysAddr::from_raw(0));
}

#[test]
fn checked_sub_at_the_edge() {
    let a = PhysAddr::from_raw(5);
    assert_eq!(a.checked_sub(5), Some(PhysAddr::zero()));
    assert_eq!(a.checked_sub(6), None);
    assert_eq!(a.saturating_sub(6), PhysAddr::zero());
    assert_eq!(a.wrapping_sub(6), PhysAddr::from_raw(phys_addr_t::MAX));
}

#[test]
fn wrapping_multiplication() {
    let a = PhysAddr::from_raw(0x1000);
    assert_eq!(a.wrapping_mul(3), PhysAddr::from_raw(0x3000));
    let big = PhysAddr::from_raw(0x8000_0000_0000_0001);
    assert_eq!(big.wrapping_mul(2), PhysAddr::from_raw(2));
    assert_eq!(a.wrapping_mul(0), PhysAddr::zero());
}

#[test]
fn offset_adds_back() {
    let a = PhysAddr::from_raw(0x5432);
    let b = PhysAddr::from_raw(0x1000);
    assert_eq!(b + (a - b), a);
    assert_eq!(b - a, 0);
}

#[test]
fn align_down_to_larger_powers() {
    let a = PhysAddr::from_raw(0x1234_5678);
    assert_eq!(a.align_down(0x1000), PhysAddr::from_raw(0x1234_5000));
    assert_eq!(a.align_down(1), a);
    assert_eq!(a.align_down(1 << 63), PhysAddr::zero());
    let high = PhysAddr::from_raw(phys_addr_t::MAX);
    assert_eq!(high.align_down(1 << 63), PhysAddr::from_raw(1 << 63));
}

#[test]
fn align_up_to_larger_powers() {
    let a = PhysAddr::from_raw(0x1234_5678);
    assert_eq!(a.align_up(0x1000), PhysAddr::from_raw(0x1234_6000));
    assert_eq!(a.align_up(1), a);
    assert_eq!(a.align_up(0x1000).align_down(0x1000), a.align_up(0x1000));
}

#[test]
fn align_up_wraps_to_zero_at_the_top() {
    let high = PhysAddr::from_raw(phys_addr_t::MAX - 2);
    assert_eq!(high.align_up(8), PhysAddr::zero());
    assert_eq!(high.align_up(8).align_down(8), PhysAddr::zero());
}

#[test]
fn alignment_masks_other_values() {
    // Not a power of two: the mask `!(align - 1)` is applied as it is.
    let a = PhysAddr::from_raw(0x1007);
    assert_eq!(a.align_down(6), PhysAddr::from_raw(0x1007 & !5));
    assert_eq!(a.align_up(6), PhysAddr::from_raw((0x1007 + 5) & !5));
    // Zero: the mask clears every bit.
    assert_eq!(a.align_down(0), PhysAddr::zero());
    assert_eq!(a.align_up(0), PhysAddr::zero());
}

#[test]
fn ordering_follows_raw_values() {
    let a = PhysAddr::from_raw(0x1000);
    let b = PhysAddr::from_raw(0x2000);
    assert!(a < b);
    assert!(b > a);
    assert_eq!(a.max(b), b);
}

#[test]
fn text_forms() {
    let a = PhysAddr::from_raw(0x1fab);
    assert_eq!(a.display_string(), "0x1fab");
    assert_eq!(a.lower_hex_string(), "1fab");
    assert_eq!(a.upper_hex_string(), "1FAB");
    assert_eq!(a.octal_string(), "17653");
    assert_eq!(a.binary_string(), "1111110101011");
}

#[test]
fn text_forms_of_the_ends() {
    let z = PhysAddr::zero();
    assert_eq!(z.display_string(), "0x0");
    assert_eq!(z.binary_string(), "0");
    assert_eq!(z.octal_string(), "0");
    let m = PhysAddr::from_raw(phys_addr_t::MAX);
    assert_eq!(m.display_string(), "0xffffffffffffffff");
    assert_eq!(m.upper_hex_string(), "FFFFFFFFFFFFFFFF");
    assert_eq!(m.octal_string(), "1777777777777777777777");
    assert_eq!(m.binary_string(), "1".repeat(64));
}

#[test]
fn debug_text() {
    assert_eq!(PhysAddr::from_raw(0xabc).debug_string(), "PhysAddr(0xabc)");
    assert_eq!(PhysAddr::zero().debug_string(), "PhysAddr(0x0)");
}

#[test]
fn comparison_follows_raw_values() {
    let a = PhysAddr::from_raw(7);
    let b = PhysAddr::from_raw(9);
    assert_eq!(a.partial_cmp(&b), Some(std::cmp::Ordering::Less));
    assert_eq!(b.partial_cmp(&a), Some(std::cmp::Ordering::Greater));
    assert_eq!(a.partial_cmp(&a), Some(std::cmp::Ordering::Equal));
    assert_eq!(a.cmp(&b), 7u64.cmp(&9u64));
    assert!(a <= a && a >= a);
}

#[test]
fn checked_add_agrees_with_other_modes() {
    let p = PhysAddr::from_raw(0x1000);
    let r = p.checked_add(0x20).unwrap();
    assert_eq!(r, p.wrapping_add(0x20));
    assert_eq!(r, p.saturating_add(0x20));
    assert!(r >= p);
    let top = PhysAddr::from_raw(phys_addr_t::MAX - 4);
    assert_eq!(top.checked_add(5), None);
    assert!(top.wrapping_add(5) < top);
}

#[test]
fn saturating_add_keeps_order() {
    let p = PhysAddr::from_raw(10);
    let q = PhysAddr::from_raw(phys_addr_t::MAX - 1);
    assert!(p.saturating_add(5) <= q.saturating_add(5));
    assert!(q <= q.saturating_add(5));
}

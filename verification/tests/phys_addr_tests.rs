use phys_addr::addr::PhysAddr;
use phys_addr::bindings::phys_addr_t;

#[test]
fn test_creation_and_conversion() {
    let addr = PhysAddr::from_raw(0x1000);
    assert_eq!(addr.as_raw(), 0x1000);

    let default_addr = PhysAddr::default();
    assert_eq!(default_addr.as_raw(), 0);
    assert_eq!(default_addr, PhysAddr::zero());

    ()
}

#[test]
fn test_is_null() {
    assert!(PhysAddr::zero().is_null());
    assert!(PhysAddr::from_raw(0).is_null());
    assert!(!PhysAddr::from_raw(1).is_null());
    ()
}

#[test]
fn test_arithmetic() {
    let addr = PhysAddr::from_raw(0x1000);

    // Checked addition
    assert_eq!(addr.checked_add(0x10), Some(PhysAddr::from_raw(0x1010)));
    let max_addr = PhysAddr::from_raw(phys_addr_t::MAX);
    assert_eq!(max_addr.checked_add(1), None);

    // Wrapping addition
    assert_eq!(addr.wrapping_add(0x10), PhysAddr::from_raw(0x1010));
    assert_eq!(max_addr.wrapping_add(1), PhysAddr::from_raw(0));
    assert_eq!(max_addr + 2, PhysAddr::from_raw(1));

    // Wrapping subtraction
    assert_eq!(addr.wrapping_sub(0x10), PhysAddr::from_raw(0x0ff0));
    let zero_addr = PhysAddr::from_raw(0);
    assert_eq!(
        zero_addr.wrapping_sub(1),
        PhysAddr::from_raw(phys_addr_t::MAX)
    );
    assert_eq!(zero_addr - 2, PhysAddr::from_raw(phys_addr_t::MAX - 1));

    ()
}

#[test]
fn test_address_difference() {
    let addr1 = PhysAddr::from_raw(0x1000);
    let addr2 = PhysAddr::from_raw(0x2000);

    assert_eq!(addr2 - addr1, 0x1000);
    assert_eq!(addr1 - addr2, 0); // Saturating subtraction
    assert_eq!(addr1 - addr1, 0);

    ()
}

#[test]
fn test_alignment() {
    let addr = PhysAddr::from_raw(0x1007);
    let align = 8 as phys_addr_t;

    // align_down
    assert_eq!(addr.align_down(align), PhysAddr::from_raw(0x1000));
    let aligned_addr = PhysAddr::from_raw(0x1008);
    assert_eq!(aligned_addr.align_down(align), aligned_addr);

    // align_up
    assert_eq!(addr.align_up(align), PhysAddr::from_raw(0x1008));
    assert_eq!(aligned_addr.align_up(align), aligned_addr);
    assert_eq!(PhysAddr::from_raw(0).align_up(align), PhysAddr::from_raw(0));

    ()
}

#[test]
fn test_saturating_arithmetic() {
    let addr = PhysAddr::from_raw(0x1000);
    let max_addr = PhysAddr::from_raw(phys_addr_t::MAX);

    // Saturating add
    assert_eq!(addr.saturating_add(0x10), PhysAddr::from_raw(0x1010));
    assert_eq!(max_addr.saturating_add(1), max_addr); // Caps at MAX

    // Saturating sub
    assert_eq!(addr.saturating_sub(0x10), PhysAddr::from_raw(0x0ff0));
    let zero = PhysAddr::from_raw(0);
    assert_eq!(zero.saturating_sub(1), zero); // Caps at 0

    ()
}

#[test]
fn test_checked_subtraction() {
    let addr = PhysAddr::from_raw(0x1000);

    assert_eq!(addr.checked_sub(0x10), Some(PhysAddr::from_raw(0x0ff0)));
    let zero = PhysAddr::from_raw(0);
    assert_eq!(zero.checked_sub(1), None); // Underflow

    ()
}

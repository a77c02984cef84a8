# phys_addr

A physical-address type for kernel code, with its contracts and laws proved.

`PhysAddr` keeps a raw `phys_addr_t` (64 bits) apart from other integers. It
offers checked, saturating and wrapping arithmetic, the `+` and `-`
operators (wrapping, and a saturating offset between two addresses),
alignment down and up to a power of two, and its text forms.

Layout:

- `src/addr.rs`: the type, its view (the raw value), its operations and
  their contracts, with the spec functions they are stated in.
- `src/order.rs`: comparison of addresses by raw value, and laws on it.
- `src/radix.rs`, `src/display.rs`: digits in a radix, and the text forms
  (`0x...`, `PhysAddr(0x...)`, hexadecimal, octal, binary).
- `src/laws.rs`: laws across the operations (round trips, agreement of the
  arithmetic modes, alignment as greatest or least multiple, digits that
  denote the value).
- `tests/`: tests run against the compiled library.
- `app/`: what the library cannot hold: the `core::fmt` impls on a copy of
  the type, the `ZERO` constant, and the kernel's boxed hrtimer glue, which
  needs the kernel crate.

//! The integer type that holds a physical address.

use vstd::prelude::*;

verus! {

/// The raw integer type of a physical address, as wide as the platform's
/// 64-bit `phys_addr_t`.
#[allow(non_camel_case_types)]
pub type phys_addr_t = u64;

} // verus!

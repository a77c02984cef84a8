//! Physical addresses as a type of their own, with checked, saturating and
//! wrapping arithmetic, power-of-two alignment and radix formatting.

pub mod addr;
pub mod bindings;
pub mod display;
pub mod laws;
pub mod order;
pub mod radix;

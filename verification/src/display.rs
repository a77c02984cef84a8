//! The text forms of a physical address: hexadecimal with a `0x` prefix,
//! alone or as `PhysAddr(0x...)`, and bare hexadecimal, octal and binary
//! digits.

use crate::addr::PhysAddr;
use crate::radix::{push_char, push_digits, radix_digits};
use vstd::prelude::*;

verus! {

impl PhysAddr {
    /// The address as `0x` followed by its lowercase hexadecimal digits,
    /// as it is displayed and printed as a pointer.
    pub fn display_string(self) -> (r: String)
        ensures
            r@ == seq!['0', 'x'] + radix_digits(self@ as nat, 16, false),
    {
        let mut s = String::new();
        push_char(&mut s, '0');
        push_char(&mut s, 'x');
        push_digits(&mut s, self.as_raw(), 16, false);
        s
    }

    /// The address as `PhysAddr(0x...)`, with its lowercase hexadecimal
    /// digits, as it is shown for debugging.
    pub fn debug_string(self) -> (r: String)
        ensures
            r@ == seq!['P', 'h', 'y', 's', 'A', 'd', 'd', 'r', '(', '0', 'x'] + radix_digits(
                self@ as nat,
                16,
                false,
            ) + seq![')'],
    {
        let mut s = String::new();
        push_char(&mut s, 'P');
        push_char(&mut s, 'h');
        push_char(&mut s, 'y');
        push_char(&mut s, 's');
        push_char(&mut s, 'A');
        push_char(&mut s, 'd');
        push_char(&mut s, 'd');
        push_char(&mut s, 'r');
        push_char(&mut s, '(');
        push_char(&mut s, '0');
        push_char(&mut s, 'x');
        push_digits(&mut s, self.as_raw(), 16, false);
        push_char(&mut s, ')');
        s
    }

    /// The lowercase hexadecimal digits of the address.
    pub fn lower_hex_string(self) -> (r: String)
        ensures
            r@ == radix_digits(self@ as nat, 16, false),
    {
        let mut s = String::new();
        push_digits(&mut s, self.as_raw(), 16, false);
        s
    }

    /// The uppercase hexadecimal digits of the address.
    pub fn upper_hex_string(self) -> (r: String)
        ensures
            r@ == radix_digits(self@ as nat, 16, true),
    {
        let mut s = String::new();
        push_digits(&mut s, self.as_raw(), 16, true);
        s
    }

    /// The octal digits of the address.
    pub fn octal_string(self) -> (r: String)
        ensures
            r@ == radix_digits(self@ as nat, 8, false),
    {
        let mut s = String::new();
        push_digits(&mut s, self.as_raw(), 8, false);
        s
    }

    /// The binary digits of the address.
    pub fn binary_string(self) -> (r: String)
        ensures
            r@ == radix_digits(self@ as nat, 2, false),
    {
        let mut s = String::new();
        push_digits(&mut s, self.as_raw(), 2, false);
        s
    }
}


} // verus!

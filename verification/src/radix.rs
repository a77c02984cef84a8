//! Writing an unsigned integer as digits in a radix from 2 to 16, most
//! significant digit first and without leading zeros.

use vstd::arithmetic::div_mod::{lemma_div_decreases, lemma_small_mod};
use vstd::prelude::*;

verus! {

/// The character of the digit `d`: `0`-`9`, then `a`-`f`, or `A`-`F`
/// where `upper` holds.
pub open spec fn digit_char(d: nat, upper: bool) -> char {
    if d < 10 {
        (48 + d) as char
    } else if upper {
        (55 + d) as char
    } else {
        (87 + d) as char
    }
}

/// The digits of `n` in `radix`, most significant first, with no leading
/// zeros; zero is the single digit `0`.
pub open spec fn radix_digits(n: nat, radix: nat, upper: bool) -> Seq<char>
    decreases n,
{
    if radix < 2 || n < radix {
        seq![digit_char(n, upper)]
    } else {
        proof {
            lemma_div_decreases(n as int, radix as int);
        }
        radix_digits(n / radix, radix, upper).push(digit_char(n % radix, upper))
    }
}

/// Appends `c` to `s` by calling std's `String::push`. Trusted: its
/// contract claims what std documents, that the string afterwards is the
/// old one with `c` at its end.
#[verifier::external_body]
pub(crate) fn push_char(s: &mut String, c: char)
    ensures
        final(s)@ == old(s)@.push(c),
{
    s.push(c);
}

/// The character of one digit below 16.
fn digit(d: u64, upper: bool) -> (c: char)
    requires
        d < 16,
    ensures
        c == digit_char(d as nat, upper),
{
    let b: u8 = d as u8;
    if b < 10 {
        (48u8 + b) as char
    } else if upper {
        (55u8 + b) as char
    } else {
        (87u8 + b) as char
    }
}

/// Appends the digits of `n` in `radix` to `s`.
pub(crate) fn push_digits(s: &mut String, n: u64, radix: u64, upper: bool)
    requires
        2 <= radix <= 16,
    ensures
        final(s)@ == old(s)@ + radix_digits(n as nat, radix as nat, upper),
    decreases n,
{
    if n >= radix {
        proof {
            lemma_div_decreases(n as int, radix as int);
        }
        push_digits(s, n / radix, radix, upper);
    } else {
        proof {
            lemma_small_mod(n as nat, radix as nat);
        }
    }
    push_char(s, digit(n % radix, upper));
    proof {
        if n >= radix {
            assert(old(s)@ + radix_digits(n as nat, radix as nat, upper) =~= old(s)@
                + radix_digits((n / radix) as nat, radix as nat, upper) + seq![
                digit_char((n % radix) as nat, upper),
            ]);
        }
    }
}

} // verus!

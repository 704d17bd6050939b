//! Reading numbers from hexadecimal text, which the standard library does.

use vstd::prelude::*;
use core::num::ParseIntError;

verus! {

/// The number that `u64::from_str_radix` reads from `s` in base 16, or
/// `None` where it refuses `s`.
pub uninterp spec fn hex_u64(s: Seq<char>) -> Option<u64>;

/// The number that `u8::from_str_radix` reads from `s` in base 16, or
/// `None` where it refuses `s`.
pub uninterp spec fn hex_u8(s: Seq<char>) -> Option<u8>;

/// `u64::from_str_radix` in base 16. The result depends on the text alone,
/// and [`hex_u64`] names it.
#[verifier::external_body]
pub(crate) fn u64_from_hex(s: &str) -> (res: Result<u64, ParseIntError>)
    ensures
        match res {
            Ok(v) => hex_u64(s@) == Some(v),
            Err(_) => hex_u64(s@) is None,
        },
{
    u64::from_str_radix(s, 16)
}

/// `u8::from_str_radix` in base 16. The result depends on the text alone,
/// and [`hex_u8`] names it.
#[verifier::external_body]
pub(crate) fn u8_from_hex(s: &str) -> (res: Result<u8, ParseIntError>)
    ensures
        match res {
            Ok(v) => hex_u8(s@) == Some(v),
            Err(_) => hex_u8(s@) is None,
        },
{
    u8::from_str_radix(s, 16)
}

} // verus!

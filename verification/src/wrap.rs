//! Counters that wrap around on overflow, as the dashboard's counters do in
//! a release build.
use vstd::prelude::*;
use vstd::arithmetic::div_mod::lemma_add_mod_noop_right;

verus! {

/// 2^64.
pub open spec fn u64_range() -> int {
    0x1_0000_0000_0000_0000
}

/// 2^32.
pub open spec fn u32_range() -> int {
    0x1_0000_0000
}

/// `n` reduced to 64 bits.
pub open spec fn wrap64(n: int) -> u64 {
    (n % u64_range()) as u64
}

/// `n` reduced to 32 bits.
pub open spec fn wrap32(n: int) -> u32 {
    (n % u32_range()) as u32
}

/// `a + b`, wrapping around at 2^64.
pub fn add64(a: u64, b: u64) -> (r: u64)
    ensures
        r == wrap64(a + b),
{
    a.wrapping_add(b)
}

/// `a + b`, wrapping around at 2^32.
pub fn add32(a: u32, b: u32) -> (r: u32)
    ensures
        r == wrap32(a + b),
{
    a.wrapping_add(b)
}

/// Reducing a partial sum first does not change the reduced total.
pub proof fn lemma_wrap64_assoc(x: int, y: int)
    ensures
        wrap64(y + wrap64(x) as int) == wrap64(y + x),
        wrap64(wrap64(x) as int + y) == wrap64(x + y),
{
    lemma_add_mod_noop_right(y, x, u64_range());
}

/// Reducing a partial sum first does not change the reduced total.
pub proof fn lemma_wrap32_assoc(x: int, y: int)
    ensures
        wrap32(wrap32(x) as int + y) == wrap32(x + y),
{
    lemma_add_mod_noop_right(y, x, u32_range());
}

} // verus!

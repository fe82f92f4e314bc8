use vstd::prelude::*;

verus! {

/// The zigzag code of a signed integer: non-negative values go to even
/// numbers, negative ones to odd numbers.
pub open spec fn zigzag(i: int) -> nat {
    if i >= 0 {
        (2 * i) as nat
    } else {
        (-2 * i - 1) as nat
    }
}

/// The signed integer that a zigzag code stands for.
pub open spec fn unzigzag(n: nat) -> int {
    if n % 2 == 0 {
        (n / 2) as int
    } else {
        -((n + 1) / 2)
    }
}

/// Decoding a zigzag code gives back the integer.
pub proof fn law_zigzag_roundtrip(i: int)
    ensures
        unzigzag(zigzag(i)) == i,
{
}

/// Encoding the integer that a code stands for gives back the code.
pub proof fn law_unzigzag_roundtrip(n: nat)
    ensures
        zigzag(unzigzag(n)) == n,
{
}

/// Zigzag-encodes a machine integer.
pub fn to_usize(x: isize) -> (r: usize)
    ensures
        r == zigzag(x as int),
{
    if x >= 0 {
        (x as usize) * 2
    } else {
        (-(x + 1)) as usize * 2 + 1
    }
}

/// Zigzag-encodes a 128-bit integer.
pub fn to_u128(x: i128) -> (r: u128)
    ensures
        r == zigzag(x as int),
{
    if x >= 0 {
        (x as u128) * 2
    } else {
        (-(x + 1)) as u128 * 2 + 1
    }
}

/// Decodes a zigzag code into a machine integer.
pub fn to_isize(n: usize) -> (r: isize)
    ensures
        r == unzigzag(n as nat),
{
    if n % 2 == 0 {
        (n / 2) as isize
    } else {
        -((n / 2) as isize) - 1
    }
}

/// Decodes a zigzag code into a 128-bit integer.
pub fn to_i128(n: u128) -> (r: i128)
    ensures
        r == unzigzag(n as nat),
{
    if n % 2 == 0 {
        (n / 2) as i128
    } else {
        -((n / 2) as i128) - 1
    }
}

} // verus!

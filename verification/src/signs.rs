//! Sign folding: a bijection between the signed and the unsigned integers of one
//! width that keeps small magnitudes small.
//!
//! ```text
//! -3 -> 5
//! -2 -> 3
//! -1 -> 1
//!  0 -> 0
//! +1 -> 2
//! +2 -> 4
//! +3 -> 6
//! ```

use vstd::prelude::*;

verus! {

/// The unsigned number that stands for the signed `n`: `2n` for `n >= 0`,
/// `2|n| - 1` for `n < 0`.
pub open spec fn fold(n: int) -> int {
    if n >= 0 {
        2 * n
    } else {
        -2 * n - 1
    }
}

/// The signed number that the unsigned `u` stands for: even numbers are the
/// non-negative ones, odd numbers the negative ones.
pub open spec fn unfold(u: int) -> int {
    if u % 2 == 0 {
        u / 2
    } else {
        -(u / 2) - 1
    }
}

/// Unfolding undoes folding, for every integer.
pub proof fn lemma_unfold_fold(n: int)
    ensures
        unfold(fold(n)) == n,
{
}

/// Folding undoes unfolding, for every non-negative integer.
pub proof fn lemma_fold_unfold(u: int)
    requires
        0 <= u,
    ensures
        fold(unfold(u)) == u,
{
}

/// Folding maps the signed integers of one width, `-half .. half`, into the
/// unsigned integers of that width, `0 .. 2 * half`. The minimum goes to the
/// largest of them and the maximum to the one before it.
pub proof fn lemma_fold_range(n: int, half: int)
    requires
        0 < half,
        -half <= n < half,
    ensures
        0 <= fold(n) < 2 * half,
        fold(n) == 2 * half - 1 <==> n == -half,
        fold(n) == 2 * half - 2 <==> n == half - 1,
{
}

/// Unfolding an unsigned integer below `2 * half` gives a signed integer in
/// `-half .. half`.
pub proof fn lemma_unfold_range(u: int, half: int)
    requires
        0 < half,
        0 <= u < 2 * half,
    ensures
        -half <= unfold(u) < half,
{
}

/// Folding never sends two numbers to one: it is injective.
pub proof fn lemma_fold_injective(a: int, b: int)
    requires
        fold(a) == fold(b),
    ensures
        a == b,
{
}

/// Folding keeps the order of magnitudes, and puts `-n` right before `+n`.
pub proof fn lemma_fold_orders_by_magnitude(n: int)
    requires
        n > 0,
    ensures
        fold(-n) + 1 == fold(n),
        fold(n) + 1 == fold(-(n + 1)),
{
}

/// Fold an `i16` onto the `u16`s.
pub fn signed2unsigned_16(number: i16) -> (folded: u16)
    ensures
        folded == fold(number as int),
{
    if number >= 0 {
        2 * (number as u16)
    } else {
        // Negating `number + 1` rather than `number` keeps the minimum in range.
        ((-(number + 1)) as u16) * 2 + 1
    }
}

/// Unfold a `u16` to the `i16` that it stands for.
pub fn unsigned2signed_16(number: u16) -> (unfolded: i16)
    ensures
        unfolded == unfold(number as int),
{
    let half = (number / 2) as i16;
    if number % 2 == 0 {
        half
    } else {
        (-half) - 1
    }
}

/// Fold an `i32` onto the `u32`s.
pub fn signed2unsigned_32(number: i32) -> (folded: u32)
    ensures
        folded == fold(number as int),
{
    if number >= 0 {
        2 * (number as u32)
    } else {
        ((-(number + 1)) as u32) * 2 + 1
    }
}

/// Unfold a `u32` to the `i32` that it stands for.
pub fn unsigned2signed_32(number: u32) -> (unfolded: i32)
    ensures
        unfolded == unfold(number as int),
{
    let half = (number / 2) as i32;
    if number % 2 == 0 {
        half
    } else {
        (-half) - 1
    }
}

/// Fold an `i64` onto the `u64`s.
pub fn signed2unsigned_64(number: i64) -> (folded: u64)
    ensures
        folded == fold(number as int),
{
    if number >= 0 {
        2 * (number as u64)
    } else {
        ((-(number + 1)) as u64) * 2 + 1
    }
}

/// Unfold a `u64` to the `i64` that it stands for.
pub fn unsigned2signed_64(number: u64) -> (unfolded: i64)
    ensures
        unfolded == unfold(number as int),
{
    let half = (number / 2) as i64;
    if number % 2 == 0 {
        half
    } else {
        (-half) - 1
    }
}

/// Fold an `i128` onto the `u128`s.
pub fn signed2unsigned_128(number: i128) -> (folded: u128)
    ensures
        folded == fold(number as int),
{
    if number >= 0 {
        2 * (number as u128)
    } else {
        ((-(number + 1)) as u128) * 2 + 1
    }
}

/// Unfold a `u128` to the `i128` that it stands for.
pub fn unsigned2signed_128(number: u128) -> (unfolded: i128)
    ensures
        unfolded == unfold(number as int),
{
    let half = (number / 2) as i128;
    if number % 2 == 0 {
        half
    } else {
        (-half) - 1
    }
}

/// Map a signed integer to an unsigned one, in a way that
/// * is bijective (reversible),
/// * preserves the order of absolute values,
/// * puts -x right before +x (there is one more negative number).
pub fn signed2unsigned(number: i64) -> (folded: u64)
    ensures
        folded == fold(number as int),
{
    signed2unsigned_64(number)
}

/// Inverse of `signed2unsigned`.
pub fn unsigned2signed(number: u64) -> (unfolded: i64)
    ensures
        unfolded == unfold(number as int),
{
    unsigned2signed_64(number)
}

} // verus!

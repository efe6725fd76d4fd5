//! Bijective base-N numeration on digit sequences.
//!
//! A digit sequence is a `Seq<nat>`, most significant digit first, each digit
//! below the base. Unlike positional notation there is no zero to pad with:
//! every non-empty digit sequence stands for exactly one natural number, and
//! every natural number has exactly one digit sequence.

use vstd::arithmetic::power::{lemma_pow_positive, pow};
use vstd::prelude::*;

verus! {

/// Whether every digit lies below `base`.
pub open spec fn digits_below(digits: Seq<nat>, base: nat) -> bool {
    forall|i: int| 0 <= i < digits.len() ==> #[trigger] digits[i] < base
}

/// The weight of a digit sequence: each digit `d` at distance `k` from the end
/// adds `(d + 1) * base^k`. The empty sequence weighs nothing.
pub open spec fn weight(digits: Seq<nat>, base: nat) -> nat
    decreases digits.len(),
{
    if digits.len() == 0 {
        0
    } else {
        weight(digits.drop_last(), base) * base + digits.last() + 1
    }
}

/// The number that a non-empty digit sequence stands for: one less than its
/// weight, so that the single digit `0` stands for zero.
pub open spec fn number_of(digits: Seq<nat>, base: nat) -> nat
    recommends
        digits.len() > 0,
{
    (weight(digits, base) - 1) as nat
}

/// The digit sequence of `n`: the last digit is `n % base`, and what is left,
/// less one, gives the digits before it.
pub open spec fn digits_of(n: nat, base: nat) -> Seq<nat>
    decreases n,
    via digits_of_decreases
{
    if base == 0 || n < base {
        seq![n]
    } else {
        digits_of((n / base - 1) as nat, base).push(n % base)
    }
}

#[via_fn]
proof fn digits_of_decreases(n: nat, base: nat) {
    if !(base == 0 || n < base) {
        lemma_quotient(n, base);
    }
}

/// For `n >= base >= 1` the quotient `n / base` is at least 1 and at most `n`.
pub proof fn lemma_quotient(n: nat, base: nat)
    requires
        1 <= base <= n,
    ensures
        1 <= n / base <= n,
        n == (n / base) * base + n % base,
        0 <= n % base < base,
{
    assert(1 <= n / base <= n && n == (n / base) * base + n % base && 0 <= n % base < base)
        by (nonlinear_arith)
        requires
            1 <= base <= n,
    ;
}

/// Dividing `q * base + r` by `base` gives back `q` and `r`.
pub proof fn lemma_div_mod_of_sum(q: nat, r: nat, base: nat)
    requires
        r < base,
    ensures
        (q * base + r) / base == q,
        (q * base + r) % base == r,
{
    vstd::arithmetic::div_mod::lemma_fundamental_div_mod_converse(
        (q * base + r) as int,
        base as int,
        q as int,
        r as int,
    );
}

/// The digit sequence of a number is never empty, and its digits lie below the
/// base.
pub proof fn lemma_digits_of_well_formed(n: nat, base: nat)
    requires
        base >= 1,
    ensures
        digits_of(n, base).len() >= 1,
        digits_below(digits_of(n, base), base),
    decreases n,
{
    if n >= base {
        lemma_quotient(n, base);
        lemma_digits_of_well_formed((n / base - 1) as nat, base);
    }
}

/// A non-empty digit sequence weighs at least 1.
pub proof fn lemma_weight_positive(digits: Seq<nat>, base: nat)
    requires
        digits.len() > 0,
    ensures
        weight(digits, base) >= 1,
{
}

/// Reading the digits of `n` gives `n` back.
pub proof fn lemma_number_of_digits_of(n: nat, base: nat)
    requires
        base >= 1,
    ensures
        number_of(digits_of(n, base), base) == n,
    decreases n,
{
    if n < base {
        let d = seq![n];
        assert(d.drop_last().len() == 0);
        assert(weight(d, base) == weight(d.drop_last(), base) * base + d.last() + 1);
        assert(weight(d.drop_last(), base) == 0);
        assert(weight(d.drop_last(), base) * base == 0) by (nonlinear_arith)
            requires
                weight(d.drop_last(), base) == 0,
        ;
    } else {
        lemma_quotient(n, base);
        let q = (n / base - 1) as nat;
        let front = digits_of(q, base);
        let all = front.push(n % base);
        lemma_number_of_digits_of(q, base);
        lemma_digits_of_well_formed(q, base);
        lemma_weight_positive(front, base);
        assert(all.drop_last() =~= front);
        assert(all.last() == n % base);
        assert(weight(all, base) == weight(front, base) * base + n % base + 1);
        assert(weight(front, base) == n / base);
    }
}

/// Writing the number of a digit sequence gives the digits back: no second
/// sequence stands for the same number, with or without leading digits.
pub proof fn lemma_digits_of_number_of(digits: Seq<nat>, base: nat)
    requires
        base >= 1,
        digits.len() >= 1,
        digits_below(digits, base),
    ensures
        digits_of(number_of(digits, base), base) == digits,
    decreases digits.len(),
{
    let front = digits.drop_last();
    let last = digits.last();
    assert(last < base);
    if digits.len() == 1 {
        assert(weight(front, base) == 0);
        assert(weight(front, base) * base == 0) by (nonlinear_arith)
            requires
                weight(front, base) == 0,
        ;
        assert(number_of(digits, base) == last);
        assert(digits =~= seq![last]);
    } else {
        assert(digits_below(front, base));
        lemma_digits_of_number_of(front, base);
        lemma_weight_positive(front, base);
        let w = weight(front, base);
        let n = number_of(digits, base);
        assert(n == w * base + last);
        lemma_div_mod_of_sum(w, last, base);
        assert(w * base >= base) by (nonlinear_arith)
            requires
                w >= 1,
                base >= 1,
        ;
        assert(n >= base);
        assert((n / base - 1) as nat == number_of(front, base));
        assert(digits =~= front.push(last));
    }
}

/// Two numbers with the same digit sequence are the same number.
pub proof fn lemma_digits_of_injective(a: nat, b: nat, base: nat)
    requires
        base >= 1,
        digits_of(a, base) == digits_of(b, base),
    ensures
        a == b,
{
    lemma_number_of_digits_of(a, base);
    lemma_number_of_digits_of(b, base);
}

/// Two well-formed digit sequences that stand for the same number are the same
/// sequence.
pub proof fn lemma_number_of_injective(a: Seq<nat>, b: Seq<nat>, base: nat)
    requires
        base >= 1,
        a.len() >= 1,
        b.len() >= 1,
        digits_below(a, base),
        digits_below(b, base),
        number_of(a, base) == number_of(b, base),
    ensures
        a == b,
{
    lemma_digits_of_number_of(a, base);
    lemma_digits_of_number_of(b, base);
}

/// Digits in front of a sequence weigh in by the power of the base that
/// their distance from the end gives them.
pub proof fn lemma_weight_concat(front: Seq<nat>, back: Seq<nat>, base: nat)
    ensures
        weight(front + back, base) == weight(front, base) * pow(base as int, back.len()) + weight(
            back,
            base,
        ),
    decreases back.len(),
{
    reveal(pow);
    let all = front + back;
    if back.len() == 0 {
        assert(all =~= front);
        assert(pow(base as int, 0) == 1);
    } else {
        let shorter = back.drop_last();
        assert(all.drop_last() =~= front + shorter);
        assert(all.last() == back.last());
        lemma_weight_concat(front, shorter, base);
        let w = weight(front, base) as int;
        let p = pow(base as int, shorter.len());
        let v = weight(shorter, base) as int;
        assert(pow(base as int, back.len()) == base * p);
        assert((w * p + v) * base == w * (base * p) + v * base) by (nonlinear_arith);
    }
}

/// A single digit weighs one more than itself.
pub proof fn lemma_weight_single(digit: nat, base: nat)
    ensures
        weight(seq![digit], base) == digit + 1,
{
    let d = seq![digit];
    assert(d.drop_last().len() == 0);
    assert(weight(d.drop_last(), base) == 0);
    assert(weight(d.drop_last(), base) * base == 0) by (nonlinear_arith)
        requires
            weight(d.drop_last(), base) == 0,
    ;
}

/// Putting digits in front of a sequence never makes it weigh less.
pub proof fn lemma_weight_grows_leftwards(front: Seq<nat>, back: Seq<nat>, base: nat)
    ensures
        weight(front + back, base) >= weight(back, base),
{
    lemma_weight_concat(front, back, base);
    let w = weight(front, base) as int;
    let p = pow(base as int, back.len());
    if base > 0 {
        lemma_pow_positive(base as int, back.len());
    } else {
        reveal(pow);
        assert(p >= 0) by {
            if back.len() > 0 {
                assert(p == base * pow(base as int, (back.len() - 1) as nat));
                assert(base * pow(base as int, (back.len() - 1) as nat) == 0) by (nonlinear_arith)
                    requires
                        base == 0,
                ;
            }
        }
    }
    assert(w * p >= 0) by (nonlinear_arith)
        requires
            w >= 0,
            p >= 0,
    ;
}

} // verus!

//! Decimal-digit arithmetic for ticket identifiers.
//!
//! A ticket identifier is a value below one million whose six decimal digits,
//! leading zeros included, are pairwise distinct. This module defines that
//! notion and proves the lemmas used while such a value is accumulated one
//! digit at a time, together with a counter for the digit-occupancy table
//! that the accumulation keeps.

use vstd::prelude::*;

verus! {

/// Ten raised to the power `e`.
pub open spec fn pow10(e: nat) -> nat
    decreases e,
{
    if e == 0 {
        1
    } else {
        10 * pow10((e - 1) as nat)
    }
}

/// The decimal digit of `n` at position `p`; position 0 is the least
/// significant digit.
pub open spec fn nth_digit(n: nat, p: nat) -> nat {
    (n / pow10(p)) % 10
}

/// `n` is a well-formed ticket identifier: it fits in six decimal digits and
/// those six digits, leading zeros included, are pairwise distinct.
pub open spec fn has_distinct_digits(n: nat) -> bool {
    &&& n < pow10(6)
    &&& forall|p: int, q: int|
        0 <= p < q < 6 ==> #[trigger] nth_digit(n, p as nat) != #[trigger] nth_digit(n, q as nat)
}

/// The number of `true` entries in a boolean sequence.
pub open spec fn count_trues(s: Seq<bool>) -> nat
    decreases s.len(),
{
    if s.len() == 0 {
        0
    } else {
        count_trues(s.drop_last()) + (if s.last() {
            1nat
        } else {
            0nat
        })
    }
}

pub proof fn lemma_pow10_positive(e: nat)
    ensures
        pow10(e) >= 1,
    decreases e,
{
    if e > 0 {
        lemma_pow10_positive((e - 1) as nat);
    }
}

/// The concrete powers of ten up to the width of a ticket identifier.
pub proof fn lemma_pow10_values()
    ensures
        pow10(0) == 1,
        pow10(1) == 10,
        pow10(2) == 100,
        pow10(3) == 1000,
        pow10(4) == 10000,
        pow10(5) == 100000,
        pow10(6) == 1000000,
{
    assert(pow10(0) == 1);
    assert(pow10(1) == 10);
    assert(pow10(2) == 100);
    assert(pow10(3) == 1000);
    assert(pow10(4) == 10000);
    assert(pow10(5) == 100000);
    assert(pow10(6) == 1000000);
}

pub proof fn lemma_pow10_increases(a: nat, b: nat)
    requires
        a <= b,
    ensures
        pow10(a) <= pow10(b),
    decreases b,
{
    if a < b {
        lemma_pow10_increases(a, (b - 1) as nat);
        lemma_pow10_positive((b - 1) as nat);
    }
}

/// Appending the digit `d` to `n` leaves `d` in the lowest position and `n`
/// in the quotient.
pub proof fn lemma_append_digit(n: nat, d: nat)
    requires
        d < 10,
    ensures
        (n * 10 + d) % 10 == d,
        (n * 10 + d) / 10 == n,
{
    vstd::arithmetic::div_mod::lemma_fundamental_div_mod_converse(
        (n * 10 + d) as int,
        10,
        n as int,
        d as int,
    );
}

/// Appending the digit `d` to `n` shifts every digit of `n` up one position.
pub proof fn lemma_digit_shift(n: nat, d: nat, p: nat)
    requires
        d < 10,
    ensures
        nth_digit(n * 10 + d, (p + 1) as nat) == nth_digit(n, p),
{
    lemma_pow10_positive(p);
    lemma_append_digit(n, d);
    assert(pow10((p + 1) as nat) == 10 * pow10(p));
    vstd::arithmetic::div_mod::lemma_div_denominator(
        (n * 10 + d) as int,
        10,
        pow10(p) as int,
    );
}

/// The digit appended last is the digit at position 0.
pub proof fn lemma_digit_low(n: nat, d: nat)
    requires
        d < 10,
    ensures
        nth_digit(n * 10 + d, 0) == d,
{
    lemma_append_digit(n, d);
    assert(pow10(0) == 1);
    assert((n * 10 + d) / 1 == n * 10 + d);
}

/// Marking a previously unmarked entry raises the count by one.
pub proof fn lemma_count_update_true(s: Seq<bool>, k: int)
    requires
        0 <= k < s.len(),
        !s[k],
    ensures
        count_trues(s.update(k, true)) == count_trues(s) + 1,
    decreases s.len(),
{
    let t = s.update(k, true);
    if k == s.len() - 1 {
        assert(t.drop_last() =~= s.drop_last());
        assert(t.last());
        assert(!s.last());
    } else {
        assert(t.drop_last() =~= s.drop_last().update(k, true));
        assert(t.last() == s.last());
        lemma_count_update_true(s.drop_last(), k);
    }
}

/// A sequence with no `true` entry has count zero.
pub proof fn lemma_count_all_false(s: Seq<bool>)
    requires
        forall|j: int| 0 <= j < s.len() ==> !s[j],
    ensures
        count_trues(s) == 0,
    decreases s.len(),
{
    if s.len() > 0 {
        lemma_count_all_false(s.drop_last());
    }
}

/// A sequence with every entry `true` has count equal to its length.
pub proof fn lemma_count_all_true(s: Seq<bool>)
    requires
        forall|j: int| 0 <= j < s.len() ==> s[j],
    ensures
        count_trues(s) == s.len(),
    decreases s.len(),
{
    if s.len() > 0 {
        lemma_count_all_true(s.drop_last());
    }
}

} // verus!

//! The mathematical model of the digit codec: what the digit sequence of an
//! integer is, what value a digit sequence accumulates to, and the laws that
//! make the two operations inverses of each other.

use vstd::prelude::*;

verus! {

/// The base-ten digits of a nonnegative integer, most significant first.
/// Zero has no digits.
pub open spec fn mag_digits(n: int) -> Seq<int>
    decreases n,
{
    if n <= 0 {
        Seq::empty()
    } else {
        mag_digits(n / 10).push(n % 10)
    }
}

/// Negation applied to every element of a sequence.
pub open spec fn negated(s: Seq<int>) -> Seq<int> {
    s.map_values(|d: int| -d)
}

/// The base-ten digits of `n`, most significant first, each digit carrying
/// the sign of `n`. The digits of zero are the empty sequence.
pub open spec fn digits_of(n: int) -> Seq<int> {
    if n >= 0 {
        mag_digits(n)
    } else {
        negated(mag_digits(-n))
    }
}

/// Division by ten truncated toward zero, as the machine's signed division
/// behaves.
pub open spec fn tdiv10(n: int) -> int {
    if n >= 0 {
        n / 10
    } else {
        -((-n) / 10)
    }
}

/// Remainder of division by ten truncated toward zero: it has the sign of `n`.
pub open spec fn tmod10(n: int) -> int {
    if n >= 0 {
        n % 10
    } else {
        -((-n) % 10)
    }
}

/// Positional accumulation over a digit sequence: starting from zero, each
/// step multiplies the sum by the base and adds the next digit.
pub open spec fn radix_fold(s: Seq<int>, base: int) -> int
    decreases s.len(),
{
    if s.len() == 0 {
        0
    } else {
        radix_fold(s.drop_last(), base) * base + s.last()
    }
}

/// The number a digit sequence stands for in base ten.
pub open spec fn recomposed(s: Seq<int>) -> int {
    radix_fold(s, 10)
}

/// Accumulating the digits of a nonnegative integer gives the integer back.
pub proof fn lemma_mag_round_trip(n: int)
    requires
        n >= 0,
    ensures
        radix_fold(mag_digits(n), 10) == n,
    decreases n,
{
    if n > 0 {
        lemma_mag_round_trip(n / 10);
        assert(mag_digits(n / 10).push(n % 10).drop_last() =~= mag_digits(n / 10));
    }
}

/// Negating every digit negates the accumulated value, in any base.
pub proof fn lemma_fold_negated(s: Seq<int>, base: int)
    ensures
        radix_fold(negated(s), base) == -radix_fold(s, base),
    decreases s.len(),
{
    if s.len() > 0 {
        lemma_fold_negated(s.drop_last(), base);
        assert(negated(s).drop_last() =~= negated(s.drop_last()));
        assert(negated(s).last() == -s.last());
        let a = radix_fold(s.drop_last(), base);
        assert(radix_fold(negated(s), base) == (-a) * base + (-s.last()));
        assert((-a) * base == -(a * base)) by (nonlinear_arith);
    }
}

/// Round-trip law: accumulating the digit sequence of any integer, in base
/// ten, gives that integer back.
pub proof fn lemma_round_trip(n: int)
    ensures
        recomposed(digits_of(n)) == n,
{
    if n >= 0 {
        lemma_mag_round_trip(n);
    } else {
        lemma_mag_round_trip(-n);
        lemma_fold_negated(mag_digits(-n), 10);
    }
}

/// Zero law: zero decomposes to the empty sequence, and the empty sequence
/// accumulates to zero.
pub proof fn lemma_zero()
    ensures
        digits_of(0) == Seq::<int>::empty(),
        recomposed(Seq::<int>::empty()) == 0,
{
}

/// Every digit of a nonnegative integer lies between zero and nine.
pub proof fn lemma_mag_digit_range(n: int)
    requires
        n >= 0,
    ensures
        forall|i: int|
            0 <= i < mag_digits(n).len() ==> 0 <= #[trigger] mag_digits(n)[i] <= 9,
    decreases n,
{
    if n > 0 {
        lemma_mag_digit_range(n / 10);
        assert forall|i: int|
            0 <= i < mag_digits(n).len() implies 0 <= #[trigger] mag_digits(n)[i] <= 9 by {
            if i < mag_digits(n).len() - 1 {
                assert(mag_digits(n)[i] == mag_digits(n / 10)[i]);
            }
        }
    }
}

/// Sign-uniformity law: every digit of a nonnegative integer lies in
/// `[0, 9]`, and every digit of a negative integer lies in `[-9, 0]`.
pub proof fn lemma_digit_signs(n: int)
    ensures
        n >= 0 ==> forall|i: int|
            0 <= i < digits_of(n).len() ==> 0 <= #[trigger] digits_of(n)[i] <= 9,
        n < 0 ==> forall|i: int|
            0 <= i < digits_of(n).len() ==> -9 <= #[trigger] digits_of(n)[i] <= 0,
{
    if n >= 0 {
        lemma_mag_digit_range(n);
    } else {
        lemma_mag_digit_range(-n);
        assert forall|i: int|
            0 <= i < digits_of(n).len() implies -9 <= #[trigger] digits_of(n)[i] <= 0 by {
            assert(digits_of(n)[i] == -mag_digits(-n)[i]);
        }
    }
}

/// The leading digit of a positive integer is between one and nine.
pub proof fn lemma_mag_leading_digit(n: int)
    requires
        n > 0,
    ensures
        mag_digits(n).len() > 0,
        1 <= mag_digits(n).first() <= 9,
    decreases n,
{
    if n / 10 == 0 {
        reveal_with_fuel(mag_digits, 2);
        assert(mag_digits(n) =~= Seq::<int>::empty().push(n % 10));
    } else {
        lemma_mag_leading_digit(n / 10);
        assert(mag_digits(n).first() == mag_digits(n / 10).first());
    }
}

/// Ordering law: digits come most significant first. The last digit of a
/// nonzero integer is its truncating remainder by ten, what comes before it
/// is the digit sequence of its truncating quotient by ten, and the digit in
/// front is never zero.
pub proof fn lemma_most_significant_first(n: int)
    requires
        n != 0,
    ensures
        digits_of(n).len() > 0,
        digits_of(n).last() == tmod10(n),
        digits_of(n).drop_last() == digits_of(tdiv10(n)),
        digits_of(n).first() != 0,
{
    if n > 0 {
        lemma_mag_leading_digit(n);
        assert(mag_digits(n).drop_last() =~= mag_digits(n / 10));
    } else {
        lemma_mag_leading_digit(-n);
        assert(digits_of(n).last() == -mag_digits(-n).last());
        assert(digits_of(n).first() == -mag_digits(-n).first());
        assert(digits_of(n).drop_last() =~= negated(mag_digits(-n).drop_last()));
        assert(mag_digits(-n).drop_last() =~= mag_digits((-n) / 10));
        if (-n) / 10 == 0 {
            assert(digits_of(tdiv10(n)) =~= negated(mag_digits((-n) / 10)));
        }
    }
}

/// Accumulating a prefix of the digits of a nonnegative integer gives a value
/// between zero and that integer.
pub proof fn lemma_mag_prefix_bounds(n: int, k: int)
    requires
        n >= 0,
        0 <= k <= mag_digits(n).len(),
    ensures
        0 <= radix_fold(mag_digits(n).subrange(0, k), 10) <= n,
    decreases n,
{
    if n > 0 {
        if k == mag_digits(n).len() {
            assert(mag_digits(n).subrange(0, k) =~= mag_digits(n));
            lemma_mag_round_trip(n);
        } else {
            assert(mag_digits(n).subrange(0, k) =~= mag_digits(n / 10).subrange(0, k));
            lemma_mag_prefix_bounds(n / 10, k);
        }
    } else {
        assert(mag_digits(n).subrange(0, 0) =~= Seq::<int>::empty());
    }
}

/// Every prefix of the digit sequence of `n` accumulates to a value between
/// zero and `n`; the intermediate sums of recomposition never leave that
/// range.
pub proof fn lemma_prefix_in_range(n: int, k: int)
    requires
        0 <= k <= digits_of(n).len(),
    ensures
        n >= 0 ==> 0 <= radix_fold(digits_of(n).subrange(0, k), 10) <= n,
        n < 0 ==> n <= radix_fold(digits_of(n).subrange(0, k), 10) <= 0,
{
    if n >= 0 {
        lemma_mag_prefix_bounds(n, k);
    } else {
        lemma_mag_prefix_bounds(-n, k);
        assert(digits_of(n).subrange(0, k) =~= negated(mag_digits(-n).subrange(0, k)));
        lemma_fold_negated(mag_digits(-n).subrange(0, k), 10);
    }
}

} // verus!

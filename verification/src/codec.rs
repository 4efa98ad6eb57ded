//! The executable codec: decomposition of an integer into its decimal digits
//! and recomposition of a digit sequence into an integer, written once and
//! shared by every supported integer width through small conversion traits.

use vstd::prelude::*;

use crate::digits::digits_of;
use crate::digits::mag_digits;
use crate::digits::negated;
use crate::digits::radix_fold;
use crate::digits::recomposed;

verus! {

/// The elements of a digit vector, as mathematical integers.
pub open spec fn digit_ints(s: Seq<i8>) -> Seq<int> {
    s.map_values(|d: i8| d as int)
}

/// `s` with every element negated when `neg` holds, `s` itself otherwise.
pub open spec fn sign_adjusted(s: Seq<int>, neg: bool) -> Seq<int> {
    if neg {
        negated(s)
    } else {
        s
    }
}

/// Decomposition shared by every width: peel base-ten digits off the wide
/// signed value, prepending each, so that the most significant digit ends up
/// first; for a negative number every digit is stored negated.
#[verifier::loop_isolation(false)]
fn decompose_wide(n: i128) -> (r: Vec<i8>)
    requires
        n != i128::MIN,
    ensures
        digit_ints(r@) == digits_of(n as int),
{
    let neg: bool = n < 0;
    let mut m: u128 = if neg {
        (-n) as u128
    } else {
        n as u128
    };
    let mut out: Vec<i8> = Vec::new();
    proof {
        assert(digit_ints(out@) =~= Seq::<int>::empty());
        assert(sign_adjusted(mag_digits(m as int), neg) + digit_ints(out@) =~= digits_of(
            n as int,
        ));
    }
    while m != 0
        invariant
            sign_adjusted(mag_digits(m as int), neg) + digit_ints(out@) == digits_of(n as int),
        decreases m,
    {
        let d: i8 = (m % 10) as i8;
        let signed_digit: i8 = if neg {
            -d
        } else {
            d
        };
        proof {
            let ghost prev = out@;
            let ghost md = m as int;
            assert(mag_digits(md) == mag_digits(md / 10).push(md % 10));
            assert(sign_adjusted(mag_digits(md / 10), neg).push(signed_digit as int)
                =~= sign_adjusted(mag_digits(md), neg));
            assert(digit_ints(prev.insert(0, signed_digit)) =~= seq![signed_digit as int]
                + digit_ints(prev));
            assert(sign_adjusted(mag_digits(md / 10), neg) + (seq![signed_digit as int]
                + digit_ints(prev)) =~= sign_adjusted(mag_digits(md), neg) + digit_ints(prev));
        }
        out.insert(0, signed_digit);
        m = m / 10;
    }
    proof {
        assert(sign_adjusted(mag_digits(0), neg) + digit_ints(out@) =~= digit_ints(out@));
    }
    out
}

/// An integer that can be taken apart into its decimal digits. A conforming
/// type says what integer a value stands for (`as_int`) and hands that value
/// over in the wide signed width (`to_wide`); the decomposition itself is
/// written once, in the provided `to_digits`.
pub trait ToDigits: Sized {
    /// The mathematical integer a value of this type stands for.
    spec fn as_int(&self) -> int;

    /// The value, widened without change into the wide signed width.
    fn to_wide(&self) -> (r: i128)
        ensures
            r as int == self.as_int(),
            r != i128::MIN,
    ;

    /// The base-ten digits of this value, most significant first, each digit
    /// carrying the value's sign; zero gives the empty vector.
    fn to_digits(&self) -> (r: Vec<i8>)
        ensures
            digit_ints(r@) == digits_of(self.as_int()),
    {
        decompose_wide(self.to_wide())
    }
}

impl ToDigits for i8 {
    open spec fn as_int(&self) -> int {
        *self as int
    }

    fn to_wide(&self) -> (r: i128)
        ensures
            r == *self as i128,
    {
        *self as i128
    }
}

impl ToDigits for i16 {
    open spec fn as_int(&self) -> int {
        *self as int
    }

    fn to_wide(&self) -> (r: i128)
        ensures
            r == *self as i128,
    {
        *self as i128
    }
}

impl ToDigits for i32 {
    open spec fn as_int(&self) -> int {
        *self as int
    }

    fn to_wide(&self) -> (r: i128)
        ensures
            r == *self as i128,
    {
        *self as i128
    }
}

impl ToDigits for i64 {
    open spec fn as_int(&self) -> int {
        *self as int
    }

    fn to_wide(&self) -> (r: i128)
        ensures
            r == *self as i128,
    {
        *self as i128
    }
}

impl ToDigits for isize {
    open spec fn as_int(&self) -> int {
        *self as int
    }

    fn to_wide(&self) -> (r: i128)
        ensures
            r == *self as i128,
    {
        *self as i128
    }
}

impl ToDigits for u8 {
    open spec fn as_int(&self) -> int {
        *self as int
    }

    fn to_wide(&self) -> (r: i128)
        ensures
            r == *self as i128,
    {
        *self as i128
    }
}

impl ToDigits for u16 {
    open spec fn as_int(&self) -> int {
        *self as int
    }

    fn to_wide(&self) -> (r: i128)
        ensures
            r == *self as i128,
    {
        *self as i128
    }
}

impl ToDigits for u32 {
    open spec fn as_int(&self) -> int {
        *self as int
    }

    fn to_wide(&self) -> (r: i128)
        ensures
            r == *self as i128,
    {
        *self as i128
    }
}

impl ToDigits for u64 {
    open spec fn as_int(&self) -> int {
        *self as int
    }

    fn to_wide(&self) -> (r: i128)
        ensures
            r == *self as i128,
    {
        *self as i128
    }
}

impl ToDigits for usize {
    open spec fn as_int(&self) -> int {
        *self as int
    }

    fn to_wide(&self) -> (r: i128)
        ensures
            r == *self as i128,
    {
        *self as i128
    }
}

/// Width-genericity law: decomposition depends only on the integer a value
/// stands for. Every implementation's `to_digits` is pinned to
/// `digits_of(self.as_int())`, so two values of any two supported widths that
/// stand for the same integer decompose to the same digit sequence.
pub proof fn lemma_width_uniform<A: ToDigits, B: ToDigits>(a: A, b: B)
    requires
        a.as_int() == b.as_int(),
    ensures
        digits_of(a.as_int()) == digits_of(b.as_int()),
{
}

/// A digit element type whose sequences can be accumulated back into a
/// number, in a caller-chosen base. A conforming type says what integer an
/// element stands for (`as_int`) and hands it over in the accumulator width
/// (`to_accum`); the accumulation itself is written once, in the provided
/// `from_iter_radix`.
pub trait FromIterRadix: Copy + Sized {
    /// The mathematical integer an element of this type stands for.
    spec fn as_int(self) -> int;

    /// The element, carried without change into the accumulator width.
    fn to_accum(self) -> (r: i64)
        requires
            i64::MIN <= self.as_int() <= i64::MAX,
        ensures
            r as int == self.as_int(),
    ;

    /// Accumulates `digits` left to right: the sum starts at zero and each
    /// step multiplies it by `base` and adds the digit. In base ten this is
    /// the inverse of decomposition. The accumulator is a 64-bit signed
    /// integer, so every intermediate sum must fit in it, and so must each
    /// element.
    #[verifier::loop_isolation(false)]
    fn from_iter_radix(digits: &[Self], base: i64) -> (r: i64)
        requires
            forall|i: int|
                0 <= i < digits@.len() ==> i64::MIN <= (#[trigger] digits@[i]).as_int()
                    <= i64::MAX,
            forall|k: int|
                0 <= k <= digits@.len() ==> i64::MIN <= radix_fold(
                    (#[trigger] digits@.subrange(0, k)).map_values(|d: Self| d.as_int()),
                    base as int,
                ) <= i64::MAX,
        ensures
            r as int == radix_fold(digits@.map_values(|d: Self| d.as_int()), base as int),
    {
        let ghost s = digits@.map_values(|d: Self| d.as_int());
        let mut sum: i64 = 0;
        let mut i: usize = 0;
        proof {
            assert(s.subrange(0, 0) =~= Seq::<int>::empty());
        }
        while i < digits.len()
            invariant
                0 <= i <= digits@.len(),
                sum as int == radix_fold(s.subrange(0, i as int), base as int),
            decreases digits@.len() - i,
        {
            let d: i64 = digits[i].to_accum();
            proof {
                assert(s.subrange(0, i + 1).drop_last() =~= s.subrange(0, i as int));
                assert(s.subrange(0, i + 1).last() == d as int);
                assert(digits@.subrange(0, i + 1).map_values(|e: Self| e.as_int()) =~= s.subrange(
                    0,
                    i + 1,
                ));
                assert(i64::MIN <= radix_fold(s.subrange(0, i + 1), base as int) <= i64::MAX);
            }
            let wide: i128 = sum as i128 * base as i128 + d as i128;
            proof {
                assert(sum as i128 * base as i128 == (sum as int) * (base as int));
                assert(wide as int == radix_fold(s.subrange(0, i + 1), base as int));
            }
            sum = wide as i64;
            i = i + 1;
        }
        proof {
            assert(s.subrange(0, s.len() as int) =~= s);
        }
        sum
    }
}

/// The digit elements of a sequence, as mathematical integers, through a
/// conforming element type.
pub open spec fn elem_ints<N: FromIterRadix>(s: Seq<N>) -> Seq<int> {
    s.map_values(|d: N| d.as_int())
}

impl FromIterRadix for i8 {
    open spec fn as_int(self) -> int {
        self as int
    }

    fn to_accum(self) -> (r: i64)
        ensures
            r == self as i64,
    {
        self as i64
    }
}

impl FromIterRadix for i16 {
    open spec fn as_int(self) -> int {
        self as int
    }

    fn to_accum(self) -> (r: i64)
        ensures
            r == self as i64,
    {
        self as i64
    }
}

impl FromIterRadix for i32 {
    open spec fn as_int(self) -> int {
        self as int
    }

    fn to_accum(self) -> (r: i64)
        ensures
            r == self as i64,
    {
        self as i64
    }
}

impl FromIterRadix for i64 {
    open spec fn as_int(self) -> int {
        self as int
    }

    fn to_accum(self) -> (r: i64)
        ensures
            r == self,
    {
        self
    }
}

impl FromIterRadix for isize {
    open spec fn as_int(self) -> int {
        self as int
    }

    fn to_accum(self) -> (r: i64)
        ensures
            r == self as i64,
    {
        self as i64
    }
}

impl FromIterRadix for u8 {
    open spec fn as_int(self) -> int {
        self as int
    }

    fn to_accum(self) -> (r: i64)
        ensures
            r == self as i64,
    {
        self as i64
    }
}

impl FromIterRadix for u16 {
    open spec fn as_int(self) -> int {
        self as int
    }

    fn to_accum(self) -> (r: i64)
        ensures
            r == self as i64,
    {
        self as i64
    }
}

impl FromIterRadix for u32 {
    open spec fn as_int(self) -> int {
        self as int
    }

    fn to_accum(self) -> (r: i64)
        ensures
            r == self as i64,
    {
        self as i64
    }
}

impl FromIterRadix for u64 {
    open spec fn as_int(self) -> int {
        self as int
    }

    fn to_accum(self) -> (r: i64)
        ensures
            r == self as i64,
    {
        self as i64
    }
}

impl FromIterRadix for usize {
    open spec fn as_int(self) -> int {
        self as int
    }

    fn to_accum(self) -> (r: i64)
        ensures
            r == self as i64,
    {
        self as i64
    }
}

/// A container of digit elements that can be accumulated back into the number
/// it spells in base ten. Implemented for vectors of every conforming element
/// type.
pub trait FromDigits<N: FromIterRadix>: Sized {
    /// The digit elements held, as mathematical integers, most significant
    /// first.
    spec fn digit_seq(&self) -> Seq<int>;

    /// The number the held digits spell in base ten. It is the inverse of
    /// decomposition: digits produced by `to_digits` give the decomposed
    /// value back. The accumulator is a 64-bit signed integer, so every
    /// intermediate sum must fit in it, and so must each element.
    fn from_digits(self) -> (r: i64)
        requires
            forall|i: int|
                0 <= i < self.digit_seq().len() ==> i64::MIN <= #[trigger] self.digit_seq()[i]
                    <= i64::MAX,
            forall|k: int|
                0 <= k <= self.digit_seq().len() ==> i64::MIN <= #[trigger] recomposed(
                    self.digit_seq().subrange(0, k),
                ) <= i64::MAX,
        ensures
            r as int == recomposed(self.digit_seq()),
    ;
}

impl<N: FromIterRadix> FromDigits<N> for Vec<N> {
    open spec fn digit_seq(&self) -> Seq<int> {
        elem_ints(self@)
    }

    fn from_digits(self) -> (r: i64) {
        proof {
            assert forall|i: int| 0 <= i < self@.len() implies i64::MIN <= (
            #[trigger] self@[i]).as_int() <= i64::MAX by {
                assert(self.digit_seq()[i] == self@[i].as_int());
            }
            assert forall|k: int| 0 <= k <= self@.len() implies i64::MIN <= radix_fold(
                (#[trigger] self@.subrange(0, k)).map_values(|d: N| d.as_int()),
                10int,
            ) <= i64::MAX by {
                assert(self@.subrange(0, k).map_values(|d: N| d.as_int())
                    =~= self.digit_seq().subrange(0, k));
                assert(i64::MIN <= recomposed(self.digit_seq().subrange(0, k)) <= i64::MAX);
            }
        }
        let r = N::from_iter_radix(self.as_slice(), 10);
        proof {
            assert(self@.map_values(|d: N| d.as_int()) =~= self.digit_seq());
        }
        r
    }
}

} // verus!

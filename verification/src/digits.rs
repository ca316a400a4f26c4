//! Strings of decimal digits read as natural numbers.

use vstd::prelude::*;
use vstd::arithmetic::power::*;
use vstd::arithmetic::mul::*;

verus! {

pub open spec fn is_digit(c: char) -> bool {
    '0' <= c <= '9'
}

/// The value of a digit; zero for any other character.
pub open spec fn digit_of(c: char) -> nat {
    if is_digit(c) {
        (c as int - '0' as int) as nat
    } else {
        0
    }
}

/// The characters that a string of ASCII bytes spells.
pub open spec fn text_of(bytes: Seq<u8>) -> Seq<char> {
    Seq::new(bytes.len(), |i: int| bytes[i] as char)
}

/// Whether every byte is an ASCII digit.
pub open spec fn all_digits(bytes: Seq<u8>) -> bool {
    forall|i: int| 0 <= i < bytes.len() ==> 48 <= #[trigger] bytes[i] <= 57
}

/// The number that a string of digits denotes, most significant digit first.
pub open spec fn number_of(digits: Seq<char>) -> nat
    decreases digits.len(),
{
    if digits.len() == 0 {
        0
    } else {
        number_of(digits.drop_last()) * 10 + digit_of(digits.last())
    }
}

/// The digit at position `at`, or zero past the end of the string.
pub open spec fn digit_at(digits: Seq<char>, at: int) -> nat {
    if 0 <= at < digits.len() {
        digit_of(digits[at])
    } else {
        0
    }
}

/// The number made of the first `count` digits, the string being continued
/// with zeros where it is shorter.
pub open spec fn lead(digits: Seq<char>, count: nat) -> nat {
    if count <= digits.len() {
        number_of(digits.subrange(0, count as int))
    } else {
        number_of(digits) * pow(10, (count - digits.len()) as nat) as nat
    }
}

pub proof fn lemma_number_of_push(digits: Seq<char>, c: char)
    ensures
        number_of(digits.push(c)) == number_of(digits) * 10 + digit_of(c),
{
    assert(digits.push(c).drop_last() =~= digits);
}

pub proof fn lemma_number_of_concat(high: Seq<char>, low: Seq<char>)
    ensures
        number_of(high + low) == number_of(high) * pow(10, low.len()) + number_of(low),
    decreases low.len(),
{
    if low.len() == 0 {
        assert(high + low =~= high);
        lemma_pow0(10);
    } else {
        let shorter = low.drop_last();
        assert((high + low).drop_last() =~= high + shorter);
        assert((high + low).last() == low.last());
        lemma_number_of_concat(high, shorter);
        reveal(pow);
        assert(pow(10, low.len()) == 10 * pow(10, shorter.len()));
        assert(number_of(high) * pow(10, low.len()) == number_of(high) * pow(10, shorter.len())
            * 10) by (nonlinear_arith)
            requires
                pow(10, low.len()) == 10 * pow(10, shorter.len()),
        ;
    }
}

pub proof fn lemma_number_of_below(digits: Seq<char>)
    ensures
        number_of(digits) < pow(10, digits.len()),
    decreases digits.len(),
{
    reveal(pow);
    if digits.len() > 0 {
        lemma_number_of_below(digits.drop_last());
        assert(pow(10, digits.len()) == 10 * pow(10, digits.drop_last().len()));
    }
}

pub proof fn lemma_number_of_above(digits: Seq<char>)
    requires
        digits.len() > 0,
        digit_of(digits[0]) >= 1,
    ensures
        number_of(digits) >= pow(10, (digits.len() - 1) as nat),
    decreases digits.len(),
{
    reveal(pow);
    if digits.len() == 1 {
        assert(digits.drop_last().len() == 0);
        assert(pow(10, 0) == 1);
    } else {
        lemma_number_of_above(digits.drop_last());
        assert(pow(10, (digits.len() - 1) as nat) == 10 * pow(10, (digits.len() - 2) as nat));
    }
}

pub proof fn lemma_lead_step(digits: Seq<char>, count: nat)
    ensures
        lead(digits, count + 1) == lead(digits, count) * 10 + digit_at(digits, count as int),
{
    if count < digits.len() {
        let longer = digits.subrange(0, count + 1 as int);
        assert(longer.drop_last() =~= digits.subrange(0, count as int));
        assert(longer.last() == digits[count as int]);
    } else {
        reveal(pow);
        let over = (count - digits.len()) as nat;
        assert(pow(10, over + 1) == 10 * pow(10, over));
        lemma_pow_positive(10, over);
        lemma_pow_positive(10, over + 1);
        assert(digits.subrange(0, digits.len() as int) =~= digits);
        if over == 0 {
            assert(pow(10, 0) == 1);
            assert(number_of(digits) * 1 == number_of(digits));
        }
        assert(number_of(digits) * pow(10, over + 1) == number_of(digits) * pow(10, over) * 10)
            by (nonlinear_arith)
            requires
                pow(10, over + 1) == 10 * pow(10, over),
        ;
        lemma_mul_nonnegative(number_of(digits) as int, pow(10, over));
        lemma_mul_nonnegative(number_of(digits) as int, pow(10, over + 1));
    }
}

/// The first `more` digits lie between the first `count` digits followed by
/// zeros and the same followed by nines.
pub proof fn lemma_lead_between(digits: Seq<char>, count: nat, more: nat)
    requires
        count <= more,
    ensures
        lead(digits, count) * pow(10, (more - count) as nat) <= lead(digits, more),
        lead(digits, more) < (lead(digits, count) + 1) * pow(10, (more - count) as nat),
    decreases more - count,
{
    if more == count {
        lemma_pow0(10);
        assert(lead(digits, count) * 1 == lead(digits, count));
        assert((lead(digits, count) + 1) * 1 == lead(digits, count) + 1);
    } else {
        let before = (more - 1) as nat;
        lemma_lead_between(digits, count, before);
        lemma_lead_step(digits, before);
        let gap = (before - count) as nat;
        reveal(pow);
        assert(pow(10, gap + 1) == 10 * pow(10, gap));
        let low = lead(digits, count) as int;
        let p = pow(10, gap);
        let mid = lead(digits, before) as int;
        let d = digit_at(digits, before as int) as int;
        assert(low * (10 * p) <= mid * 10 + d && mid * 10 + d < (low + 1) * (10 * p))
            by (nonlinear_arith)
            requires
                low * p <= mid,
                mid < (low + 1) * p,
                0 <= d <= 9,
        ;
    }
}

} // verus!

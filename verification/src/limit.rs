//! The range of IEEE 754 binary64, and how a decimal magnitude stands to it.
//!
//! The limit is written in decimal as eighteen groups, the first of three
//! digits and the others of eighteen, so that a digit string can be held
//! against it group by group.

use vstd::prelude::*;
use vstd::arithmetic::power::*;
use vstd::arithmetic::power2::*;
use vstd::arithmetic::mul::*;
use crate::digits::{
    all_digits, digit_at, digit_of, lead, lemma_lead_between, lemma_lead_step,
    lemma_number_of_above, lemma_number_of_below, number_of, text_of,
};

verus! {

/// The least magnitude that rounds to infinity in binary64: halfway between
/// the largest finite value, `2^1024 - 2^971`, and `2^1024`.
pub open spec fn binary64_limit() -> int {
    pow(2, 1024) - pow(2, 970)
}

/// Whether `coefficient * 10^exponent` is at least `bound`.
pub open spec fn reaches(coefficient: nat, exponent: int, bound: int) -> bool {
    if exponent >= 0 {
        coefficient * pow(10, exponent as nat) >= bound
    } else {
        coefficient >= bound * pow(10, (-exponent) as nat)
    }
}

/// The number of decimal digits of the limit.
pub const LIMIT_DIGITS: usize = 309;

/// The number of groups that the limit is written in.
pub const LIMIT_GROUPS: usize = 18;

/// One more than the largest value of a group.
pub const GROUP_BASE: u64 = 1_000_000_000_000_000_000;

/// The digits of the limit, group by group from the most significant.
pub open spec fn limit_group(index: int) -> nat {
    if index == 0 {
        179
    } else if index == 1 {
        769313486231580793
    } else if index == 2 {
        728971405303415079
    } else if index == 3 {
        934132710037826936
    } else if index == 4 {
        173778980444968292
    } else if index == 5 {
        764750946649017977
    } else if index == 6 {
        587207096330286416
    } else if index == 7 {
        692887910946555547
    } else if index == 8 {
        851940402630657488
    } else if index == 9 {
        671505820681908902
    } else if index == 10 {
        708383676273854
    } else if index == 11 {
        845817711531764475
    } else if index == 12 {
        730270069855571366
    } else if index == 13 {
        959622842914819860
    } else if index == 14 {
        834936475292719074
    } else if index == 15 {
        168444365510704342
    } else if index == 16 {
        711559699508093042
    } else {
        880177904174497792
    }
}

/// The number made of the first `count` groups of the limit.
pub open spec fn limit_head(count: nat) -> nat
    decreases count,
{
    if count == 0 {
        0
    } else {
        limit_head((count - 1) as nat) * GROUP_BASE as nat + limit_group(count - 1)
    }
}

/// How many digits the first `count` groups hold.
pub open spec fn group_end(count: nat) -> nat {
    if count == 0 {
        0
    } else {
        (18 * count - 15) as nat
    }
}

proof fn lemma_group_base()
    ensures
        pow(10, 18) == GROUP_BASE,
{
    reveal_with_fuel(pow, 19);
}

proof fn lemma_two_to_1024()
    ensures
        pow(2, 1024)
            == 0x10000000000000000000000000000000000000000000000000000000000000000000000000000000000000000000000000000000000000000000000000000000000000000000000000000000000000000000000000000000000000000000000000000000000000000000000000000000000000000000000000000000000000000int,
        pow(2, 970)
            == 0x400000000000000000000000000000000000000000000000000000000000000000000000000000000000000000000000000000000000000000000000000000000000000000000000000000000000000000000000000000000000000000000000000000000000000000000000000000000000000000000000000int,
{
    lemma2_to64();
    lemma_pow2(10);
    lemma_pow2(64);
    assert(pow(2, 10) == 0x400);
    assert(pow(2, 64) == 0x10000000000000000);
    lemma_pow_adds(2, 64, 64);
    assert(pow(2, 128) == 0x100000000000000000000000000000000int);
    lemma_pow_adds(2, 128, 128);
    assert(pow(2, 256) == 0x10000000000000000000000000000000000000000000000000000000000000000int);
    lemma_pow_adds(2, 256, 256);
    assert(pow(2, 512)
        == 0x100000000000000000000000000000000000000000000000000000000000000000000000000000000000000000000000000000000000000000000000000000000int);
    lemma_pow_adds(2, 512, 512);
    lemma_pow_adds(2, 512, 256);
    assert(pow(2, 768) == pow(2, 512) * pow(2, 256));
    lemma_pow_adds(2, 768, 128);
    assert(pow(2, 896) == pow(2, 768) * pow(2, 128));
    lemma_pow_adds(2, 896, 64);
    assert(pow(2, 960) == pow(2, 896) * pow(2, 64));
    lemma_pow_adds(2, 960, 10);
    assert(pow(2, 970) == pow(2, 960) * pow(2, 10));
}

/// The groups, read as one number, are the limit.
pub proof fn lemma_limit_groups()
    ensures
        limit_head(18) == binary64_limit(),
{
    lemma_two_to_1024();
    reveal_with_fuel(limit_head, 19);
    assert(limit_head(18)
        == 179769313486231580793728971405303415079934132710037826936173778980444968292764750946649017977587207096330286416692887910946555547851940402630657488671505820681908902000708383676273854845817711531764475730270069855571366959622842914819860834936475292719074168444365510704342711559699508093042880177904174497792int);
}

proof fn lemma_heads_between(count: nat, more: nat)
    requires
        count <= more <= 18,
    ensures
        limit_head(count) * pow(10, (18 * (more - count)) as nat) <= limit_head(more),
        limit_head(more) < (limit_head(count) + 1) * pow(10, (18 * (more - count)) as nat),
    decreases more - count,
{
    if more == count {
        lemma_pow0(10);
        assert(limit_head(count) * 1 == limit_head(count));
        assert((limit_head(count) + 1) * 1 == limit_head(count) + 1);
    } else {
        let before = (more - 1) as nat;
        lemma_heads_between(count, before);
        lemma_group_base();
        let gap = (18 * (before - count)) as nat;
        lemma_pow_adds(10, gap, 18);
        assert(gap + 18 == 18 * (more - count));
        let low = limit_head(count) as int;
        let p = pow(10, gap);
        let mid = limit_head(before) as int;
        let g = limit_group(before as int) as int;
        let base = GROUP_BASE as int;
        assert(low * (p * base) <= mid * base + g && mid * base + g < (low + 1) * (p * base))
            by (nonlinear_arith)
            requires
                low * p <= mid,
                mid < (low + 1) * p,
                0 <= g < base,
        ;
    }
}

/// The limit lies between its first groups followed by zeros and the same
/// followed by nines.
pub proof fn lemma_limit_between(count: nat)
    requires
        1 <= count <= 18,
    ensures
        limit_head(count) * pow(10, (309 - group_end(count)) as nat) <= binary64_limit(),
        binary64_limit() < (limit_head(count) + 1) * pow(10, (309 - group_end(count)) as nat),
{
    lemma_heads_between(count, 18);
    lemma_limit_groups();
    assert(18 * (18 - count) == 309 - group_end(count));
}

/// The limit has 309 digits.
pub proof fn lemma_limit_order()
    ensures
        pow(10, 308) <= binary64_limit() < pow(10, 309),
{
    lemma_limit_between(1);
    reveal_with_fuel(limit_head, 2);
    assert(limit_head(1) == 179);
    lemma_pow_adds(10, 2, 306);
    lemma_pow_adds(10, 3, 306);
    reveal_with_fuel(pow, 4);
    assert(pow(10, 2) == 100);
    assert(pow(10, 3) == 1000);
    lemma_pow_positive(10, 306);
    let p = pow(10, 306);
    assert(100 * p <= 179 * p && 180 * p <= 1000 * p) by (nonlinear_arith)
        requires
            p > 0,
    ;
}

/// Digits that differ from the limit within the first groups settle the
/// comparison of all 309.
pub proof fn lemma_lead_decides(digits: Seq<char>, count: nat)
    requires
        1 <= count <= 18,
        lead(digits, group_end(count)) != limit_head(count),
    ensures
        lead(digits, 309) >= binary64_limit() <==> lead(digits, group_end(count)) > limit_head(
            count,
        ),
{
    let rest = (309 - group_end(count)) as nat;
    lemma_lead_between(digits, group_end(count), 309);
    lemma_limit_between(count);
    lemma_pow_positive(10, rest);
    let p = pow(10, rest);
    let ours = lead(digits, group_end(count)) as int;
    let theirs = limit_head(count) as int;
    if ours > theirs {
        assert((theirs + 1) * p <= ours * p) by (nonlinear_arith)
            requires
                theirs + 1 <= ours,
                p > 0,
        ;
    } else {
        assert((ours + 1) * p <= theirs * p) by (nonlinear_arith)
            requires
                ours + 1 <= theirs,
                p > 0,
        ;
    }
}

/// A number of more than 309 digits before the point reaches the limit, and
/// one of fewer does not.
pub proof fn lemma_reaches_by_order(digits: Seq<char>, exponent: int)
    requires
        digits.len() > 0,
        digit_of(digits[0]) >= 1,
        digits.len() + exponent != 309,
    ensures
        reaches(number_of(digits), exponent, binary64_limit()) <==> digits.len() + exponent > 309,
{
    let number = number_of(digits) as int;
    let limit = binary64_limit();
    let length = digits.len();
    lemma_limit_order();
    lemma_number_of_above(digits);
    lemma_number_of_below(digits);
    if exponent >= 0 {
        let e = exponent as nat;
        let scale = pow(10, e);
        lemma_pow_positive(10, e);
        if length + exponent > 309 {
            lemma_pow_adds(10, (length - 1) as nat, e);
            lemma_pow_increases(10, 309, (length - 1 + e) as nat);
            assert(pow(10, (length - 1) as nat) * scale <= number * scale) by (nonlinear_arith)
                requires
                    pow(10, (length - 1) as nat) <= number,
                    scale > 0,
            ;
        } else {
            lemma_pow_adds(10, length, e);
            lemma_pow_increases(10, length + e, 308);
            assert(number * scale < pow(10, length) * scale) by (nonlinear_arith)
                requires
                    number < pow(10, length),
                    scale > 0,
            ;
        }
    } else {
        let e = (-exponent) as nat;
        let scale = pow(10, e);
        lemma_pow_positive(10, e);
        if length + exponent > 309 {
            lemma_pow_adds(10, 309, e);
            lemma_pow_increases(10, 309 + e, (length - 1) as nat);
            assert(limit * scale < pow(10, 309) * scale) by (nonlinear_arith)
                requires
                    limit < pow(10, 309),
                    scale > 0,
            ;
        } else {
            lemma_pow_adds(10, 308, e);
            lemma_pow_increases(10, length, 308 + e);
            assert(pow(10, 308) * scale <= limit * scale) by (nonlinear_arith)
                requires
                    pow(10, 308) <= limit,
                    scale > 0,
            ;
        }
    }
}

/// A number of 309 digits before the point reaches the limit when those
/// digits do.
pub proof fn lemma_reaches_at_order(digits: Seq<char>, exponent: int)
    requires
        digits.len() + exponent == 309,
    ensures
        reaches(number_of(digits), exponent, binary64_limit()) <==> lead(digits, 309)
            >= binary64_limit(),
{
    let number = number_of(digits) as int;
    let limit = binary64_limit();
    if exponent >= 0 {
        lemma_pow_positive(10, exponent as nat);
        lemma_mul_nonnegative(number, pow(10, exponent as nat));
        if exponent == 0 {
            assert(digits.subrange(0, 309) =~= digits);
            lemma_pow0(10);
            assert(number * 1 == number);
        }
    } else {
        let e = (-exponent) as nat;
        let scale = pow(10, e);
        let head = lead(digits, 309) as int;
        lemma_pow_positive(10, e);
        lemma_lead_between(digits, 309, digits.len());
        assert(lead(digits, digits.len()) == number) by {
            assert(digits.subrange(0, digits.len() as int) =~= digits);
        }
        if head >= limit {
            assert(limit * scale <= head * scale) by (nonlinear_arith)
                requires
                    limit <= head,
                    scale > 0,
            ;
        } else {
            assert((head + 1) * scale <= limit * scale) by (nonlinear_arith)
                requires
                    head + 1 <= limit,
                    scale > 0,
            ;
        }
    }
}

fn limit_group_at(index: usize) -> (group: u64)
    requires
        index < LIMIT_GROUPS,
    ensures
        group == limit_group(index as int),
{
    match index {
        0 => 179,
        1 => 769313486231580793,
        2 => 728971405303415079,
        3 => 934132710037826936,
        4 => 173778980444968292,
        5 => 764750946649017977,
        6 => 587207096330286416,
        7 => 692887910946555547,
        8 => 851940402630657488,
        9 => 671505820681908902,
        10 => 708383676273854,
        11 => 845817711531764475,
        12 => 730270069855571366,
        13 => 959622842914819860,
        14 => 834936475292719074,
        15 => 168444365510704342,
        16 => 711559699508093042,
        _ => 880177904174497792,
    }
}

/// Reads the digits from `start` on as one group of `width` digits.
fn read_group(digits: &[u8], start: usize, width: usize) -> (value: u64)
    requires
        all_digits(digits@),
        width <= 18,
        start <= LIMIT_DIGITS,
    ensures
        lead(text_of(digits@), (start + width) as nat) == lead(text_of(digits@), start as nat)
            * pow(10, width as nat) + value,
        value < pow(10, width as nat),
{
    let ghost text = text_of(digits@);
    let mut value: u64 = 0;
    let mut done: usize = 0;
    proof {
        lemma_pow0(10);
        assert(lead(text, start as nat) * 1 == lead(text, start as nat));
    }
    while done < width
        invariant
            done <= width <= 18,
            start <= LIMIT_DIGITS,
            all_digits(digits@),
            text == text_of(digits@),
            lead(text, (start + done) as nat) == lead(text, start as nat) * pow(10, done as nat)
                + value,
            value < pow(10, done as nat),
            pow(10, done as nat) <= GROUP_BASE,
        decreases width - done,
    {
        let at = start + done;
        let digit: u64 = if at < digits.len() {
            (digits[at] - 48) as u64
        } else {
            0
        };
        proof {
            lemma_lead_step(text, at as nat);
            assert(digit == digit_at(text, at as int));
            reveal(pow);
            assert(pow(10, (done + 1) as nat) == 10 * pow(10, done as nat));
            lemma_group_base();
            if done + 1 < 18 {
                lemma_pow_strictly_increases(10, (done + 1) as nat, 18);
            }
            let head = lead(text, start as nat) as int;
            let p = pow(10, done as nat);
            assert(head * (10 * p) == head * p * 10) by (nonlinear_arith);
        }
        value = value * 10 + digit;
        done += 1;
    }
    value
}

/// Whether the number written by `digits`, with `order` of them before the
/// decimal point, reaches the binary64 limit.
pub(crate) fn reaches_limit(digits: &[u8], order: i128) -> (over: bool)
    requires
        all_digits(digits@),
        digits.len() > 0,
        digits[0] != 48,
    ensures
        over == reaches(
            number_of(text_of(digits@)),
            order - digits.len(),
            binary64_limit(),
        ),
{
    let ghost text = text_of(digits@);
    let ghost exponent = order - digits.len();
    if order != 309 {
        proof {
            lemma_reaches_by_order(text, exponent);
        }
        return order > 309;
    }
    proof {
        lemma_reaches_at_order(text, exponent);
    }
    let mut group: usize = 0;
    let mut start: usize = 0;
    while group < LIMIT_GROUPS
        invariant
            group <= LIMIT_GROUPS,
            start == group_end(group as nat),
            all_digits(digits@),
            text == text_of(digits@),
            lead(text, start as nat) == limit_head(group as nat),
            reaches(number_of(text), exponent, binary64_limit()) <==> lead(text, 309)
                >= binary64_limit(),
            exponent == order - digits.len(),
        decreases LIMIT_GROUPS - group,
    {
        let width: usize = if group == 0 {
            3
        } else {
            18
        };
        let ours = read_group(digits, start, width);
        let theirs = limit_group_at(group);
        proof {
            lemma_group_base();
            assert(group_end((group + 1) as nat) == start + width);
            if group == 0 {
                assert(lead(text, 0) * pow(10, 3) == 0) by (nonlinear_arith)
                    requires
                        lead(text, 0) == 0,
                ;
                assert(limit_head(0) * GROUP_BASE as nat == 0);
            }
            assert(lead(text, (start + width) as nat) - limit_head((group + 1) as nat) == ours
                - theirs);
            if ours != theirs {
                lemma_lead_decides(text, (group + 1) as nat);
            }
        }
        if ours != theirs {
            return ours > theirs;
        }
        start += width;
        group += 1;
    }
    proof {
        lemma_limit_groups();
    }
    true
}

} // verus!

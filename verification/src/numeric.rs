//! Decimal literals as they appear on the page: an optional sign, digits with
//! at most one decimal mark (a comma or a point), and an optional exponent.
//!
//! A literal denotes the exact number `coefficient * 10^exponent`. The
//! parser accepts a literal unless its magnitude would round to infinity in
//! IEEE 754 binary64, and hands it on with the comma replaced by a point.

use vstd::prelude::*;
use vstd::string::*;
use vstd::utf8::is_ascii_chars;
use vstd::arithmetic::power::{lemma_pow_adds, lemma_pow_increases, lemma_pow_positive, pow};
use vstd::arithmetic::mul::lemma_mul_strictly_positive;
use crate::digits::{
    all_digits, is_digit, lemma_number_of_below, lemma_number_of_concat, lemma_number_of_push,
    number_of, text_of,
};
use crate::limit::{
    binary64_limit, lemma_limit_order, lemma_reaches_by_order, reaches, reaches_limit,
};

verus! {

pub open spec fn is_sign(c: char) -> bool {
    c == '+' || c == '-'
}

/// The decimal mark, before or after the comma is replaced.
pub open spec fn is_mark(c: char) -> bool {
    c == ',' || c == '.'
}

pub open spec fn is_exponent_mark(c: char) -> bool {
    c == 'e' || c == 'E'
}

/// How many digits stand in a row from position `at` on.
pub open spec fn digits_from(s: Seq<char>, at: int) -> nat
    decreases s.len() - at,
{
    if 0 <= at < s.len() && is_digit(s[at]) {
        1 + digits_from(s, at + 1)
    } else {
        0
    }
}

/// Where the parts of a literal lie, found by reading it from the left.
pub struct Shape {
    pub signed: bool,
    pub whole: nat,
    pub pointed: bool,
    pub fraction: nat,
    pub marked: bool,
    pub exponent_signed: bool,
    pub exponent: nat,
}

impl Shape {
    pub open spec fn whole_start(self) -> int {
        if self.signed {
            1
        } else {
            0
        }
    }

    pub open spec fn point_at(self) -> int {
        self.whole_start() + self.whole
    }

    pub open spec fn fraction_start(self) -> int {
        if self.pointed {
            self.point_at() + 1
        } else {
            self.point_at()
        }
    }

    pub open spec fn mark_at(self) -> int {
        self.fraction_start() + self.fraction
    }

    pub open spec fn exponent_start(self) -> int {
        if !self.marked {
            self.mark_at()
        } else if self.exponent_signed {
            self.mark_at() + 2
        } else {
            self.mark_at() + 1
        }
    }

    pub open spec fn end(self) -> int {
        self.exponent_start() + self.exponent
    }
}

pub open spec fn shape_of(s: Seq<char>) -> Shape {
    let signed = s.len() > 0 && is_sign(s[0]);
    let whole_start: int = if signed { 1 } else { 0 };
    let whole = digits_from(s, whole_start);
    let point_at = whole_start + whole;
    let pointed = point_at < s.len() && is_mark(s[point_at]);
    let fraction_start = if pointed { point_at + 1 } else { point_at };
    let fraction = if pointed { digits_from(s, fraction_start) } else { 0 };
    let mark_at = fraction_start + fraction;
    let marked = mark_at < s.len() && is_exponent_mark(s[mark_at]);
    let exponent_signed = marked && mark_at + 1 < s.len() && is_sign(s[mark_at + 1]);
    let exponent_start = if !marked { mark_at } else if exponent_signed { mark_at + 2 } else { mark_at + 1 };
    let exponent = if marked { digits_from(s, exponent_start) } else { 0 };
    Shape { signed, whole, pointed, fraction, marked, exponent_signed, exponent }
}

/// A literal has a digit before or after the mark, digits after an exponent
/// mark, and nothing left over.
pub open spec fn is_literal(s: Seq<char>) -> bool {
    let shape = shape_of(s);
    &&& shape.whole + shape.fraction > 0
    &&& shape.marked ==> shape.exponent > 0
    &&& shape.end() == s.len()
}

pub open spec fn is_negative(s: Seq<char>) -> bool {
    s.len() > 0 && s[0] == '-'
}

/// The digits before and after the mark, in one string.
pub open spec fn mantissa(s: Seq<char>) -> Seq<char> {
    let shape = shape_of(s);
    s.subrange(shape.whole_start(), shape.point_at()) + s.subrange(
        shape.fraction_start(),
        shape.mark_at(),
    )
}

pub open spec fn coefficient(s: Seq<char>) -> nat {
    number_of(mantissa(s))
}

/// The exponent as written, zero where none is.
pub open spec fn written_exponent(s: Seq<char>) -> int {
    let shape = shape_of(s);
    let digits = number_of(s.subrange(shape.exponent_start(), shape.end())) as int;
    if shape.exponent_signed && s[shape.mark_at() + 1] == '-' {
        -digits
    } else {
        digits
    }
}

/// The written exponent, less one for each digit after the mark.
pub open spec fn exponent(s: Seq<char>) -> int {
    written_exponent(s) - shape_of(s).fraction
}

/// Whether the magnitude of a literal would round to infinity in binary64.
pub open spec fn out_of_range(s: Seq<char>) -> bool {
    reaches(coefficient(s), exponent(s), binary64_limit())
}

/// The text with each comma replaced by a point.
pub open spec fn normalized(s: Seq<char>) -> Seq<char> {
    Seq::new(s.len(), |i: int| if s[i] == ',' { '.' } else { s[i] })
}

/// Why a text is no number.
#[derive(Clone, Copy, Debug, PartialEq, Eq, Structural)]
pub enum NumberError {
    /// The text is empty.
    Empty,
    /// The text is no literal.
    Invalid,
    /// The literal is too large for binary64.
    OutOfRange,
}

/// What parsing a text gives: the normalized literal, or the reason why not.
pub open spec fn parsed(s: Seq<char>) -> Result<Seq<char>, NumberError> {
    if s.len() == 0 {
        Err(NumberError::Empty)
    } else if !is_literal(s) {
        Err(NumberError::Invalid)
    } else if out_of_range(s) {
        Err(NumberError::OutOfRange)
    } else {
        Ok(normalized(s))
    }
}

/// A run of digits holds digits, ends within the text, and ends before a
/// character that is no digit.
pub proof fn lemma_digits_run(s: Seq<char>, at: int)
    requires
        0 <= at <= s.len(),
    ensures
        at + digits_from(s, at) <= s.len(),
        forall|i: int| at <= i < at + digits_from(s, at) ==> is_digit(#[trigger] s[i]),
        at + digits_from(s, at) < s.len() ==> !is_digit(s[at + digits_from(s, at)]),
    decreases s.len() - at,
{
    if at < s.len() && is_digit(s[at]) {
        lemma_digits_run(s, at + 1);
    }
}

/// Finds the end of the run of digits that starts at `from`.
fn digits_end(bytes: &[u8], from: usize) -> (end: usize)
    requires
        from <= bytes.len(),
    ensures
        end == from + digits_from(text_of(bytes@), from as int),
        end <= bytes.len(),
{
    let ghost s = text_of(bytes@);
    let mut end = from;
    proof {
        lemma_digits_run(s, from as int);
    }
    while end < bytes.len() && 48 <= bytes[end] && bytes[end] <= 57
        invariant
            from <= end <= bytes.len(),
            s == text_of(bytes@),
            from + digits_from(s, from as int) == end + digits_from(s, end as int),
        decreases bytes.len() - end,
    {
        end += 1;
    }
    end
}

/// The parts of a literal as positions in its bytes.
struct Layout {
    whole_start: usize,
    point_at: usize,
    fraction_start: usize,
    mark_at: usize,
    exponent_start: usize,
    end: usize,
    marked: bool,
    exponent_negative: bool,
}

impl Layout {
    /// The layout holds the positions of the shape of `s`.
    spec fn follows(self, s: Seq<char>) -> bool {
        let shape = shape_of(s);
        &&& self.whole_start == shape.whole_start()
        &&& self.point_at == shape.point_at()
        &&& self.fraction_start == shape.fraction_start()
        &&& self.mark_at == shape.mark_at()
        &&& self.exponent_start == shape.exponent_start()
        &&& self.end == shape.end()
        &&& self.marked == shape.marked
        &&& self.exponent_negative == (shape.exponent_signed && s[shape.mark_at() + 1] == '-')
        &&& self.end <= s.len()
    }
}

fn lay_out(bytes: &[u8]) -> (layout: Layout)
    requires
        bytes.len() > 0,
    ensures
        layout.follows(text_of(bytes@)),
{
    let ghost s = text_of(bytes@);
    let size = bytes.len();
    let whole_start: usize = if bytes[0] == 43 || bytes[0] == 45 {
        1
    } else {
        0
    };
    let point_at = digits_end(bytes, whole_start);
    let pointed = point_at < size && (bytes[point_at] == 44 || bytes[point_at] == 46);
    let fraction_start = if pointed {
        point_at + 1
    } else {
        point_at
    };
    let mark_at = if pointed {
        digits_end(bytes, fraction_start)
    } else {
        fraction_start
    };
    let marked = mark_at < size && (bytes[mark_at] == 101 || bytes[mark_at] == 69);
    let exponent_signed = marked && mark_at + 1 < size && (bytes[mark_at + 1] == 43 || bytes[mark_at
        + 1] == 45);
    let exponent_negative = exponent_signed && bytes[mark_at + 1] == 45;
    let exponent_start = if !marked {
        mark_at
    } else if exponent_signed {
        mark_at + 2
    } else {
        mark_at + 1
    };
    let end = if marked {
        digits_end(bytes, exponent_start)
    } else {
        exponent_start
    };
    Layout {
        whole_start,
        point_at,
        fraction_start,
        mark_at,
        exponent_start,
        end,
        marked,
        exponent_negative,
    }
}

/// Appends the digits in `bytes[from..to]` to `digits`, leaving out zeros
/// that would come first.
fn absorb(bytes: &[u8], from: usize, to: usize, digits: &mut Vec<u8>)
    requires
        from <= to <= bytes.len(),
        all_digits(bytes@.subrange(from as int, to as int)),
        all_digits(old(digits)@),
        old(digits).len() > 0 ==> old(digits)[0] != 48,
    ensures
        all_digits(final(digits)@),
        final(digits).len() > 0 ==> final(digits)[0] != 48,
        number_of(text_of(final(digits)@)) == number_of(
            text_of(old(digits)@) + text_of(bytes@).subrange(from as int, to as int),
        ),
{
    let ghost s = text_of(bytes@);
    let ghost before = text_of(digits@);
    let mut at = from;
    proof {
        assert(before + s.subrange(from as int, from as int) =~= before);
    }
    while at < to
        invariant
            from <= at <= to <= bytes.len(),
            s == text_of(bytes@),
            all_digits(bytes@.subrange(from as int, to as int)),
            all_digits(digits@),
            digits.len() > 0 ==> digits[0] != 48,
            number_of(text_of(digits@)) == number_of(before + s.subrange(from as int, at as int)),
        decreases to - at,
    {
        let byte = bytes[at];
        proof {
            assert(bytes@.subrange(from as int, to as int)[at - from] == byte);
            let seen = before + s.subrange(from as int, at as int);
            assert(before + s.subrange(from as int, at + 1) =~= seen.push(s[at as int]));
            lemma_number_of_push(seen, s[at as int]);
            lemma_number_of_push(text_of(digits@), s[at as int]);
            assert(text_of(digits@.push(byte)) =~= text_of(digits@).push(s[at as int]));
            if digits.len() == 0 {
                assert(text_of(digits@) =~= Seq::<char>::empty());
            }
        }
        if digits.len() > 0 || byte != 48 {
            digits.push(byte);
        }
        at += 1;
    }
}

/// The largest exponent that is read in full; a larger one settles the
/// range by its sign alone.
const EXPONENT_CAP: u128 = 1_000_000_000_000_000_000_000_000;

/// Reads the digits in `bytes[from..to]` as a number, stopping at the cap.
fn capped_number(bytes: &[u8], from: usize, to: usize) -> (value: u128)
    requires
        from <= to <= bytes.len(),
        all_digits(bytes@.subrange(from as int, to as int)),
    ensures
        value <= EXPONENT_CAP,
        value < EXPONENT_CAP ==> value == number_of(
            text_of(bytes@).subrange(from as int, to as int),
        ),
        value == EXPONENT_CAP ==> number_of(text_of(bytes@).subrange(from as int, to as int))
            >= EXPONENT_CAP,
{
    let ghost s = text_of(bytes@);
    let mut value: u128 = 0;
    let mut at = from;
    while at < to
        invariant
            from <= at <= to <= bytes.len(),
            s == text_of(bytes@),
            all_digits(bytes@.subrange(from as int, to as int)),
            value <= EXPONENT_CAP,
            value < EXPONENT_CAP ==> value == number_of(s.subrange(from as int, at as int)),
            value == EXPONENT_CAP ==> number_of(s.subrange(from as int, at as int))
                >= EXPONENT_CAP,
        decreases to - at,
    {
        let byte = bytes[at];
        proof {
            assert(bytes@.subrange(from as int, to as int)[at - from] == byte);
            let seen = s.subrange(from as int, at as int);
            assert(s.subrange(from as int, at + 1) =~= seen.push(s[at as int]));
            lemma_number_of_push(seen, s[at as int]);
        }
        let next = value * 10 + (byte - 48) as u128;
        value = if next < EXPONENT_CAP {
            next
        } else {
            EXPONENT_CAP
        };
        at += 1;
    }
    value
}

proof fn lemma_zero_is_in_range(exponent: int)
    ensures
        !reaches(0, exponent, binary64_limit()),
{
    lemma_limit_order();
    lemma_pow_positive(10, 308);
    if exponent >= 0 {
        assert(0 * pow(10, exponent as nat) == 0);
    } else {
        lemma_pow_positive(10, (-exponent) as nat);
        lemma_mul_strictly_positive(binary64_limit(), pow(10, (-exponent) as nat));
    }
}

/// Whether the literal in `bytes` is too large for binary64.
fn exceeds_range(bytes: &[u8], layout: &Layout) -> (over: bool)
    requires
        bytes.len() > 0,
        layout.follows(text_of(bytes@)),
        is_literal(text_of(bytes@)),
    ensures
        over == out_of_range(text_of(bytes@)),
{
    let ghost s = text_of(bytes@);
    let ghost shape = shape_of(s);
    proof {
        lemma_digits_run(s, shape.whole_start());
        if shape.pointed {
            lemma_digits_run(s, shape.fraction_start());
        }
        if shape.marked {
            lemma_digits_run(s, shape.exponent_start());
        }
        assert(all_digits(bytes@.subrange(shape.whole_start(), shape.point_at()))) by {
            assert forall|i: int| 0 <= i < shape.whole implies 48 <= #[trigger] bytes@.subrange(
                shape.whole_start(),
                shape.point_at(),
            )[i] <= 57 by {
                assert(is_digit(s[shape.whole_start() + i]));
            }
        }
        assert(all_digits(bytes@.subrange(shape.fraction_start(), shape.mark_at()))) by {
            assert forall|i: int| 0 <= i < shape.fraction implies 48 <= #[trigger] bytes@.subrange(
                shape.fraction_start(),
                shape.mark_at(),
            )[i] <= 57 by {
                assert(is_digit(s[shape.fraction_start() + i]));
            }
        }
        assert(all_digits(bytes@.subrange(shape.exponent_start(), shape.end()))) by {
            assert forall|i: int| 0 <= i < shape.exponent implies 48 <= #[trigger] bytes@.subrange(
                shape.exponent_start(),
                shape.end(),
            )[i] <= 57 by {
                assert(is_digit(s[shape.exponent_start() + i]));
            }
        }
    }
    let mut digits: Vec<u8> = Vec::new();
    absorb(bytes, layout.whole_start, layout.point_at, &mut digits);
    let ghost whole = s.subrange(shape.whole_start(), shape.point_at());
    let ghost kept = text_of(digits@);
    absorb(bytes, layout.fraction_start, layout.mark_at, &mut digits);
    let ghost fraction = s.subrange(shape.fraction_start(), shape.mark_at());
    proof {
        assert(Seq::<char>::empty() + whole =~= whole);
        assert(text_of(Seq::<u8>::empty()) =~= Seq::<char>::empty());
        lemma_number_of_concat(kept, fraction);
        lemma_number_of_concat(whole, fraction);
        assert(number_of(text_of(digits@)) == coefficient(s));
    }
    if digits.len() == 0 {
        proof {
            assert(text_of(digits@) =~= Seq::<char>::empty());
            lemma_zero_is_in_range(exponent(s));
        }
        return false;
    }
    let written = capped_number(bytes, layout.exponent_start, layout.end);
    let length = digits.len() as i128;
    let fraction_length = (layout.mark_at - layout.fraction_start) as i128;
    let order = if layout.exponent_negative {
        length - fraction_length - written as i128
    } else {
        length - fraction_length + written as i128
    };
    let over = reaches_limit(digits.as_slice(), order);
    proof {
        let text = text_of(digits@);
        if written == EXPONENT_CAP {
            lemma_reaches_by_order(text, order - length);
            lemma_reaches_by_order(text, exponent(s));
        } else {
            assert(order - length == exponent(s));
        }
    }
    over
}

/// What stands at each position of a literal.
pub proof fn lemma_literal_characters(s: Seq<char>)
    requires
        is_literal(s),
    ensures
        forall|i: int|
            0 <= i < s.len() ==> if shape_of(s).pointed && i == shape_of(s).point_at() {
                is_mark(#[trigger] s[i])
            } else {
                is_digit(s[i]) || is_sign(s[i]) || is_exponent_mark(s[i])
            },
        is_ascii_chars(s),
{
    let shape = shape_of(s);
    lemma_digits_run(s, shape.whole_start());
    if shape.pointed {
        lemma_digits_run(s, shape.fraction_start());
    }
    if shape.marked {
        lemma_digits_run(s, shape.exponent_start());
    }
    assert forall|i: int| 0 <= i < s.len() implies if shape.pointed && i == shape.point_at() {
        is_mark(#[trigger] s[i])
    } else {
        is_digit(s[i]) || is_sign(s[i]) || is_exponent_mark(s[i])
    } by {
        if i < shape.whole_start() {
        } else if i < shape.point_at() {
        } else if i < shape.fraction_start() {
        } else if i < shape.mark_at() {
        } else if i < shape.exponent_start() {
        } else {
        }
    }
}

/// A text with a character that is no digit, sign or mark is no number.
pub proof fn lemma_foreign_character_fails(s: Seq<char>, at: int)
    requires
        0 <= at < s.len(),
        !is_digit(s[at]),
        !is_sign(s[at]),
        !is_mark(s[at]),
        !is_exponent_mark(s[at]),
    ensures
        parsed(s) == Err::<Seq<char>, NumberError>(NumberError::Invalid),
{
    if is_literal(s) {
        lemma_literal_characters(s);
    }
}

/// Two texts that differ at most in which decimal mark they use.
spec fn alike(s: Seq<char>, t: Seq<char>) -> bool {
    &&& s.len() == t.len()
    &&& forall|i: int|
        0 <= i < s.len() ==> #[trigger] s[i] == t[i] || (is_mark(s[i]) && is_mark(t[i]))
}

proof fn lemma_alike_digits_from(s: Seq<char>, t: Seq<char>, at: int)
    requires
        alike(s, t),
        0 <= at <= s.len(),
    ensures
        digits_from(s, at) == digits_from(t, at),
    decreases s.len() - at,
{
    if at < s.len() {
        assert(s[at] == t[at] || (is_mark(s[at]) && is_mark(t[at])));
        if is_digit(s[at]) {
            lemma_alike_digits_from(s, t, at + 1);
        }
    }
}

proof fn lemma_alike_number(s: Seq<char>, t: Seq<char>)
    requires
        alike(s, t),
    ensures
        number_of(s) == number_of(t),
    decreases s.len(),
{
    if s.len() > 0 {
        assert(s.last() == s[s.len() - 1]);
        assert(s[s.len() - 1] == t[s.len() - 1] || (is_mark(s[s.len() - 1]) && is_mark(
            t[s.len() - 1],
        )));
        assert(alike(s.drop_last(), t.drop_last())) by {
            assert forall|i: int| 0 <= i < s.len() - 1 implies #[trigger] s.drop_last()[i]
                == t.drop_last()[i] || (is_mark(s.drop_last()[i]) && is_mark(
                t.drop_last()[i],
            )) by {
                assert(s[i] == t[i] || (is_mark(s[i]) && is_mark(t[i])));
            }
        }
        lemma_alike_number(s.drop_last(), t.drop_last());
    }
}

/// Texts that differ only in the decimal mark are the same literal.
proof fn lemma_alike_literals(s: Seq<char>, t: Seq<char>)
    requires
        alike(s, t),
    ensures
        shape_of(s) == shape_of(t),
        is_literal(s) == is_literal(t),
        is_literal(s) ==> {
            &&& coefficient(s) == coefficient(t)
            &&& exponent(s) == exponent(t)
            &&& is_negative(s) == is_negative(t)
        },
{
    let a = shape_of(s);
    if s.len() > 0 {
        assert(s[0] == t[0] || (is_mark(s[0]) && is_mark(t[0])));
    }
    lemma_digits_run(s, a.whole_start());
    lemma_alike_digits_from(s, t, a.whole_start());
    if a.point_at() < s.len() {
        assert(s[a.point_at()] == t[a.point_at()] || (is_mark(s[a.point_at()]) && is_mark(
            t[a.point_at()],
        )));
    }
    if a.pointed {
        lemma_digits_run(s, a.fraction_start());
        lemma_alike_digits_from(s, t, a.fraction_start());
    }
    if a.mark_at() < s.len() {
        assert(s[a.mark_at()] == t[a.mark_at()] || (is_mark(s[a.mark_at()]) && is_mark(
            t[a.mark_at()],
        )));
    }
    if a.marked && a.mark_at() + 1 < s.len() {
        assert(s[a.mark_at() + 1] == t[a.mark_at() + 1] || (is_mark(s[a.mark_at() + 1])
            && is_mark(t[a.mark_at() + 1])));
    }
    if a.marked {
        lemma_digits_run(s, a.exponent_start());
        lemma_alike_digits_from(s, t, a.exponent_start());
    }
    assert(shape_of(s) == shape_of(t));
    if is_literal(s) {
        assert(alike(mantissa(s), mantissa(t))) by {
            assert forall|i: int| 0 <= i < mantissa(s).len() implies #[trigger] mantissa(s)[i]
                == mantissa(t)[i] || (is_mark(mantissa(s)[i]) && is_mark(mantissa(t)[i])) by {
                if i < a.whole {
                    assert(s[a.whole_start() + i] == t[a.whole_start() + i] || (is_mark(
                        s[a.whole_start() + i],
                    ) && is_mark(t[a.whole_start() + i])));
                } else {
                    let at = a.fraction_start() + i - a.whole;
                    assert(s[at] == t[at] || (is_mark(s[at]) && is_mark(t[at])));
                }
            }
        }
        lemma_alike_number(mantissa(s), mantissa(t));
        let es = s.subrange(a.exponent_start(), a.end());
        let et = t.subrange(a.exponent_start(), a.end());
        assert(alike(es, et)) by {
            assert forall|i: int| 0 <= i < es.len() implies #[trigger] es[i] == et[i] || (is_mark(
                es[i],
            ) && is_mark(et[i])) by {
                let at = a.exponent_start() + i;
                assert(s[at] == t[at] || (is_mark(s[at]) && is_mark(t[at])));
            }
        }
        lemma_alike_number(es, et);
    }
}

/// A literal stays the same literal when its comma becomes a point.
pub proof fn lemma_normalized_literal(s: Seq<char>)
    requires
        is_literal(s),
    ensures
        is_literal(normalized(s)),
        coefficient(normalized(s)) == coefficient(s),
        exponent(normalized(s)) == exponent(s),
        is_negative(normalized(s)) == is_negative(s),
        out_of_range(normalized(s)) == out_of_range(s),
        forall|i: int| 0 <= i < s.len() ==> #[trigger] normalized(s)[i] != ',',
{
    lemma_alike_literals(s, normalized(s));
}

/// What was read reads as itself: the literal that parsing hands on is
/// accepted again, unchanged.
pub proof fn lemma_parsed_reads_as_itself(s: Seq<char>)
    requires
        parsed(s) is Ok,
    ensures
        parsed(parsed(s)->Ok_0) == parsed(s),
{
    lemma_normalized_literal(s);
    assert(normalized(normalized(s)) =~= normalized(s));
}

/// A literal without an exponent and with at most 308 digits before the
/// mark is in range.
pub proof fn lemma_plain_literal_in_range(s: Seq<char>)
    requires
        is_literal(s),
        !shape_of(s).marked,
        shape_of(s).whole <= 308,
    ensures
        !out_of_range(s),
{
    let shape = shape_of(s);
    let limit = binary64_limit();
    lemma_limit_order();
    lemma_number_of_below(mantissa(s));
    assert(s.subrange(shape.exponent_start(), shape.end()) =~= Seq::<char>::empty());
    assert(exponent(s) == -shape.fraction);
    lemma_pow_increases(10, shape.whole + shape.fraction, 308 + shape.fraction);
    if shape.fraction == 0 {
        assert(coefficient(s) * pow(10, 0) == coefficient(s)) by {
            reveal(pow);
        }
    } else {
        let scale = pow(10, shape.fraction);
        lemma_pow_positive(10, shape.fraction);
        lemma_pow_adds(10, 308, shape.fraction);
        assert(pow(10, 308) * scale <= limit * scale) by (nonlinear_arith)
            requires
                pow(10, 308) <= limit,
                scale > 0,
        ;
    }
}

/// A number as the page wrote it: a literal in the range of binary64, with a
/// point for its decimal mark.
#[derive(Debug)]
pub struct Decimal {
    text: String,
}

impl View for Decimal {
    type V = Seq<char>;

    closed spec fn view(&self) -> Seq<char> {
        self.text@
    }
}

impl Decimal {
    #[verifier::type_invariant]
    spec fn well_formed(&self) -> bool {
        &&& is_literal(self.text@)
        &&& !out_of_range(self.text@)
        &&& forall|i: int| 0 <= i < self.text@.len() ==> #[trigger] self.text@[i] != ','
    }

    /// The literal, which is in range and has no comma.
    pub fn as_str(&self) -> (text: &str)
        ensures
            text@ == self@,
            is_literal(text@),
            !out_of_range(text@),
            forall|i: int| 0 <= i < text@.len() ==> #[trigger] text@[i] != ',',
    {
        proof {
            use_type_invariant(self);
        }
        self.text.as_str()
    }

    /// Whether the literal starts with a minus sign.
    pub fn is_negative(&self) -> (negative: bool)
        ensures
            negative == is_negative(self@),
    {
        proof {
            use_type_invariant(self);
            lemma_literal_characters(self.text@);
        }
        let text = self.text.as_str();
        text.get_ascii(0) == 45
    }
}

impl Clone for Decimal {
    fn clone(&self) -> (copy: Self)
        ensures
            copy@ == self@,
    {
        proof {
            use_type_invariant(self);
        }
        Decimal { text: self.text.clone() }
    }
}

/// Reads a trimmed text as a number.
pub fn parse(text: &str) -> (result: Result<Decimal, NumberError>)
    ensures
        match result {
            Ok(number) => parsed(text@) == Ok::<Seq<char>, NumberError>(number@),
            Err(error) => parsed(text@) == Err::<Seq<char>, NumberError>(error),
        },
{
    broadcast use is_ascii_spec_bytes;

    if text.is_empty() {
        return Err(NumberError::Empty);
    }
    if !text.is_ascii() {
        proof {
            if is_literal(text@) {
                lemma_literal_characters(text@);
            }
        }
        return Err(NumberError::Invalid);
    }
    let bytes = text.as_bytes();
    assert(text_of(bytes@) =~= text@);
    let layout = lay_out(bytes);
    let size = bytes.len();
    let whole = layout.point_at - layout.whole_start;
    let fraction = layout.mark_at - layout.fraction_start;
    if (whole == 0 && fraction == 0) || (layout.marked && layout.end == layout.exponent_start)
        || layout.end != size {
        return Err(NumberError::Invalid);
    }
    if exceeds_range(bytes, &layout) {
        return Err(NumberError::OutOfRange);
    }
    proof {
        lemma_literal_characters(text@);
        lemma_normalized_literal(text@);
    }
    let comma = layout.point_at < layout.fraction_start && bytes[layout.point_at] == 44;
    let out = if comma {
        let mut out = text.substring_ascii(0, layout.point_at).to_owned();
        out.append(".");
        out.append(text.substring_ascii(layout.fraction_start, size));
        proof {
            reveal_strlit(".");
            assert(out@ =~= normalized(text@));
        }
        out
    } else {
        proof {
            assert(text@ =~= normalized(text@));
        }
        text.to_owned()
    };
    Ok(Decimal { text: out })
}

} // verus!

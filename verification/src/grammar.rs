//! The grammar of decimal literals, part by part.
//!
//! A literal is a sign, digits, a decimal mark with digits, and an exponent,
//! in this order; most of them may be left out. The two laws of this file
//! say that the texts composed in this way are the literals that the parser
//! reads, and that each denotes the number that its parts spell.

use vstd::prelude::*;
use crate::digits::{is_digit, number_of};
use crate::numeric::{
    coefficient, digits_from, exponent, is_exponent_mark, is_literal, is_mark, is_negative,
    is_sign, lemma_digits_run, lemma_literal_characters, lemma_plain_literal_in_range, mantissa,
    normalized, parsed, shape_of, NumberError,
};

verus! {

/// The parts of a literal, each as the characters it is written with.
pub struct Parts {
    /// Nothing, or one sign.
    pub sign: Seq<char>,
    /// The digits before the mark.
    pub whole: Seq<char>,
    /// Nothing, or the decimal mark.
    pub mark: Seq<char>,
    /// The digits after the mark.
    pub fraction: Seq<char>,
    /// Nothing, or the letter that starts the exponent.
    pub exponent_mark: Seq<char>,
    /// Nothing, or the sign of the exponent.
    pub exponent_sign: Seq<char>,
    /// The digits of the exponent.
    pub exponent: Seq<char>,
}

pub open spec fn digits_only(s: Seq<char>) -> bool {
    forall|i: int| 0 <= i < s.len() ==> is_digit(#[trigger] s[i])
}

impl Parts {
    /// The parts in one text.
    pub open spec fn text(self) -> Seq<char> {
        self.sign + self.whole + self.mark + self.fraction + self.exponent_mark
            + self.exponent_sign + self.exponent
    }

    /// Whether the parts are those of a literal: there is a digit before or
    /// after the mark, digits after the mark only where there is a mark, and
    /// an exponent of at least one digit where there is an exponent at all.
    pub open spec fn well_formed(self) -> bool {
        &&& self.sign.len() <= 1
        &&& self.sign.len() == 1 ==> is_sign(self.sign[0])
        &&& digits_only(self.whole)
        &&& self.mark.len() <= 1
        &&& self.mark.len() == 1 ==> is_mark(self.mark[0])
        &&& digits_only(self.fraction)
        &&& self.fraction.len() > 0 ==> self.mark.len() == 1
        &&& self.whole.len() + self.fraction.len() > 0
        &&& self.exponent_mark.len() <= 1
        &&& self.exponent_mark.len() == 1 ==> is_exponent_mark(self.exponent_mark[0])
        &&& self.exponent_sign.len() <= 1
        &&& self.exponent_sign.len() == 1 ==> is_sign(self.exponent_sign[0])
        &&& digits_only(self.exponent)
        &&& if self.exponent_mark.len() == 1 {
            self.exponent.len() > 0
        } else {
            self.exponent_sign.len() == 0 && self.exponent.len() == 0
        }
    }

    /// Whether the literal has a minus sign.
    pub open spec fn negative(self) -> bool {
        self.sign.len() == 1 && self.sign[0] == '-'
    }

    /// The exponent that the parts spell, zero where there is none.
    pub open spec fn spelled_exponent(self) -> int {
        if self.exponent_sign.len() == 1 && self.exponent_sign[0] == '-' {
            -(number_of(self.exponent) as int)
        } else {
            number_of(self.exponent) as int
        }
    }
}

/// The parts that a text falls into when it is read from the left.
pub open spec fn parts_of(s: Seq<char>) -> Parts {
    let shape = shape_of(s);
    Parts {
        sign: s.subrange(0, shape.whole_start()),
        whole: s.subrange(shape.whole_start(), shape.point_at()),
        mark: s.subrange(shape.point_at(), shape.fraction_start()),
        fraction: s.subrange(shape.fraction_start(), shape.mark_at()),
        exponent_mark: s.subrange(shape.mark_at(), shape.mark_at() + if shape.marked {
            1int
        } else {
            0int
        }),
        exponent_sign: s.subrange(
            shape.mark_at() + if shape.marked {
                1int
            } else {
                0int
            },
            shape.exponent_start(),
        ),
        exponent: s.subrange(shape.exponent_start(), shape.end()),
    }
}

/// A run of digits that ends before a character that is no digit, or at the
/// end of the text, is counted in full.
proof fn lemma_digits_counted(s: Seq<char>, from: int, count: nat)
    requires
        0 <= from,
        from + count <= s.len(),
        forall|i: int| from <= i < from + count ==> is_digit(#[trigger] s[i]),
        from + count < s.len() ==> !is_digit(s[from + count]),
    ensures
        digits_from(s, from) == count,
    decreases count,
{
    if count > 0 {
        assert(is_digit(s[from]));
        lemma_digits_counted(s, from + 1, (count - 1) as nat);
    }
}

/// Every text composed of the parts of a literal is a literal, and it
/// denotes the number that its parts spell: the digits before and after the
/// mark as the coefficient, and the spelled exponent less the number of
/// digits after the mark as the exponent.
pub proof fn lemma_composed_is_literal(parts: Parts)
    requires
        parts.well_formed(),
    ensures
        is_literal(parts.text()),
        is_negative(parts.text()) == parts.negative(),
        coefficient(parts.text()) == number_of(parts.whole + parts.fraction),
        exponent(parts.text()) == parts.spelled_exponent() - parts.fraction.len(),
        parts_of(parts.text()) == parts,
{
    let s = parts.text();
    let a = parts.sign.len() as int;
    let b = a + parts.whole.len();
    let c = b + parts.mark.len();
    let d = c + parts.fraction.len();
    let e = d + parts.exponent_mark.len();
    let f = e + parts.exponent_sign.len();
    let g = f + parts.exponent.len();
    assert(s.len() == g);
    assert forall|i: int| 0 <= i < g implies #[trigger] s[i] == (if i < a {
        parts.sign[i]
    } else if i < b {
        parts.whole[i - a]
    } else if i < c {
        parts.mark[i - b]
    } else if i < d {
        parts.fraction[i - c]
    } else if i < e {
        parts.exponent_mark[i - d]
    } else if i < f {
        parts.exponent_sign[i - e]
    } else {
        parts.exponent[i - f]
    }) by {}
    assert(forall|i: int| a <= i < b ==> is_digit(#[trigger] s[i])) by {
        assert forall|i: int| a <= i < b implies is_digit(#[trigger] s[i]) by {
            assert(is_digit(parts.whole[i - a]));
        }
    }
    assert(forall|i: int| c <= i < d ==> is_digit(#[trigger] s[i])) by {
        assert forall|i: int| c <= i < d implies is_digit(#[trigger] s[i]) by {
            assert(is_digit(parts.fraction[i - c]));
        }
    }
    assert(forall|i: int| f <= i < g ==> is_digit(#[trigger] s[i])) by {
        assert forall|i: int| f <= i < g implies is_digit(#[trigger] s[i]) by {
            assert(is_digit(parts.exponent[i - f]));
        }
    }
    if a == 0 {
        if b > 0 {
            assert(is_digit(s[0]));
        }
    }
    if b < g {
        assert(!is_digit(s[b])) by {
            if c > b {
            } else if e > d {
            }
        }
    }
    lemma_digits_counted(s, a, parts.whole.len());
    if c > b {
        if d < g {
            assert(!is_digit(s[d]));
        }
        lemma_digits_counted(s, c, parts.fraction.len());
    }
    if e > d {
        if f == e {
            assert(is_digit(s[e]));
        }
        lemma_digits_counted(s, f, parts.exponent.len());
    }
    let shape = shape_of(s);
    assert(shape.whole_start() == a);
    assert(shape.point_at() == b);
    assert(shape.fraction_start() == c);
    assert(shape.mark_at() == d);
    assert(shape.exponent_start() == f);
    assert(shape.end() == g);
    assert(mantissa(s) =~= parts.whole + parts.fraction);
    assert(s.subrange(f, g) =~= parts.exponent);
    let found = parts_of(s);
    assert(found.sign =~= parts.sign);
    assert(found.whole =~= parts.whole);
    assert(found.mark =~= parts.mark);
    assert(found.fraction =~= parts.fraction);
    assert(found.exponent_mark =~= parts.exponent_mark);
    assert(found.exponent_sign =~= parts.exponent_sign);
    assert(found.exponent =~= parts.exponent);
}

/// A text composed of a sign, at most 308 digits, and a mark with digits is
/// read, and what is read is the text with a point for its mark.
pub proof fn lemma_composed_plain_is_read(parts: Parts)
    requires
        parts.well_formed(),
        parts.exponent_mark.len() == 0,
        parts.whole.len() <= 308,
    ensures
        parsed(parts.text()) == Ok::<Seq<char>, NumberError>(normalized(parts.text())),
{
    lemma_composed_is_literal(parts);
    let found = parts_of(parts.text());
    assert(found.whole.len() == parts.whole.len());
    assert(found.exponent_mark.len() == 0);
    lemma_plain_literal_in_range(parts.text());
}

/// Every literal is composed of the parts that it falls into, and they are
/// the parts of a literal.
pub proof fn lemma_literal_is_composed(s: Seq<char>)
    requires
        is_literal(s),
    ensures
        parts_of(s).well_formed(),
        parts_of(s).text() == s,
{
    let shape = shape_of(s);
    let parts = parts_of(s);
    lemma_literal_characters(s);
    assert(parts.text() =~= s);
    assert(digits_only(parts.whole) && digits_only(parts.fraction) && digits_only(parts.exponent))
        by {
        lemma_digits_run(s, shape.whole_start());
        if shape.pointed {
            lemma_digits_run(s, shape.fraction_start());
        }
        if shape.marked {
            lemma_digits_run(s, shape.exponent_start());
        }
    }
}

} // verus!

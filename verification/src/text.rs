//! Text operations of the standard library that the page's labels and values
//! pass through.

use vstd::prelude::*;

verus! {

/// Whether a character has the Unicode property White_Space: the controls
/// from tab to carriage return, the space, next line, the no-break space,
/// the ogham space mark, the spaces from en quad to hair space, the line and
/// paragraph separators, the narrow no-break space, the medium mathematical
/// space and the ideographic space.
pub open spec fn is_white_space(c: char) -> bool {
    ||| '\u{0009}' <= c <= '\u{000D}'
    ||| c == '\u{0020}'
    ||| c == '\u{0085}'
    ||| c == '\u{00A0}'
    ||| c == '\u{1680}'
    ||| '\u{2000}' <= c <= '\u{200A}'
    ||| c == '\u{2028}'
    ||| c == '\u{2029}'
    ||| c == '\u{202F}'
    ||| c == '\u{205F}'
    ||| c == '\u{3000}'
}

/// How many characters of white space a text starts with.
pub open spec fn white_start(text: Seq<char>) -> nat
    decreases text.len(),
{
    if text.len() > 0 && is_white_space(text.first()) {
        1 + white_start(text.drop_first())
    } else {
        0
    }
}

/// How many characters of white space a text ends with.
pub open spec fn white_end(text: Seq<char>) -> nat
    decreases text.len(),
{
    if text.len() > 0 && is_white_space(text.last()) {
        1 + white_end(text.drop_last())
    } else {
        0
    }
}

/// A text without the white space at its two ends.
pub open spec fn trimmed(text: Seq<char>) -> Seq<char> {
    let rest = text.skip(white_start(text) as int);
    rest.take(rest.len() - white_end(rest))
}

/// A text with each character in lower case.
pub uninterp spec fn lowercased(text: Seq<char>) -> Seq<char>;

/// `str::trim` hands back the part of the text between its leading and its
/// trailing white space, where white space is what has the Unicode property
/// White_Space. Nothing is proved of it.
pub assume_specification[ str::trim ](text: &str) -> (out: &str)
    ensures
        out@ == trimmed(text@),
;

/// `str::to_lowercase` hands back the text in lower case. Nothing is proved
/// of it: `lowercased` names the result.
pub assume_specification[ str::to_lowercase ](text: &str) -> (out: String)
    ensures
        out@ == lowercased(text@),
;

/// The white space at the start of a text is white space, lies within the
/// text, and ends before a character that is none.
pub proof fn lemma_white_start(text: Seq<char>)
    ensures
        white_start(text) <= text.len(),
        forall|i: int| 0 <= i < white_start(text) ==> is_white_space(#[trigger] text[i]),
        white_start(text) < text.len() ==> !is_white_space(text[white_start(text) as int]),
    decreases text.len(),
{
    if text.len() > 0 && is_white_space(text.first()) {
        let rest = text.drop_first();
        lemma_white_start(rest);
        assert forall|i: int| 0 <= i < white_start(text) implies is_white_space(
            #[trigger] text[i],
        ) by {
            if i > 0 {
                assert(text[i] == rest[i - 1]);
            }
        }
        if white_start(text) < text.len() {
            assert(text[white_start(text) as int] == rest[white_start(rest) as int]);
        }
    }
}

/// The white space at the end of a text is white space, lies within the
/// text, and starts after a character that is none.
pub proof fn lemma_white_end(text: Seq<char>)
    ensures
        white_end(text) <= text.len(),
        forall|i: int|
            text.len() - white_end(text) <= i < text.len() ==> is_white_space(#[trigger] text[i]),
        white_end(text) < text.len() ==> !is_white_space(text[text.len() - white_end(text) - 1]),
    decreases text.len(),
{
    if text.len() > 0 && is_white_space(text.last()) {
        let rest = text.drop_last();
        lemma_white_end(rest);
        assert forall|i: int| text.len() - white_end(text) <= i < text.len() implies is_white_space(
            #[trigger] text[i],
        ) by {
            if i < text.len() - 1 {
                assert(text[i] == rest[i]);
            }
        }
        if white_end(text) < text.len() {
            assert(text[text.len() - white_end(text) - 1] == rest[rest.len() - white_end(rest)
                - 1]);
        }
    }
}

/// A trimmed text is the part of the text between two positions; what lies
/// before and after is white space, and the part neither starts nor ends
/// with white space.
pub proof fn lemma_trimmed_is_the_middle(text: Seq<char>)
    ensures
        ({
            let from = white_start(text) as int;
            let to = from + trimmed(text).len();
            &&& 0 <= from <= to <= text.len()
            &&& trimmed(text) == text.subrange(from, to)
            &&& forall|i: int| 0 <= i < from ==> is_white_space(#[trigger] text[i])
            &&& forall|i: int| to <= i < text.len() ==> is_white_space(#[trigger] text[i])
            &&& trimmed(text).len() > 0 ==> !is_white_space(trimmed(text).first())
                && !is_white_space(trimmed(text).last())
        }),
{
    let from = white_start(text) as int;
    lemma_white_start(text);
    let rest = text.skip(from);
    lemma_white_end(rest);
    let to = from + trimmed(text).len();
    assert(trimmed(text) =~= text.subrange(from, to));
    assert forall|i: int| to <= i < text.len() implies is_white_space(#[trigger] text[i]) by {
        assert(text[i] == rest[i - from]);
    }
    if trimmed(text).len() > 0 {
        assert(trimmed(text).first() == text[from]);
        assert(trimmed(text).last() == rest[rest.len() - white_end(rest) - 1]);
    }
}

/// A text of white space alone is trimmed to nothing.
pub proof fn lemma_blank_is_trimmed_to_nothing(text: Seq<char>)
    requires
        forall|i: int| 0 <= i < text.len() ==> is_white_space(#[trigger] text[i]),
    ensures
        trimmed(text).len() == 0,
{
    lemma_trimmed_is_the_middle(text);
    if trimmed(text).len() > 0 {
        assert(trimmed(text).first() == text[white_start(text) as int]);
    }
}

/// A text that neither starts nor ends with white space is trimmed to
/// itself.
pub proof fn lemma_clean_is_trimmed_to_itself(text: Seq<char>)
    requires
        text.len() > 0 ==> !is_white_space(text.first()) && !is_white_space(text.last()),
    ensures
        trimmed(text) == text,
{
    assert(text.skip(0) =~= text);
    assert(text.take(text.len() as int) =~= text);
}

/// Trimming takes the white space off the two ends of a text that neither
/// starts nor ends with it.
pub proof fn lemma_trimmed_drops_the_ends(before: Seq<char>, middle: Seq<char>, after: Seq<char>)
    requires
        forall|i: int| 0 <= i < before.len() ==> is_white_space(#[trigger] before[i]),
        forall|i: int| 0 <= i < after.len() ==> is_white_space(#[trigger] after[i]),
        middle.len() > 0,
        !is_white_space(middle.first()),
        !is_white_space(middle.last()),
    ensures
        trimmed(before + middle + after) == middle,
{
    let text = before + middle + after;
    lemma_trimmed_is_the_middle(text);
    let from = white_start(text) as int;
    let to = from + trimmed(text).len();
    lemma_white_start(text);
    assert(text[before.len() as int] == middle.first());
    assert(text[before.len() + middle.len() - 1] == middle.last());
    if from < before.len() {
        assert(text[from] == before[from]);
    }
    assert(from == before.len());
    let end = before.len() + middle.len();
    if to > end {
        assert(trimmed(text).last() == text[to - 1]);
        assert(text[to - 1] == after[to - 1 - end]);
    }
    if to < end {
        assert(is_white_space(text[end - 1]));
    }
    assert(text.subrange(from, to) =~= middle);
}

} // verus!

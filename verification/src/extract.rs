//! From a parsed page to its fields.
//!
//! Each element that matches the row selector is one row. A row gives a
//! label, the first text of the first element that matches the name
//! selector, and a number, the first text of the first element that matches
//! the value selector. One row that gives no field fails the whole page.

use vstd::prelude::*;
use ::scraper::{ElementRef, Html, Selector};
use crate::dom::{
    document_matches, element_markup, element_matches, element_texts, markup_of,
    select_in_document, select_in_element, texts_of,
};
use crate::fields::RawFieldMap;
use crate::numeric::{parse, parsed, Decimal, NumberError};
use crate::text::{is_white_space, lemma_blank_is_trimmed_to_nothing, lowercased, trimmed};

verus! {

/// What is wrong with a row.
#[derive(Clone, Copy, Debug, PartialEq, Eq, Structural)]
pub enum Fault {
    /// No element matches the name selector.
    NameMissing,
    /// The name element holds no text.
    NameEmpty,
    /// No element matches the value selector.
    ValueMissing,
    /// The value element holds no text.
    ValueEmpty,
    /// The value is no number.
    ValueInvalid(NumberError),
}

/// Why a page gave no fields: the first row at fault, by its markup.
#[derive(Debug)]
pub struct ExtractionError {
    pub fault: Fault,
    pub row: String,
}

/// An extraction error with the markup as a sequence of characters.
pub struct ExtractionFailure {
    pub fault: Fault,
    pub row: Seq<char>,
}

impl View for ExtractionError {
    type V = ExtractionFailure;

    open spec fn view(&self) -> ExtractionFailure {
        ExtractionFailure { fault: self.fault, row: self.row@ }
    }
}

/// What a selector finds below a row.
pub enum Found {
    /// No element matches the selector.
    NoElement,
    /// The first element that matches holds no text.
    NoText,
    /// The first text of the first element that matches.
    Text(Seq<char>),
}

/// What a selector finds below a row, with the text as a string.
#[derive(Debug)]
pub enum Sought {
    NoElement,
    NoText,
    Text(String),
}

impl View for Sought {
    type V = Found;

    open spec fn view(&self) -> Found {
        match self {
            Sought::NoElement => Found::NoElement,
            Sought::NoText => Found::NoText,
            Sought::Text(text) => Found::Text(text@),
        }
    }
}

/// The first text of the first element below `row` that matches `selector`.
pub open spec fn sought(row: ElementRef, selector: Selector) -> Found {
    let found = element_matches(row, selector);
    if found.len() == 0 {
        Found::NoElement
    } else if element_texts(found[0]).len() == 0 {
        Found::NoText
    } else {
        Found::Text(element_texts(found[0])[0])
    }
}

/// The field that a name and a value make: the name trimmed and in lower
/// case, with the literal of the trimmed value. The name is looked at first.
pub open spec fn field_of(name: Found, value: Found) -> Result<(Seq<char>, Seq<char>), Fault> {
    match name {
        Found::NoElement => Err(Fault::NameMissing),
        Found::NoText => Err(Fault::NameEmpty),
        Found::Text(label) => match value {
            Found::NoElement => Err(Fault::ValueMissing),
            Found::NoText => Err(Fault::ValueEmpty),
            Found::Text(number) => match parsed(trimmed(number)) {
                Err(reason) => Err(Fault::ValueInvalid(reason)),
                Ok(literal) => Ok((lowercased(trimmed(label)), literal)),
            },
        },
    }
}

/// The field of a row under the selectors of its name and its value.
pub open spec fn row_field(row: ElementRef, name: Selector, value: Selector) -> Result<
    (Seq<char>, Seq<char>),
    Fault,
> {
    field_of(sought(row, name), sought(row, value))
}

/// The fields of rows taken in order, a later row replacing an earlier one
/// of the same label; or the fault of the first row that has one.
pub open spec fn rows_fields(rows: Seq<ElementRef<'static>>, name: Selector, value: Selector) -> Result<
    Map<Seq<char>, Seq<char>>,
    ExtractionFailure,
>
    decreases rows.len(),
{
    if rows.len() == 0 {
        Ok(Map::empty())
    } else {
        match rows_fields(rows.drop_last(), name, value) {
            Err(failure) => Err(failure),
            Ok(fields) => match row_field(rows.last(), name, value) {
                Err(fault) => Err(ExtractionFailure { fault, row: element_markup(rows.last()) }),
                Ok((label, literal)) => Ok(fields.insert(label, literal)),
            },
        }
    }
}

/// The fields of a document under three selectors.
pub open spec fn document_fields(document: Html, row: Selector, name: Selector, value: Selector) -> Result<
    Map<Seq<char>, Seq<char>>,
    ExtractionFailure,
> {
    rows_fields(document_matches(document, row), name, value)
}

/// Whether an extraction gave what the model says.
pub open spec fn extraction_is(
    result: Result<RawFieldMap, ExtractionError>,
    model: Result<Map<Seq<char>, Seq<char>>, ExtractionFailure>,
) -> bool {
    match result {
        Ok(fields) => model == Ok::<Map<Seq<char>, Seq<char>>, ExtractionFailure>(fields@),
        Err(error) => model == Err::<Map<Seq<char>, Seq<char>>, ExtractionFailure>(error@),
    }
}

/// Finds the first text of the first element below `row` that matches
/// `selector`.
fn seek(row: &ElementRef, selector: &Selector) -> (found: Sought)
    ensures
        found@ == sought(*row, *selector),
{
    let elements = select_in_element(row, selector);
    if elements.len() == 0 {
        return Sought::NoElement;
    }
    let mut texts = texts_of(&elements[0]);
    if texts.len() == 0 {
        return Sought::NoText;
    }
    assert(texts.deep_view()[0] == texts@[0]@);
    Sought::Text(texts.swap_remove(0))
}

/// Makes a field of what was found for its name and for its value.
pub fn read_field(name: &Sought, value: &Sought) -> (field: Result<(String, Decimal), Fault>)
    ensures
        match field {
            Ok((label, number)) => field_of(name@, value@) == Ok::<(Seq<char>, Seq<char>), Fault>(
                (label@, number@),
            ),
            Err(fault) => field_of(name@, value@) == Err::<(Seq<char>, Seq<char>), Fault>(fault),
        },
{
    let label = match name {
        Sought::NoElement => {
            return Err(Fault::NameMissing);
        },
        Sought::NoText => {
            return Err(Fault::NameEmpty);
        },
        Sought::Text(text) => text.as_str().trim().to_lowercase(),
    };
    match value {
        Sought::NoElement => Err(Fault::ValueMissing),
        Sought::NoText => Err(Fault::ValueEmpty),
        Sought::Text(text) => match parse(text.as_str().trim()) {
            Ok(number) => Ok((label, number)),
            Err(reason) => Err(Fault::ValueInvalid(reason)),
        },
    }
}

/// Reads the field of one row.
fn read_row(row: &ElementRef, name: &Selector, value: &Selector) -> (field: Result<
    (String, Decimal),
    Fault,
>)
    ensures
        match field {
            Ok((label, number)) => row_field(*row, *name, *value) == Ok::<
                (Seq<char>, Seq<char>),
                Fault,
            >((label@, number@)),
            Err(fault) => row_field(*row, *name, *value) == Err::<(Seq<char>, Seq<char>), Fault>(
                fault,
            ),
        },
{
    let label = seek(row, name);
    let number = seek(row, value);
    read_field(&label, &number)
}

/// Reads the fields of a document: one for each element that matches `row`.
/// The first row that gives no field fails the extraction, and no map is
/// returned.
pub fn extract_fields(document: &Html, row: &Selector, name: &Selector, value: &Selector) -> (result:
    Result<RawFieldMap, ExtractionError>)
    ensures
        extraction_is(result, document_fields(*document, *row, *name, *value)),
{
    let rows = select_in_document(document, row);
    let mut fields = RawFieldMap::new();
    let mut at: usize = 0;
    while at < rows.len()
        invariant
            at <= rows.len(),
            rows@ == document_matches(*document, *row),
            rows_fields(rows@.take(at as int), *name, *value) == Ok::<
                Map<Seq<char>, Seq<char>>,
                ExtractionFailure,
            >(fields@),
        decreases rows.len() - at,
    {
        proof {
            assert(rows@.take(at + 1).drop_last() =~= rows@.take(at as int));
            assert(rows@.take(at + 1).last() == rows@[at as int]);
        }
        match read_row(&rows[at], name, value) {
            Ok((label, number)) => {
                fields.insert(label, number);
            },
            Err(fault) => {
                let error = ExtractionError { fault, row: markup_of(&rows[at]) };
                proof {
                    lemma_fault_stays(rows@, at + 1, *name, *value);
                }
                return Err(error);
            },
        }
        at += 1;
    }
    proof {
        assert(rows@.take(at as int) =~= rows@);
    }
    Ok(fields)
}

/// Once some rows have failed, more rows fail in the same way.
proof fn lemma_fault_stays(rows: Seq<ElementRef<'static>>, count: int, name: Selector, value: Selector)
    requires
        0 <= count <= rows.len(),
        rows_fields(rows.take(count), name, value) is Err,
    ensures
        rows_fields(rows, name, value) == rows_fields(rows.take(count), name, value),
    decreases rows.len() - count,
{
    if count < rows.len() {
        assert(rows.take(count + 1).drop_last() =~= rows.take(count));
        lemma_fault_stays(rows, count + 1, name, value);
    } else {
        assert(rows.take(count) =~= rows);
    }
}

/// The first row at fault fails the extraction, with its fault and its
/// markup.
pub proof fn lemma_first_fault_fails(
    rows: Seq<ElementRef<'static>>,
    name: Selector,
    value: Selector,
    at: int,
)
    requires
        0 <= at < rows.len(),
        forall|i: int| 0 <= i < at ==> row_field(#[trigger] rows[i], name, value) is Ok,
        row_field(rows[at], name, value) is Err,
    ensures
        rows_fields(rows, name, value) == Err::<Map<Seq<char>, Seq<char>>, ExtractionFailure>(
            ExtractionFailure {
                fault: row_field(rows[at], name, value)->Err_0,
                row: element_markup(rows[at]),
            },
        ),
{
    let sound = rows.take(at);
    assert forall|i: int| 0 <= i < sound.len() implies row_field(
        #[trigger] sound[i],
        name,
        value,
    ) is Ok by {
        assert(sound[i] == rows[i]);
    }
    lemma_sound_rows_succeed(sound, name, value);
    assert(rows.take(at + 1).drop_last() =~= sound);
    assert(rows.take(at + 1).last() == rows[at]);
    lemma_fault_stays(rows, at + 1, name, value);
}

/// Rows that each give a field give fields.
pub proof fn lemma_sound_rows_succeed(rows: Seq<ElementRef<'static>>, name: Selector, value: Selector)
    requires
        forall|i: int| 0 <= i < rows.len() ==> row_field(#[trigger] rows[i], name, value) is Ok,
    ensures
        rows_fields(rows, name, value) is Ok,
    decreases rows.len(),
{
    if rows.len() > 0 {
        let front = rows.drop_last();
        assert forall|i: int| 0 <= i < front.len() implies row_field(
            #[trigger] front[i],
            name,
            value,
        ) is Ok by {
            assert(front[i] == rows[i]);
        }
        lemma_sound_rows_succeed(front, name, value);
        assert(rows.last() == rows[rows.len() - 1]);
    }
}

/// A row without an element for its value fails the extraction: no fields
/// are returned.
pub proof fn lemma_row_without_value_fails(
    rows: Seq<ElementRef<'static>>,
    name: Selector,
    value: Selector,
    at: int,
)
    requires
        0 <= at < rows.len(),
        sought(rows[at], value) is NoElement,
    ensures
        rows_fields(rows, name, value) is Err,
    decreases rows.len(),
{
    assert(row_field(rows[at], name, value) is Err);
    if at == rows.len() - 1 {
        assert(rows.last() == rows[at]);
    } else {
        let front = rows.drop_last();
        assert(front[at] == rows[at]);
        lemma_row_without_value_fails(front, name, value, at);
    }
}

/// A value of white space alone fails its row as an empty number, whatever
/// its name is.
pub proof fn lemma_blank_value_fails(name: Seq<char>, value: Seq<char>)
    requires
        forall|i: int| 0 <= i < value.len() ==> is_white_space(#[trigger] value[i]),
    ensures
        field_of(Found::Text(name), Found::Text(value)) == Err::<(Seq<char>, Seq<char>), Fault>(
            Fault::ValueInvalid(NumberError::Empty),
        ),
{
    lemma_blank_is_trimmed_to_nothing(value);
}

/// The label that a row gives.
pub open spec fn row_label(row: ElementRef, name: Selector, value: Selector) -> Seq<char> {
    row_field(row, name, value)->Ok_0.0
}

/// The literal that a row gives.
pub open spec fn row_literal(row: ElementRef, name: Selector, value: Selector) -> Seq<char> {
    row_field(row, name, value)->Ok_0.1
}

/// Rows that each give a field, no two of them the same label, give as many
/// fields as there are rows: each label, trimmed and in lower case, with the
/// literal of its row.
pub proof fn lemma_sound_rows_give_their_fields(
    rows: Seq<ElementRef<'static>>,
    name: Selector,
    value: Selector,
)
    requires
        forall|i: int| 0 <= i < rows.len() ==> row_field(#[trigger] rows[i], name, value) is Ok,
        forall|i: int, j: int|
            0 <= i < j < rows.len() ==> row_label(#[trigger] rows[i], name, value) != row_label(
                #[trigger] rows[j],
                name,
                value,
            ),
    ensures
        rows_fields(rows, name, value) matches Ok(fields) && {
            &&& fields.dom().finite()
            &&& fields.len() == rows.len()
            &&& forall|i: int|
                0 <= i < rows.len() ==> {
                    &&& fields.contains_key(row_label(#[trigger] rows[i], name, value))
                    &&& fields[row_label(rows[i], name, value)] == row_literal(
                        rows[i],
                        name,
                        value,
                    )
                    &&& sought(rows[i], name) matches Found::Text(text) && row_label(
                        rows[i],
                        name,
                        value,
                    ) == lowercased(trimmed(text))
                }
            &&& forall|label: Seq<char>| #[trigger]
                fields.contains_key(label) ==> exists|i: int|
                    0 <= i < rows.len() && row_label(#[trigger] rows[i], name, value) == label
        },
    decreases rows.len(),
{
    if rows.len() > 0 {
        let front = rows.drop_last();
        let last = rows.last();
        assert(last == rows[rows.len() - 1]);
        assert forall|i: int| 0 <= i < front.len() implies row_field(
            #[trigger] front[i],
            name,
            value,
        ) is Ok by {
            assert(front[i] == rows[i]);
        }
        assert forall|i: int, j: int| 0 <= i < j < front.len() implies row_label(
            #[trigger] front[i],
            name,
            value,
        ) != row_label(#[trigger] front[j], name, value) by {
            assert(front[i] == rows[i] && front[j] == rows[j]);
        }
        lemma_sound_rows_give_their_fields(front, name, value);
        let before = rows_fields(front, name, value)->Ok_0;
        let label = row_label(last, name, value);
        let fields = rows_fields(rows, name, value)->Ok_0;
        assert(fields == before.insert(label, row_literal(last, name, value)));
        if before.contains_key(label) {
            let i = choose|i: int|
                0 <= i < front.len() && row_label(#[trigger] front[i], name, value) == label;
            assert(front[i] == rows[i]);
            assert(row_label(rows[i], name, value) != row_label(rows[rows.len() - 1], name, value));
        }
        assert forall|i: int| 0 <= i < rows.len() implies {
            &&& fields.contains_key(row_label(#[trigger] rows[i], name, value))
            &&& fields[row_label(rows[i], name, value)] == row_literal(rows[i], name, value)
        } by {
            if i < front.len() {
                assert(front[i] == rows[i]);
                assert(row_label(rows[i], name, value) != row_label(
                    rows[rows.len() - 1],
                    name,
                    value,
                ));
            }
        }
        assert forall|key: Seq<char>| #[trigger] fields.contains_key(key) implies exists|i: int|
            0 <= i < rows.len() && row_label(#[trigger] rows[i], name, value) == key by {
            if key == label {
                assert(row_label(rows[rows.len() - 1], name, value) == key);
            } else {
                let i = choose|i: int|
                    0 <= i < front.len() && row_label(#[trigger] front[i], name, value) == key;
                assert(front[i] == rows[i]);
            }
        }
    }
}

} // verus!

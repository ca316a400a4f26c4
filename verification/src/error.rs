//! What a scrape reports when it fails, in words.

use vstd::prelude::*;
use vstd::string::*;
use crate::extract::{ExtractionError, ExtractionFailure, Fault};
use crate::numeric::NumberError;
use crate::rates::{key_of, AssemblyError, Currency};

verus! {

/// A failed scrape: the page could not be had, or it could not be read.
#[derive(Debug)]
pub enum ScrapeError {
    Request(String),
    Parse(String),
}

/// A scrape error with its message as a sequence of characters.
pub enum ScrapeFailure {
    Request(Seq<char>),
    Parse(Seq<char>),
}

impl View for ScrapeError {
    type V = ScrapeFailure;

    open spec fn view(&self) -> ScrapeFailure {
        match self {
            ScrapeError::Request(message) => ScrapeFailure::Request(message@),
            ScrapeError::Parse(message) => ScrapeFailure::Parse(message@),
        }
    }
}

/// The character of a digit.
pub open spec fn digit_char(digit: nat) -> char {
    if digit == 0 {
        '0'
    } else if digit == 1 {
        '1'
    } else if digit == 2 {
        '2'
    } else if digit == 3 {
        '3'
    } else if digit == 4 {
        '4'
    } else if digit == 5 {
        '5'
    } else if digit == 6 {
        '6'
    } else if digit == 7 {
        '7'
    } else if digit == 8 {
        '8'
    } else {
        '9'
    }
}

/// A number in decimal digits, without leading zeros.
pub open spec fn decimal_text(number: nat) -> Seq<char>
    decreases number,
{
    if number < 10 {
        seq![digit_char(number)]
    } else {
        decimal_text(number / 10).push(digit_char(number % 10))
    }
}

/// The message of a scrape error as a whole.
pub open spec fn scrape_message(failure: ScrapeFailure) -> Seq<char> {
    match failure {
        ScrapeFailure::Request(message) => "[scrape error] request error: "@ + message,
        ScrapeFailure::Parse(message) => "[scrape error] parse error: "@ + message,
    }
}

/// The failure of a request that got no response.
pub open spec fn send_failure(reason: Seq<char>) -> ScrapeFailure {
    ScrapeFailure::Request("failed to send request: "@ + reason)
}

/// The failure of a response whose status is no success.
pub open spec fn status_failure(status: u16) -> ScrapeFailure {
    ScrapeFailure::Request("invalid request status response: "@ + decimal_text(status as nat))
}

/// The failure of a response whose body is no text.
pub open spec fn body_failure(reason: Seq<char>) -> ScrapeFailure {
    ScrapeFailure::Request("failed to parse request text: "@ + reason)
}

/// Why a text is no number, in words.
pub open spec fn number_message(reason: NumberError) -> Seq<char> {
    match reason {
        NumberError::Empty => "cannot parse float from empty string"@,
        NumberError::Invalid => "invalid float literal"@,
        NumberError::OutOfRange => "float literal out of range"@,
    }
}

/// The failure of a page with a row at fault. The message ends with the
/// markup of the row.
pub open spec fn extraction_failure(failure: ExtractionFailure) -> ScrapeFailure {
    ScrapeFailure::Parse(
        match failure.fault {
            Fault::NameMissing => "failed to find currency name for the following row: "@,
            Fault::NameEmpty => "currency name for the following row was empty: "@,
            Fault::ValueMissing => "failed to find currency value for the following row: "@,
            Fault::ValueEmpty => "currency value for the following row was empty: "@,
            Fault::ValueInvalid(reason) => "failed to parse currency value as float: "@
                + number_message(reason) + " in the following row: "@,
        } + failure.row,
    )
}

/// The names of currencies, each in backticks after a space.
pub open spec fn quoted_keys(currencies: Seq<Currency>) -> Seq<char>
    decreases currencies.len(),
{
    if currencies.len() == 0 {
        Seq::empty()
    } else {
        quoted_keys(currencies.drop_last()) + " `"@ + key_of(currencies.last()) + "`"@
    }
}

/// The failure of fields that lack currencies. The message names each.
pub open spec fn assembly_failure(missing: Seq<Currency>) -> ScrapeFailure {
    ScrapeFailure::Parse(
        "failed to map data to the dollar rates struct: missing field"@ + quoted_keys(missing),
    )
}

fn digit_text(digit: u64) -> (text: &'static str)
    requires
        digit < 10,
    ensures
        text@ == seq![digit_char(digit as nat)],
{
    proof {
        reveal_strlit("0");
        reveal_strlit("1");
        reveal_strlit("2");
        reveal_strlit("3");
        reveal_strlit("4");
        reveal_strlit("5");
        reveal_strlit("6");
        reveal_strlit("7");
        reveal_strlit("8");
        reveal_strlit("9");
    }
    let text = match digit {
        0 => "0",
        1 => "1",
        2 => "2",
        3 => "3",
        4 => "4",
        5 => "5",
        6 => "6",
        7 => "7",
        8 => "8",
        _ => "9",
    };
    assert(text@ =~= seq![digit_char(digit as nat)]);
    text
}

/// Writes a number after a text, in decimal digits.
pub(crate) fn append_decimal(text: &mut String, number: u64)
    ensures
        final(text)@ == old(text)@ + decimal_text(number as nat),
    decreases number,
{
    if number >= 10 {
        append_decimal(text, number / 10);
    }
    text.append(digit_text(number % 10));
    proof {
        let digit = seq![digit_char((number % 10) as nat)];
        if number >= 10 {
            assert(decimal_text(number as nat) =~= decimal_text((number / 10) as nat) + digit);
            assert(text@ =~= old(text)@ + decimal_text(number as nat));
        } else {
            assert(decimal_text(number as nat) =~= digit);
        }
    }
}

impl ScrapeError {
    /// The message, after the kind of the error.
    pub fn to_string(&self) -> (text: String)
        ensures
            text@ == scrape_message(self@),
    {
        match self {
            ScrapeError::Request(message) => {
                let mut text = "[scrape error] request error: ".to_owned();
                text.append(message.as_str());
                text
            },
            ScrapeError::Parse(message) => {
                let mut text = "[scrape error] parse error: ".to_owned();
                text.append(message.as_str());
                text
            },
        }
    }

    /// The request got no response; `reason` is what the transport said.
    pub fn send(reason: &str) -> (error: Self)
        ensures
            error@ == send_failure(reason@),
    {
        let mut message = "failed to send request: ".to_owned();
        message.append(reason);
        ScrapeError::Request(message)
    }

    /// The response had a status that is no success.
    pub fn status(status: u16) -> (error: Self)
        ensures
            error@ == status_failure(status),
    {
        let mut message = "invalid request status response: ".to_owned();
        append_decimal(&mut message, status as u64);
        ScrapeError::Request(message)
    }

    /// The body of the response was no text; `reason` is what the transport
    /// said.
    pub fn body(reason: &str) -> (error: Self)
        ensures
            error@ == body_failure(reason@),
    {
        let mut message = "failed to parse request text: ".to_owned();
        message.append(reason);
        ScrapeError::Request(message)
    }

    /// A row of the page was at fault.
    pub fn extraction(error: &ExtractionError) -> (scrape: Self)
        ensures
            scrape@ == extraction_failure(error@),
    {
        let mut message = match error.fault {
            Fault::NameMissing => "failed to find currency name for the following row: ".to_owned(),
            Fault::NameEmpty => "currency name for the following row was empty: ".to_owned(),
            Fault::ValueMissing => "failed to find currency value for the following row: ".to_owned(),
            Fault::ValueEmpty => "currency value for the following row was empty: ".to_owned(),
            Fault::ValueInvalid(reason) => {
                let mut message = "failed to parse currency value as float: ".to_owned();
                message.append(
                    match reason {
                        NumberError::Empty => "cannot parse float from empty string",
                        NumberError::Invalid => "invalid float literal",
                        NumberError::OutOfRange => "float literal out of range",
                    },
                );
                message.append(" in the following row: ");
                message
            },
        };
        message.append(error.row.as_str());
        ScrapeError::Parse(message)
    }

    /// The fields of the page lacked currencies.
    pub fn assembly(error: &AssemblyError) -> (scrape: Self)
        ensures
            scrape@ == assembly_failure(error.missing@),
    {
        let mut message = "failed to map data to the dollar rates struct: missing field".to_owned();
        let ghost start = message@;
        let mut at: usize = 0;
        while at < error.missing.len()
            invariant
                at <= error.missing.len(),
                message@ == start + quoted_keys(error.missing@.take(at as int)),
            decreases error.missing.len() - at,
        {
            proof {
                assert(error.missing@.take(at + 1).drop_last() =~= error.missing@.take(at as int));
                assert(error.missing@.take(at + 1).last() == error.missing@[at as int]);
            }
            message.append(" `");
            message.append(error.missing[at].key());
            message.append("`");
            at += 1;
            assert(message@ =~= start + quoted_keys(error.missing@.take(at as int)));
        }
        proof {
            assert(error.missing@.take(at as int) =~= error.missing@);
        }
        ScrapeError::Parse(message)
    }
}

} // verus!

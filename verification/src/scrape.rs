//! One scrape, from what the request brought to the cache: the status of
//! the response, the rows of the page, the record, the snapshot.

use vstd::prelude::*;
use vstd::string::*;
use ::scraper::Selector;
use crate::cache::{written, Capture, Snapshot, SnapshotCache};
use crate::dom::{document_of, parse_document, parse_selector, selector_of};
use crate::error::{
    assembly_failure, body_failure, extraction_failure, send_failure, status_failure, ScrapeError,
    ScrapeFailure,
};
use crate::extract::{
    document_fields, extract_fields, extraction_is, ExtractionError, ExtractionFailure,
};
use crate::fields::RawFieldMap;
use crate::rates::{assemble, assembled, DollarRates, Rates};
use crate::util::{current_time_millis, shown_by_clock};

verus! {

/// Whether a status is a success: one of the codes from 200 to 299.
pub open spec fn is_success(status: u16) -> bool {
    200 <= status < 300
}

/// What one request brought.
#[derive(Debug)]
pub enum Fetched {
    /// No response; the text says why.
    Failed(String),
    /// A response with its status, and its body as text or why it is none.
    Answered { status: u16, body: Result<String, String> },
}

/// What one request brought, with texts as sequences of characters.
pub enum Fetch {
    Failed(Seq<char>),
    Answered { status: u16, body: Result<Seq<char>, Seq<char>> },
}

impl View for Fetched {
    type V = Fetch;

    open spec fn view(&self) -> Fetch {
        match self {
            Fetched::Failed(reason) => Fetch::Failed(reason@),
            Fetched::Answered { status, body } => Fetch::Answered {
                status: *status,
                body: match body {
                    Ok(page) => Ok(page@),
                    Err(reason) => Err(reason@),
                },
            },
        }
    }
}

/// The page that a request brought, or why it brought none.
pub open spec fn page_of(fetch: Fetch) -> Result<Seq<char>, ScrapeFailure> {
    match fetch {
        Fetch::Failed(reason) => Err(send_failure(reason)),
        Fetch::Answered { status, body } => if !is_success(status) {
            Err(status_failure(status))
        } else {
            match body {
                Err(reason) => Err(body_failure(reason)),
                Ok(page) => Ok(page),
            }
        },
    }
}

/// The selector of the rows of the page.
pub open spec fn row_pattern() -> Seq<char> {
    ".row.recuadrotsmc"@
}

/// The selector of the element below a row that holds the name.
pub open spec fn name_pattern() -> Seq<char> {
    "span"@
}

/// The selector of the element below a row that holds the value.
pub open spec fn value_pattern() -> Seq<char> {
    "strong"@
}

/// The address of the page.
pub open spec fn source_address() -> Seq<char> {
    "https://www.bcv.org.ve/"@
}

/// The scraper of one page: where the page is, how its rows are found, and
/// the cache of what was read from it.
#[derive(Debug)]
pub struct Scraper {
    base_url: String,
    row_selector: Selector,
    currency_name_selector: Selector,
    currency_value_selector: Selector,
    cache: SnapshotCache,
}

/// Whether an outcome is what the model says.
pub open spec fn outcome_is(result: Result<(), ScrapeError>, model: Result<Rates, ScrapeFailure>) -> bool {
    match result {
        Ok(()) => model is Ok,
        Err(error) => model == Err::<Rates, ScrapeFailure>(error@),
    }
}

impl Scraper {
    /// The snapshot that the cache holds.
    pub closed spec fn snapshot(&self) -> Option<Capture> {
        self.cache@
    }

    pub closed spec fn row_selector(&self) -> Selector {
        self.row_selector
    }

    pub closed spec fn name_selector(&self) -> Selector {
        self.currency_name_selector
    }

    pub closed spec fn value_selector(&self) -> Selector {
        self.currency_value_selector
    }

    pub closed spec fn address(&self) -> Seq<char> {
        self.base_url@
    }

    /// The fields of a page under the selectors of this scraper.
    pub open spec fn page_fields(&self, page: Seq<char>) -> Result<
        Map<Seq<char>, Seq<char>>,
        ExtractionFailure,
    > {
        document_fields(
            document_of(page),
            self.row_selector(),
            self.name_selector(),
            self.value_selector(),
        )
    }

    /// The record that a page holds, or why it holds none.
    pub open spec fn page_rates(&self, page: Seq<char>) -> Result<Rates, ScrapeFailure> {
        match self.page_fields(page) {
            Err(failure) => Err(extraction_failure(failure)),
            Ok(fields) => match assembled(fields) {
                Err(missing) => Err(assembly_failure(missing)),
                Ok(rates) => Ok(rates),
            },
        }
    }

    /// The record that a request brought, or why it brought none.
    pub open spec fn scraped(&self, fetch: Fetch) -> Result<Rates, ScrapeFailure> {
        match page_of(fetch) {
            Err(failure) => Err(failure),
            Ok(page) => self.page_rates(page),
        }
    }

    /// A scraper of the source page with an empty cache, where the three
    /// selectors are selectors.
    pub fn new() -> (scraper: Option<Self>)
        ensures
            scraper is Some <==> selector_of(row_pattern()) is Some && selector_of(
                name_pattern(),
            ) is Some && selector_of(value_pattern()) is Some,
            scraper matches Some(scraper) ==> {
                &&& scraper.address() == source_address()
                &&& selector_of(row_pattern()) == Some(scraper.row_selector())
                &&& selector_of(name_pattern()) == Some(scraper.name_selector())
                &&& selector_of(value_pattern()) == Some(scraper.value_selector())
                &&& scraper.snapshot() is None
            },
    {
        let row_selector = parse_selector(".row.recuadrotsmc");
        let currency_name_selector = parse_selector("span");
        let currency_value_selector = parse_selector("strong");
        match (row_selector, currency_name_selector, currency_value_selector) {
            (Some(row_selector), Some(currency_name_selector), Some(currency_value_selector)) => Some(
                Scraper {
                    base_url: "https://www.bcv.org.ve/".to_owned(),
                    row_selector,
                    currency_name_selector,
                    currency_value_selector,
                    cache: SnapshotCache::new(),
                },
            ),
            _ => None,
        }
    }

    /// The address of the page.
    pub fn base_url(&self) -> (address: &str)
        ensures
            address@ == self.address(),
    {
        self.base_url.as_str()
    }

    /// A copy of the snapshot, or nothing before the first scrape that
    /// succeeded.
    pub fn read(&self) -> (snapshot: Option<Snapshot>)
        ensures
            crate::cache::capture_of(snapshot) == self.snapshot(),
    {
        self.cache.read()
    }

    /// Reads the fields of a page.
    pub fn extract(&self, page: &str) -> (result: Result<RawFieldMap, ExtractionError>)
        ensures
            extraction_is(result, self.page_fields(page@)),
    {
        let document = parse_document(page);
        extract_fields(
            &document,
            &self.row_selector,
            &self.currency_name_selector,
            &self.currency_value_selector,
        )
    }

    /// Reads the record of a page.
    pub fn read_page(&self, page: &str) -> (result: Result<DollarRates, ScrapeError>)
        ensures
            match result {
                Ok(rates) => self.page_rates(page@) == Ok::<Rates, ScrapeFailure>(rates@),
                Err(error) => self.page_rates(page@) == Err::<Rates, ScrapeFailure>(error@),
            },
    {
        let fields = match self.extract(page) {
            Ok(fields) => fields,
            Err(error) => {
                return Err(ScrapeError::extraction(&error));
            },
        };
        match assemble(&fields) {
            Ok(rates) => Ok(rates),
            Err(error) => Err(ScrapeError::assembly(&error)),
        }
    }

    /// Reads the record that a request brought.
    pub fn read_fetched(&self, fetched: &Fetched) -> (result: Result<DollarRates, ScrapeError>)
        ensures
            match result {
                Ok(rates) => self.scraped(fetched@) == Ok::<Rates, ScrapeFailure>(rates@),
                Err(error) => self.scraped(fetched@) == Err::<Rates, ScrapeFailure>(error@),
            },
    {
        match fetched {
            Fetched::Failed(reason) => Err(ScrapeError::send(reason.as_str())),
            Fetched::Answered { status, body } => {
                if !is_success_status(*status) {
                    return Err(ScrapeError::status(*status));
                }
                match body {
                    Err(reason) => Err(ScrapeError::body(reason.as_str())),
                    Ok(page) => self.read_page(page.as_str()),
                }
            },
        }
    }

    /// Takes what a request brought to the cache, at the time `now`. Where
    /// it holds a record, the record becomes the snapshot; where it does
    /// not, the cache stays as it was.
    pub fn perform_scrape_at(&mut self, fetched: &Fetched, now: u128) -> (result: Result<
        (),
        ScrapeError,
    >)
        ensures
            outcome_is(result, old(self).scraped(fetched@)),
            final(self).snapshot() == match old(self).scraped(fetched@) {
                Ok(rates) => written(old(self).snapshot(), rates, now),
                Err(_) => old(self).snapshot(),
            },
            final(self).row_selector() == old(self).row_selector(),
            final(self).name_selector() == old(self).name_selector(),
            final(self).value_selector() == old(self).value_selector(),
            final(self).address() == old(self).address(),
    {
        let rates = self.read_fetched(fetched)?;
        self.cache.write_at(rates, now);
        Ok(())
    }

    /// Takes what a request brought to the cache, at the time that the clock
    /// shows.
    pub fn perform_scrape(&mut self, fetched: &Fetched) -> (result: Result<(), ScrapeError>)
        ensures
            outcome_is(result, old(self).scraped(fetched@)),
            match old(self).scraped(fetched@) {
                Ok(rates) => final(self).snapshot() matches Some(capture) && capture.rates
                    == rates && shown_by_clock(capture.updated_at),
                Err(_) => final(self).snapshot() == old(self).snapshot(),
            },
            final(self).row_selector() == old(self).row_selector(),
            final(self).name_selector() == old(self).name_selector(),
            final(self).value_selector() == old(self).value_selector(),
            final(self).address() == old(self).address(),
    {
        let now = current_time_millis();
        self.perform_scrape_at(fetched, now)
    }
}

/// Whether a status is a success.
pub fn is_success_status(status: u16) -> (success: bool)
    ensures
        success == is_success(status),
{
    200 <= status && status < 300
}

} // verus!

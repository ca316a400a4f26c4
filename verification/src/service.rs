//! What a reader of the cache is answered.

use vstd::prelude::*;
use crate::cache::Capture;
use crate::rates::DollarRates;
use crate::scrape::Scraper;

verus! {

/// The answer to a query: the record and the time it was taken at.
#[derive(Debug)]
pub struct RatesResponse {
    pub rates: DollarRates,
    pub updated_at: u128,
}

impl View for RatesResponse {
    type V = Capture;

    open spec fn view(&self) -> Capture {
        Capture { rates: self.rates@, updated_at: self.updated_at }
    }
}

impl RatesResponse {
    /// The answer from the cache of a scraper: its snapshot, or nothing where
    /// no scrape has succeeded yet.
    pub fn build(scraper: &Scraper) -> (response: Option<RatesResponse>)
        ensures
            match response {
                Some(response) => Some(response@) == scraper.snapshot(),
                None => scraper.snapshot() is None,
            },
    {
        match scraper.read() {
            Some(snapshot) => Some(
                RatesResponse { rates: snapshot.rates, updated_at: snapshot.updated_at },
            ),
            None => None,
        }
    }
}

/// The answer to a query, or nothing where no scrape has succeeded yet.
pub fn get_rates_handler(scraper: &Scraper) -> (response: Option<RatesResponse>)
    ensures
        match response {
            Some(response) => Some(response@) == scraper.snapshot(),
            None => scraper.snapshot() is None,
        },
{
    RatesResponse::build(scraper)
}

} // verus!

//! The controller that keeps the cache fresh: it scrapes once at the start,
//! then waits a fixed time and scrapes again, whatever the last scrape came
//! to.
//!
//! The controller makes no request and does not sleep. It says what is to be
//! done next, and is told what came of it.

use vstd::prelude::*;
use crate::cache::Capture;
use crate::error::ScrapeError;
use crate::rates::Rates;
use crate::scrape::{outcome_is, Fetched, Scraper};
use crate::util::shown_by_clock;

verus! {

/// What the controller is waiting for.
#[derive(Clone, Copy, Debug, PartialEq, Eq, Structural)]
pub enum Phase {
    /// The time until the next scrape has not passed yet.
    Idle,
    /// A request is under way.
    Scraping,
}

/// What is to be done for the controller.
#[derive(Clone, Copy, Debug, PartialEq, Eq, Structural)]
pub enum Action {
    /// Request the page and hand in what the request brought.
    Fetch,
    /// Let so many milliseconds pass and say so.
    Wait(u64),
}

/// What the controller is told.
#[derive(Debug)]
pub enum Event {
    /// The time to wait has passed.
    Elapsed,
    /// The request has ended.
    Fetched(Fetched),
}

/// What a step leaves to do, and the error of the scrape that it ended, if
/// that scrape failed.
#[derive(Debug)]
pub struct Step {
    pub action: Action,
    pub error: Option<ScrapeError>,
}

/// A scraper with the time between two scrapes.
#[derive(Debug)]
pub struct RefreshTask {
    scraper: Scraper,
    interval_ms: u64,
    phase: Phase,
}

/// What is to be done in a phase.
pub open spec fn action_in(phase: Phase, interval_ms: u64) -> Action {
    match phase {
        Phase::Idle => Action::Wait(interval_ms),
        Phase::Scraping => Action::Fetch,
    }
}

/// The phase after an event.
pub open spec fn phase_after(phase: Phase, event: Event) -> Phase {
    match (phase, event) {
        (Phase::Idle, Event::Elapsed) => Phase::Scraping,
        (Phase::Scraping, Event::Fetched(_)) => Phase::Idle,
        _ => phase,
    }
}

impl RefreshTask {
    pub closed spec fn phase(&self) -> Phase {
        self.phase
    }

    pub closed spec fn interval(&self) -> u64 {
        self.interval_ms
    }

    pub closed spec fn scraper(&self) -> Scraper {
        self.scraper
    }

    /// The snapshot that the cache of the scraper holds.
    pub open spec fn snapshot(&self) -> Option<Capture> {
        self.scraper().snapshot()
    }

    /// The record that a request brought, read by the scraper.
    pub open spec fn scraped(&self, fetched: Fetched) -> Result<Rates, crate::error::ScrapeFailure> {
        self.scraper().scraped(fetched@)
    }

    /// Whether the scraper is the same but for its cache.
    pub open spec fn same_source(&self, other: &Self) -> bool {
        &&& self.scraper().row_selector() == other.scraper().row_selector()
        &&& self.scraper().name_selector() == other.scraper().name_selector()
        &&& self.scraper().value_selector() == other.scraper().value_selector()
        &&& self.scraper().address() == other.scraper().address()
    }

    /// The scraper, to read its cache.
    pub fn as_scraper(&self) -> (scraper: &Scraper)
        ensures
            *scraper == self.scraper(),
    {
        &self.scraper
    }

    /// What the task is waiting for.
    pub fn current_phase(&self) -> (phase: Phase)
        ensures
            phase == self.phase(),
    {
        self.phase
    }

    /// What is to be done next.
    pub fn pending(&self) -> (action: Action)
        ensures
            action == action_in(self.phase(), self.interval()),
    {
        match self.phase {
            Phase::Idle => Action::Wait(self.interval_ms),
            Phase::Scraping => Action::Fetch,
        }
    }

    /// Takes one event. The end of a wait starts a scrape. The end of a
    /// request ends the scrape: its record goes to the cache, or its error
    /// is handed out and the cache stays as it was; then the task waits. An
    /// event that the task does not wait for changes nothing.
    pub fn step(&mut self, event: Event) -> (step: Step)
        ensures
            final(self).phase() == phase_after(old(self).phase(), event),
            final(self).interval() == old(self).interval(),
            final(self).same_source(old(self)),
            step.action == action_in(final(self).phase(), final(self).interval()),
            match (old(self).phase(), event) {
                (Phase::Scraping, Event::Fetched(fetched)) => {
                    &&& outcome_is(
                        match step.error {
                            Some(error) => Err(error),
                            None => Ok(()),
                        },
                        old(self).scraped(fetched),
                    )
                    &&& match old(self).scraped(fetched) {
                        Ok(rates) => final(self).snapshot() matches Some(capture) && capture.rates
                            == rates && shown_by_clock(capture.updated_at),
                        Err(_) => final(self).snapshot() == old(self).snapshot(),
                    }
                },
                _ => step.error is None && final(self).snapshot() == old(self).snapshot(),
            },
    {
        match (self.phase, event) {
            (Phase::Idle, Event::Elapsed) => {
                self.phase = Phase::Scraping;
                Step { action: Action::Fetch, error: None }
            },
            (Phase::Scraping, Event::Fetched(fetched)) => {
                let error = match self.scraper.perform_scrape(&fetched) {
                    Ok(()) => None,
                    Err(error) => Some(error),
                };
                self.phase = Phase::Idle;
                Step { action: Action::Wait(self.interval_ms), error }
            },
            _ => Step { action: self.pending(), error: None },
        }
    }
}

impl Scraper {
    /// The controller that keeps the cache of the scraper fresh. It starts
    /// with a scrape.
    pub fn start_refresh_task(self, interval_ms: u64) -> (task: RefreshTask)
        ensures
            task.scraper() == self,
            task.interval() == interval_ms,
            task.phase() == Phase::Scraping,
    {
        RefreshTask { scraper: self, interval_ms, phase: Phase::Scraping }
    }
}

} // verus!

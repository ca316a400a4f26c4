//! Exchange rates read from a published page.
//!
//! A scrape takes what one request for the page brought, finds the rows of
//! the page, reads a label and a number from each, makes the record of the
//! five rates, and puts it in a cache with the time it was taken at. A
//! scrape that fails at any step leaves the cache as it was.
//!
//! - [`digits`], [`limit`], [`numeric`], [`grammar`]: decimal literals, their
//!   exact value and the range in which they are accepted.
//! - [`text`], [`dom`]: what is taken from the standard library and from the
//!   `scraper` crate without proof.
//! - [`fields`], [`extract`]: the fields of a page.
//! - [`rates`]: the record and its assembly.
//! - [`cache`], [`util`]: the snapshot and the clock.
//! - [`error`]: failures in words.
//! - [`scrape`], [`refresh`]: one scrape, and the controller that repeats it.
//! - [`service`], [`settings`]: the answer to a query, and the settings.

pub mod digits;
pub mod limit;
pub mod numeric;
pub mod grammar;
pub mod text;
pub mod dom;
pub mod fields;
pub mod extract;
pub mod rates;
pub mod error;
pub mod util;
pub mod cache;
pub mod scrape;
pub mod refresh;
pub mod service;
pub mod settings;

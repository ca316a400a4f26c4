//! The latest record and the time it was taken at, held as one value.
//!
//! The cache is empty until the first write. A write replaces the whole
//! snapshot; nothing changes a part of it.

use vstd::prelude::*;
use crate::rates::{DollarRates, Rates};
use crate::util::{current_time_millis, shown_by_clock};

verus! {

/// A record and the time it was taken at, in milliseconds since 1970.
#[derive(Debug)]
pub struct Snapshot {
    pub rates: DollarRates,
    pub updated_at: u128,
}

/// A snapshot with its record as literals.
pub struct Capture {
    pub rates: Rates,
    pub updated_at: u128,
}

impl View for Snapshot {
    type V = Capture;

    open spec fn view(&self) -> Capture {
        Capture { rates: self.rates@, updated_at: self.updated_at }
    }
}

impl Clone for Snapshot {
    fn clone(&self) -> (copy: Self)
        ensures
            copy@ == self@,
    {
        Snapshot { rates: self.rates.clone(), updated_at: self.updated_at }
    }
}

/// What a snapshot that may be absent holds.
pub open spec fn capture_of(snapshot: Option<Snapshot>) -> Option<Capture> {
    match snapshot {
        Some(snapshot) => Some(snapshot@),
        None => None,
    }
}

/// What a cache holds after a record is written to it at a time.
pub open spec fn written(before: Option<Capture>, rates: Rates, now: u128) -> Option<Capture> {
    Some(Capture { rates, updated_at: now })
}

/// What a cache holds after writes, each a record and its time, in order.
pub open spec fn replayed(start: Option<Capture>, writes: Seq<(Rates, u128)>) -> Option<Capture>
    decreases writes.len(),
{
    if writes.len() == 0 {
        start
    } else {
        written(replayed(start, writes.drop_last()), writes.last().0, writes.last().1)
    }
}

/// The cache of the latest snapshot.
#[derive(Debug)]
pub struct SnapshotCache {
    current: Option<Snapshot>,
}

impl View for SnapshotCache {
    type V = Option<Capture>;

    closed spec fn view(&self) -> Option<Capture> {
        capture_of(self.current)
    }
}

impl SnapshotCache {
    /// A cache that holds no snapshot.
    pub fn new() -> (cache: Self)
        ensures
            cache@ is None,
    {
        SnapshotCache { current: None }
    }

    /// Replaces the snapshot by the record, taken at `now`.
    pub fn write_at(&mut self, rates: DollarRates, now: u128)
        ensures
            final(self)@ == written(old(self)@, rates@, now),
    {
        self.current = Some(Snapshot { rates, updated_at: now });
    }

    /// Replaces the snapshot by the record, taken at the time that the clock
    /// shows.
    pub fn write(&mut self, rates: DollarRates)
        ensures
            final(self)@ matches Some(capture) && capture.rates == rates@ && shown_by_clock(
                capture.updated_at,
            ),
    {
        let now = current_time_millis();
        self.write_at(rates, now);
    }

    /// A copy of the snapshot, or nothing where no record was written yet.
    pub fn read(&self) -> (snapshot: Option<Snapshot>)
        ensures
            capture_of(snapshot) == self@,
    {
        match &self.current {
            Some(snapshot) => Some(snapshot.clone()),
            None => None,
        }
    }

    /// Whether a record was written.
    pub fn is_available(&self) -> (available: bool)
        ensures
            available == self@.is_some(),
    {
        self.current.is_some()
    }
}

/// A read after a write gives the record that was written; and where the
/// clock did not go back since the snapshot before, its time is no earlier.
pub proof fn lemma_read_after_write(before: Option<Capture>, rates: Rates, now: u128)
    requires
        before matches Some(prior) ==> prior.updated_at <= now,
    ensures
        written(before, rates, now) matches Some(after) && after.rates == rates && (
        before matches Some(prior) ==> prior.updated_at <= after.updated_at),
{
}

/// However reads and writes follow one another, a read finds the last write
/// before it, whole: its record with its own time. Where no write came
/// before, it finds what the cache held at the start.
pub proof fn lemma_read_finds_last_write(
    start: Option<Capture>,
    writes: Seq<(Rates, u128)>,
    before: int,
)
    requires
        0 <= before <= writes.len(),
    ensures
        replayed(start, writes.take(before)) == if before == 0 {
            start
        } else {
            Some(Capture { rates: writes[before - 1].0, updated_at: writes[before - 1].1 })
        },
{
    if before > 0 {
        assert(writes.take(before).last() == writes[before - 1]);
    }
}

/// Where the clock never goes back, the time of the snapshot is no earlier
/// than that of any snapshot before it.
pub proof fn lemma_times_never_decrease(start: Option<Capture>, writes: Seq<(Rates, u128)>, earlier: int)
    requires
        0 <= earlier <= writes.len(),
        forall|i: int, j: int| 0 <= i <= j < writes.len() ==> writes[i].1 <= writes[j].1,
        start matches Some(first) ==> forall|i: int|
            0 <= i < writes.len() ==> first.updated_at <= writes[i].1,
    ensures
        replayed(start, writes.take(earlier)) matches Some(prior) ==> replayed(start, writes)
            matches Some(last) && prior.updated_at <= last.updated_at,
{
    if writes.len() == 0 {
        assert(writes.take(earlier) =~= writes);
    } else if earlier == 0 {
        assert(writes.take(0).len() == 0);
    } else {
        let seen = writes.take(earlier);
        assert(seen.last() == writes[earlier - 1]);
    }
}

} // verus!

//! Run-wide counters.

use vstd::prelude::*;

verus! {

/// What `a + b` becomes in a `usize` counter that wraps around on overflow.
pub open spec fn wrapped_sum(a: usize, b: usize) -> int {
    if a + b > usize::MAX {
        a + b - usize::MAX - 1
    } else {
        a + b
    }
}

/// Counters of one run: partitions completed, valid records, errors.
///
/// The value is plain data; a caller that shares it between tasks keeps it
/// behind a lock, so that every update is one call of a method below.
#[derive(Clone, Copy, Debug, PartialEq, Eq, Structural)]
pub struct Statistics {
    pub total_days: usize,
    pub completed_days: usize,
    pub total_records: usize,
    pub total_errors: usize,
}

impl Statistics {
    /// Fresh counters for a run over `total_days` partitions.
    pub fn new(total_days: usize) -> (stats: Self)
        ensures
            stats == (Statistics {
                total_days,
                completed_days: 0,
                total_records: 0,
                total_errors: 0,
            }),
    {
        Statistics { total_days, completed_days: 0, total_records: 0, total_errors: 0 }
    }

    /// Counts one more finished partition.
    pub fn increment_completed(&mut self)
        ensures
            final(self).completed_days == wrapped_sum(old(self).completed_days, 1),
            final(self).total_days == old(self).total_days,
            final(self).total_records == old(self).total_records,
            final(self).total_errors == old(self).total_errors,
    {
        self.completed_days = self.completed_days.wrapping_add(1);
    }

    /// Adds `count` valid records.
    pub fn add_records(&mut self, count: usize)
        ensures
            final(self).total_records == wrapped_sum(old(self).total_records, count),
            final(self).total_days == old(self).total_days,
            final(self).completed_days == old(self).completed_days,
            final(self).total_errors == old(self).total_errors,
    {
        self.total_records = self.total_records.wrapping_add(count);
    }

    /// Adds `count` errors.
    pub fn add_errors(&mut self, count: usize)
        ensures
            final(self).total_errors == wrapped_sum(old(self).total_errors, count),
            final(self).total_days == old(self).total_days,
            final(self).completed_days == old(self).completed_days,
            final(self).total_records == old(self).total_records,
    {
        self.total_errors = self.total_errors.wrapping_add(count);
    }
}

} // verus!

//! Scheduling periods: fixed two-week windows identified by a start date.

use vstd::prelude::*;
use crate::calendar::Date;

verus! {

/// A fixed 14-day scheduling window, identified by its start date.
#[derive(Clone, Copy, Debug, Hash, PartialEq, Eq, Structural)]
pub struct Period(pub Date);

impl Period {
    pub open spec fn spec_start_date(self) -> Date {
        self.0
    }

    pub open spec fn wf(self) -> bool {
        self.0.wf()
    }

    pub fn from_start_date(start_date: Date) -> (p: Period)
        ensures
            p == Period(start_date),
    {
        Period(start_date)
    }

    pub fn start_date(&self) -> (d: Date)
        ensures
            d == self.spec_start_date(),
    {
        self.0
    }
}

} // verus!

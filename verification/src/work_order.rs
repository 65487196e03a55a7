//! Work orders and their activities.
//!
//! A work order carries an ordered list of activities; consecutive
//! activities are linked by a precedence relation when the work order is
//! added to the graph.

use vstd::prelude::*;
use crate::calendar::Date;
use crate::technician::Skill;

verus! {

pub type WorkOrderNumber = u64;

pub type NumberOfPeople = u64;

pub type ActivityNumber = u64;

/// One unit of work inside a work order: a number, the headcount it
/// needs, and the skill it requires.
#[derive(Hash, Clone, Copy, Debug, PartialEq, Eq, Structural)]
pub struct Activity {
    pub activity_number: ActivityNumber,
    pub number_of_people: NumberOfPeople,
    pub resource: Skill,
}

impl Activity {
    pub fn activity_number(&self) -> (r: ActivityNumber)
        ensures
            r == self.activity_number,
    {
        self.activity_number
    }

    pub fn skill(&self) -> (r: Skill)
        ensures
            r == self.resource,
    {
        self.resource
    }

    pub fn number_of_people(&self) -> (r: NumberOfPeople)
        ensures
            r == self.number_of_people,
    {
        self.number_of_people
    }

    pub fn new(activity_number: u64, number_of_people: NumberOfPeople, resource: Skill) -> (r:
        Activity)
        ensures
            r == (Activity { activity_number, number_of_people, resource }),
    {
        Activity { activity_number, resource, number_of_people }
    }

    /// Ordering by activity number, then headcount, then skill rank.
    pub open spec fn spec_le(self, other: Activity) -> bool {
        if self.activity_number != other.activity_number {
            self.activity_number < other.activity_number
        } else if self.number_of_people != other.number_of_people {
            self.number_of_people < other.number_of_people
        } else {
            self.resource.spec_rank() <= other.resource.spec_rank()
        }
    }

    fn le(&self, other: &Activity) -> (r: bool)
        ensures
            r == self.spec_le(*other),
    {
        if self.activity_number != other.activity_number {
            self.activity_number < other.activity_number
        } else if self.number_of_people != other.number_of_people {
            self.number_of_people < other.number_of_people
        } else {
            self.resource.rank() <= other.resource.rank()
        }
    }
}

/// A sequence of activities is sorted when each consecutive pair is in
/// order.
pub open spec fn activities_sorted(s: Seq<Activity>) -> bool {
    forall|i: int| 0 <= i < s.len() - 1 ==> (#[trigger] s[i]).spec_le(s[i + 1])
}

/// A sequence of activities holds a duplicate when two positions carry
/// the same activity.
pub open spec fn activities_duplicated(s: Seq<Activity>) -> bool {
    exists|i: int, j: int| 0 <= i < j < s.len() && s[i] == s[j]
}

/// The smallest and largest ten-digit numbers: a valid work-order number
/// has exactly ten decimal digits.
pub open spec fn work_order_number_valid(n: WorkOrderNumber) -> bool {
    1_000_000_000 <= n <= 9_999_999_999
}

/// What can go wrong while assembling a work order.
#[derive(Debug, PartialEq)]
pub enum WorkOrderError {
    InvalidWorkOrderNumber(WorkOrderNumber),
    NonSortedActivities(Vec<Activity>),
    DuplicatedActivities,
}

/// A work order: a ten-digit number, the day it is planned to start, and
/// its sorted, duplicate-free activities.
#[derive(Clone, Debug)]
pub struct WorkOrder {
    pub work_order_number: WorkOrderNumber,
    pub basic_start_date: Date,
    pub activities: Vec<Activity>,
}

/// The precedence relation between two consecutive activities of a work
/// order.
#[derive(Clone, Copy, Debug, PartialEq, Eq, Structural)]
pub enum ActivityRelation {
    StartStart,
    FinishStart,
}

impl WorkOrder {
    pub open spec fn wf(self) -> bool {
        &&& work_order_number_valid(self.work_order_number)
        &&& activities_sorted(self.activities@)
        &&& !activities_duplicated(self.activities@)
    }

    /// Validates and assembles a work order: the number must have ten
    /// decimal digits and the activities must be sorted and free of
    /// duplicates.
    pub fn new(
        work_order_number: WorkOrderNumber,
        basic_start_date: Date,
        activities: Vec<Activity>,
    ) -> (r: Result<WorkOrder, WorkOrderError>)
        ensures
            match r {
                Ok(wo) => {
                    &&& work_order_number_valid(work_order_number)
                    &&& activities_sorted(activities@)
                    &&& !activities_duplicated(activities@)
                    &&& wo == (WorkOrder { work_order_number, basic_start_date, activities })
                    &&& wo.wf()
                },
                Err(WorkOrderError::InvalidWorkOrderNumber(n)) => n == work_order_number
                    && !work_order_number_valid(work_order_number),
                Err(WorkOrderError::NonSortedActivities(a)) => a@ == activities@
                    && work_order_number_valid(work_order_number) && !activities_sorted(
                    activities@,
                ),
                Err(WorkOrderError::DuplicatedActivities) => work_order_number_valid(
                    work_order_number,
                ) && activities_sorted(activities@) && activities_duplicated(activities@),
            },
    {
        if work_order_number < 1_000_000_000 || work_order_number > 9_999_999_999 {
            return Err(WorkOrderError::InvalidWorkOrderNumber(work_order_number));
        }

        let n: usize = activities.len();
        let mut i: usize = 0;
        while i < n
            invariant
                n == activities@.len(),
                0 <= i <= n,
                work_order_number_valid(work_order_number),
                forall|p: int|
                    0 <= p < i && p + 1 < n ==> (#[trigger] activities@[p]).spec_le(
                        activities@[p + 1],
                    ),
            decreases n - i,
        {
            if i + 1 < n {
                if !activities[i].le(&activities[i + 1]) {
                    proof {
                        assert(!activities@[i as int].spec_le(activities@[i as int + 1]));
                        assert(!activities_sorted(activities@));
                    }
                    return Err(WorkOrderError::NonSortedActivities(activities));
                }
            }
            i = i + 1;
        }

        let mut a: usize = 0;
        while a < n
            invariant
                n == activities@.len(),
                0 <= a <= n,
                work_order_number_valid(work_order_number),
                activities_sorted(activities@),
                forall|p: int, q: int| 0 <= p < q < n && p < a ==> activities@[p] != activities@[q],
            decreases n - a,
        {
            let mut b: usize = a + 1;
            while b < n
                invariant
                    n == activities@.len(),
                    0 <= a < n,
                    a < b <= n,
                    work_order_number_valid(work_order_number),
                    activities_sorted(activities@),
                    forall|q: int| a < q < b ==> activities@[a as int] != activities@[q],
                decreases n - b,
            {
                if activities[a] == activities[b] {
                    proof {
                        assert(0 <= a < b < n && activities@[a as int] == activities@[b as int]);
                        assert(activities_duplicated(activities@));
                    }
                    return Err(WorkOrderError::DuplicatedActivities);
                }
                b = b + 1;
            }
            a = a + 1;
        }
        proof {
            if activities_duplicated(activities@) {
                let (i, j): (int, int) = choose|i: int, j: int|
                    0 <= i < j < activities@.len() && activities@[i] == activities@[j];
                assert(activities@[i] != activities@[j]);
            }
        }

        Ok(WorkOrder { work_order_number, activities, basic_start_date })
    }

    pub fn work_order_number(&self) -> (r: WorkOrderNumber)
        ensures
            r == self.work_order_number,
    {
        self.work_order_number
    }

    pub fn activities(&self) -> (r: &Vec<Activity>)
        ensures
            r@ == self.activities@,
    {
        &self.activities
    }

    /// The precedence relation for each gap between consecutive
    /// activities — one fewer than the activities; every gap is
    /// finish-to-start.
    pub fn activities_relations(&self) -> (r: Vec<ActivityRelation>)
        ensures
            r@.len() == (if self.activities@.len() == 0 {
                0int
            } else {
                self.activities@.len() - 1
            }),
            forall|i: int| 0 <= i < r@.len() ==> r@[i] == ActivityRelation::FinishStart,
    {
        let n: usize = self.activities.len();
        let mut relations: Vec<ActivityRelation> = Vec::new();
        if n > 0 {
            let mut i: usize = 0;
            while i < n - 1
                invariant
                    n >= 1,
                    relations@.len() == i,
                    0 <= i <= n - 1,
                    forall|p: int| 0 <= p < i ==> relations@[p] == ActivityRelation::FinishStart,
                decreases n - 1 - i,
            {
                relations.push(ActivityRelation::FinishStart);
                i = i + 1;
            }
        }
        relations
    }

    pub fn basic_start(&self) -> (r: Date)
        ensures
            r == self.basic_start_date,
    {
        self.basic_start_date
    }
}

} // verus!

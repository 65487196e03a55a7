//! Checks of the calendar arithmetic and the value types the graph is
//! built from.

use schedule_hypergraph::calendar::{Date, DateTime, Time};
use schedule_hypergraph::technician::{Skill, Technician, TechnicianBuilderError};
use schedule_hypergraph::work_order::{Activity, WorkOrder, WorkOrderError};

fn ymd(year: u16, month: u8, day: u8) -> Date {
    Date::new(year, month, day).unwrap()
}

fn at(date: Date, hour: u8, minute: u8, second: u8) -> DateTime {
    DateTime::new(date, Time::new(hour, minute, second).unwrap())
}

#[test]
fn date_validation() {
    assert!(Date::new(2025, 2, 29).is_none());
    assert!(Date::new(2024, 2, 29).is_some());
    assert!(Date::new(2100, 2, 29).is_none());
    assert!(Date::new(2000, 2, 29).is_some());
    assert!(Date::new(2025, 4, 31).is_none());
    assert!(Date::new(2025, 0, 1).is_none());
    assert!(Date::new(2025, 1, 0).is_none());
    assert!(Date::new(2025, 13, 1).is_none());
    assert!(Time::new(24, 0, 0).is_none());
    assert!(Time::new(23, 59, 59).is_some());
}

#[test]
fn date_stepping() {
    assert_eq!(ymd(2025, 1, 31).next_day(), ymd(2025, 2, 1));
    assert_eq!(ymd(2025, 2, 28).next_day(), ymd(2025, 3, 1));
    assert_eq!(ymd(2024, 2, 28).next_day(), ymd(2024, 2, 29));
    assert_eq!(ymd(2024, 2, 29).next_day(), ymd(2024, 3, 1));
    assert_eq!(ymd(2025, 12, 31).next_day(), ymd(2026, 1, 1));
    assert_eq!(ymd(2025, 1, 13).plus_days(13), ymd(2025, 1, 26));
    assert_eq!(ymd(2025, 12, 25).plus_days(13), ymd(2026, 1, 7));
}

#[test]
fn date_ordering() {
    assert!(ymd(2025, 1, 31).lt(ymd(2025, 2, 1)));
    assert!(ymd(2024, 12, 31).lt(ymd(2025, 1, 1)));
    assert!(ymd(2025, 6, 15).le(ymd(2025, 6, 15)));
    assert!(!ymd(2025, 6, 16).le(ymd(2025, 6, 15)));
    let morning = at(ymd(2025, 6, 15), 8, 0, 0);
    let evening = at(ymd(2025, 6, 15), 17, 0, 0);
    assert!(morning.lt(evening));
    assert!(!evening.lt(morning));
}

#[test]
fn work_order_number_must_have_ten_digits() {
    let date = ymd(2025, 1, 13);
    assert!(matches!(
        WorkOrder::new(123, date, vec![]),
        Err(WorkOrderError::InvalidWorkOrderNumber(123))
    ));
    assert!(matches!(
        WorkOrder::new(10_000_000_000, date, vec![]),
        Err(WorkOrderError::InvalidWorkOrderNumber(10_000_000_000))
    ));
    assert!(WorkOrder::new(1_000_000_000, date, vec![]).is_ok());
    assert!(WorkOrder::new(9_999_999_999, date, vec![]).is_ok());
}

#[test]
fn work_order_activities_must_be_sorted_and_unique() {
    let date = ymd(2025, 1, 13);
    let unsorted = vec![
        Activity::new(20, 1, Skill::MtnMech),
        Activity::new(10, 1, Skill::MtnMech),
    ];
    assert!(matches!(
        WorkOrder::new(1122334455, date, unsorted),
        Err(WorkOrderError::NonSortedActivities(_))
    ));

    let duplicated = vec![
        Activity::new(10, 1, Skill::MtnMech),
        Activity::new(10, 1, Skill::MtnMech),
    ];
    assert!(matches!(
        WorkOrder::new(1122334455, date, duplicated),
        Err(WorkOrderError::DuplicatedActivities)
    ));

    let sorted = vec![
        Activity::new(10, 1, Skill::MtnMech),
        Activity::new(20, 2, Skill::MtnElec),
    ];
    let wo = WorkOrder::new(1122334455, date, sorted).unwrap();
    assert_eq!(wo.work_order_number(), 1122334455);
    assert_eq!(wo.basic_start(), date);
    assert_eq!(wo.activities().len(), 2);
    assert_eq!(wo.activities()[0].activity_number(), 10);
    assert_eq!(wo.activities()[0].skill(), Skill::MtnMech);
    assert_eq!(wo.activities()[1].number_of_people(), 2);
    // One precedence relation per gap between consecutive activities.
    assert_eq!(wo.activities_relations().len(), 1);
}

#[test]
fn technician_builder_rejects_overlapping_availability() {
    let d = ymd(2025, 1, 13);
    let builder = Technician::builder(7)
        .add_availability(at(d, 8, 0, 0), at(d, 12, 0, 0))
        .unwrap();
    let result = builder.add_availability(at(d, 11, 0, 0), at(d, 15, 0, 0));
    assert!(matches!(
        result,
        Err(TechnicianBuilderError::OverlappingAvailability { .. })
    ));
}

#[test]
fn technician_builder_keeps_windows_and_skills_sorted() {
    let d1 = ymd(2025, 1, 13);
    let d2 = ymd(2025, 1, 20);
    let technician = Technician::builder(7)
        .add_availability(at(d2, 8, 0, 0), at(d2, 17, 0, 0))
        .unwrap()
        .add_availability(at(d1, 8, 0, 0), at(d1, 17, 0, 0))
        .unwrap()
        .add_skill(Skill::MtnElec)
        .add_skill(Skill::MtnMech)
        .add_skill(Skill::MtnMech)
        .build();
    assert_eq!(technician.id(), 7);
    let availabilities = technician.availabilities();
    assert_eq!(availabilities.len(), 2);
    assert_eq!(availabilities[0].start_date(), d1);
    assert_eq!(availabilities[1].start_date(), d2);
    assert_eq!(availabilities[0].start(), at(d1, 8, 0, 0));
    assert_eq!(availabilities[0].end(), at(d1, 17, 0, 0));
    assert_eq!(availabilities[0].finish_date(), d1);
    let skills = technician.skills();
    assert_eq!(*skills, vec![Skill::MtnMech, Skill::MtnElec]);
}

#[test]
fn availability_overlap_is_strict() {
    let d = ymd(2025, 1, 13);
    let a = schedule_hypergraph::technician::Availability::new(at(d, 8, 0, 0), at(d, 12, 0, 0));
    let b = schedule_hypergraph::technician::Availability::new(at(d, 12, 0, 0), at(d, 15, 0, 0));
    let c = schedule_hypergraph::technician::Availability::new(at(d, 11, 0, 0), at(d, 15, 0, 0));
    assert!(!a.overlaps_with(&b));
    assert!(!b.overlaps_with(&a));
    assert!(a.overlaps_with(&c));
    assert!(c.overlaps_with(&a));
}

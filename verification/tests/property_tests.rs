//! Concrete checks of the structural laws and of each fault of the
//! construction operations.

use schedule_hypergraph::calendar::{Date, DateTime, Time};
use schedule_hypergraph::period::Period;
use schedule_hypergraph::schedule_graph::{EdgeType, Node, ScheduleGraph, ScheduleGraphErrors};
use schedule_hypergraph::technician::{Availability, Skill, Technician};
use schedule_hypergraph::work_order::{Activity, WorkOrder};

fn ymd(year: u16, month: u8, day: u8) -> Date {
    Date::new(year, month, day).unwrap()
}

fn at(date: Date, hour: u8, minute: u8, second: u8) -> DateTime {
    DateTime::new(date, Time::new(hour, minute, second).unwrap())
}

fn sample_graph() -> ScheduleGraph {
    let mut g = ScheduleGraph::new();
    g.add_skill(Skill::MtnMech);
    g.add_skill(Skill::MtnElec);
    let start = ymd(2025, 1, 13);
    g.add_period(Period::from_start_date(start)).unwrap();
    let work_order = WorkOrder::new(
        1122334455,
        start,
        vec![
            Activity::new(10, 2, Skill::MtnMech),
            Activity::new(20, 1, Skill::MtnElec),
        ],
    )
    .unwrap();
    g.add_work_order(&work_order).unwrap();
    let technician = Technician::builder(1001)
        .add_availability(at(start, 8, 0, 0), at(start, 17, 0, 0))
        .unwrap()
        .add_skill(Skill::MtnMech)
        .build();
    g.add_technician(technician, Availability::new(at(start, 8, 0, 0), at(start, 17, 0, 0)))
        .unwrap();
    g.add_assign_skill_to_worker(1001, Skill::MtnMech).unwrap();
    g.add_assignment_activity(
        vec![1001],
        1122334455,
        10,
        vec![start],
        (Time::new(9, 0, 0).unwrap(), Time::new(11, 0, 0).unwrap()),
    )
    .unwrap();
    g
}

#[test]
fn incidence_index_length_matches_node_arena() {
    let g = sample_graph();
    assert_eq!(g.incidence_list().len(), g.nodes().len());
    assert_eq!(g.node_count(), g.nodes().len());
    assert_eq!(g.hyperedge_count(), g.hyperedges().len());
}

#[test]
fn every_edge_is_listed_at_each_endpoint() {
    let g = sample_graph();
    for (e, edge) in g.hyperedges().iter().enumerate() {
        for n in edge.nodes.iter() {
            assert!(
                g.incidence_list()[*n].contains(&e),
                "an edge endpoint does not list the edge"
            );
        }
    }
    // And the other way round: every listed edge mentions the node.
    for (n, edges) in g.incidence_list().iter().enumerate() {
        for e in edges.iter() {
            assert!(g.hyperedges()[*e].nodes.contains(&n));
        }
    }
}

#[test]
fn at_most_one_node_per_key() {
    let g = sample_graph();
    for (i, a) in g.nodes().iter().enumerate() {
        if matches!(a, Node::Activity(_)) {
            continue;
        }
        for (j, b) in g.nodes().iter().enumerate() {
            if i != j {
                assert!(a != b, "two distinct handles carry the same keyed node");
            }
        }
    }
}

#[test]
fn add_skill_is_idempotent() {
    let mut g = ScheduleGraph::new();
    let before = g.node_count();
    let first = g.add_skill(Skill::MtnMech);
    let second = g.add_skill(Skill::MtnMech);
    assert_eq!(first, second);
    assert!(g.node_count() <= before + 1);
    assert_eq!(g.node_count(), 1);
}

#[test]
fn period_round_trip_never_misses() {
    let mut g = ScheduleGraph::new();
    let period = Period::from_start_date(ymd(2025, 1, 13));
    g.add_period(period).unwrap();
    assert!(g.find_all_assignments_for_period(period).is_ok());
    // Even a duplicate insertion leaves the period present.
    assert_eq!(g.add_period(period), Err(ScheduleGraphErrors::PeriodDuplicate));
    assert!(g.find_all_assignments_for_period(period).is_ok());
}

#[test]
fn period_creates_fourteen_days_then_the_period_node() {
    let mut g = ScheduleGraph::new();
    let start = ymd(2025, 1, 13);
    let period_node = g.add_period(Period::from_start_date(start)).unwrap();

    assert_eq!(g.node_count(), 15);
    let mut date = start;
    for k in 0..14 {
        assert_eq!(g.nodes()[k], Node::Day(date));
        date = date.next_day();
    }
    assert_eq!(date, ymd(2025, 1, 27));
    assert_eq!(g.nodes()[14], Node::Period(Period::from_start_date(start)));
    assert_eq!(period_node, 14);

    assert!(g.day_node(ymd(2025, 1, 13)).is_some());
    assert!(g.day_node(ymd(2025, 1, 26)).is_some());
    assert!(g.day_node(ymd(2025, 1, 27)).is_none());
}

#[test]
fn work_order_produces_contains_requires_and_precedence_edges() {
    let mut g = ScheduleGraph::new();
    g.add_skill(Skill::MtnMech);
    let start = ymd(2025, 1, 13);
    g.add_period(Period::from_start_date(start)).unwrap();
    let work_order = WorkOrder::new(
        1122334455,
        start,
        vec![
            Activity::new(10, 1, Skill::MtnMech),
            Activity::new(20, 1, Skill::MtnMech),
            Activity::new(30, 1, Skill::MtnMech),
        ],
    )
    .unwrap();
    let nodes_before = g.node_count();
    let edges_before = g.hyperedge_count();
    g.add_work_order(&work_order).unwrap();

    // One work-order node and three activity nodes.
    assert_eq!(g.node_count(), nodes_before + 4);
    // One basic-start, three contains, three requires, two finish-start.
    assert_eq!(g.hyperedge_count(), edges_before + 9);

    let count = |kind: EdgeType| {
        g.hyperedges()
            .iter()
            .filter(|e| e.edge_type == kind)
            .count()
    };
    assert_eq!(count(EdgeType::BasicStart), 1);
    assert_eq!(count(EdgeType::Contains), 3);
    assert_eq!(count(EdgeType::Requires), 3);
    assert_eq!(count(EdgeType::FinishStart), 2);
    assert_eq!(count(EdgeType::StartStart), 0);

    // The precedence chain runs 10 -> 20 -> 30 and stops there.
    let finish_start_edges = g
        .hyperedges()
        .iter()
        .filter(|e| e.edge_type == EdgeType::FinishStart)
        .collect::<Vec<_>>();
    assert_eq!(finish_start_edges[0].nodes, vec![nodes_before + 1, nodes_before + 2]);
    assert_eq!(finish_start_edges[1].nodes, vec![nodes_before + 2, nodes_before + 3]);
}

#[test]
fn work_order_validation_faults() {
    let mut g = ScheduleGraph::new();
    let start = ymd(2025, 1, 13);
    let work_order = WorkOrder::new(
        1122334455,
        start,
        vec![Activity::new(10, 1, Skill::MtnMech)],
    )
    .unwrap();

    // No skill node yet: the skills are validated first.
    assert_eq!(
        g.add_work_order(&work_order),
        Err(ScheduleGraphErrors::WorkOrderActivityMissingSkills)
    );
    let count_after_fault = g.node_count();
    assert_eq!(count_after_fault, 0);

    g.add_skill(Skill::MtnMech);
    assert_eq!(g.add_work_order(&work_order), Err(ScheduleGraphErrors::DayMissing));

    g.add_period(Period::from_start_date(start)).unwrap();
    g.add_work_order(&work_order).unwrap();
    let nodes_after_success = g.node_count();

    // A second submission with the same number is rejected and adds
    // nothing.
    assert_eq!(
        g.add_work_order(&work_order),
        Err(ScheduleGraphErrors::WorkOrderDuplicate)
    );
    assert_eq!(g.node_count(), nodes_after_success);
}

#[test]
fn technician_validation_faults() {
    let mut g = ScheduleGraph::new();
    let start = ymd(2025, 1, 13);
    let window = Availability::new(at(start, 8, 0, 0), at(start, 17, 0, 0));

    let technician = Technician::builder(1001).add_skill(Skill::MtnMech).build();
    assert_eq!(
        g.add_technician(technician, window),
        Err(ScheduleGraphErrors::SkillMissing)
    );

    g.add_skill(Skill::MtnMech);
    let technician = Technician::builder(1001).add_skill(Skill::MtnMech).build();
    assert_eq!(
        g.add_technician(technician, window),
        Err(ScheduleGraphErrors::DayMissing)
    );

    g.add_period(Period::from_start_date(start)).unwrap();
    let technician = Technician::builder(1001).add_skill(Skill::MtnMech).build();
    g.add_technician(technician, window).unwrap();

    let technician = Technician::builder(1001).add_skill(Skill::MtnMech).build();
    assert_eq!(
        g.add_technician(technician, window),
        Err(ScheduleGraphErrors::WorkerDuplicate)
    );
}

#[test]
fn assignment_resolution_faults() {
    let mut g = sample_graph();
    let start = ymd(2025, 1, 13);
    let window = (Time::new(9, 0, 0).unwrap(), Time::new(11, 0, 0).unwrap());

    assert_eq!(
        g.add_assignment_activity(vec![1001], 1122334455, 10, vec![ymd(2030, 6, 1)], window),
        Err(ScheduleGraphErrors::DayMissing)
    );
    assert_eq!(
        g.add_assignment_activity(vec![9999], 1122334455, 10, vec![start], window),
        Err(ScheduleGraphErrors::WorkerMissing)
    );
    assert_eq!(
        g.add_assignment_activity(vec![1001], 9988776655, 10, vec![start], window),
        Err(ScheduleGraphErrors::WorkOrderMissing)
    );
    assert_eq!(
        g.add_assignment_activity(vec![1001], 1122334455, 99, vec![start], window),
        Err(ScheduleGraphErrors::ActivityMissing)
    );
    // Activity 20 allows one person only.
    let technician = Technician::builder(1002)
        .add_availability(at(start, 8, 0, 0), at(start, 17, 0, 0))
        .unwrap()
        .add_skill(Skill::MtnElec)
        .build();
    g.add_technician(
        technician,
        Availability::new(at(start, 8, 0, 0), at(start, 17, 0, 0)),
    )
    .unwrap();
    assert_eq!(
        g.add_assignment_activity(vec![1001, 1002], 1122334455, 20, vec![start], window),
        Err(ScheduleGraphErrors::ActivityExceedNumberOfPeople)
    );

    let before = g.hyperedge_count();
    g.add_assignment_activity(vec![1002], 1122334455, 20, vec![start], window)
        .unwrap();
    assert_eq!(g.hyperedge_count(), before + 1);
}

#[test]
fn assignment_work_order_faults() {
    let mut g = ScheduleGraph::new();
    let period = Period::from_start_date(ymd(2025, 1, 13));
    assert_eq!(
        g.add_assignment_work_order(1, 1122334455, period),
        Err(ScheduleGraphErrors::WorkerMissing)
    );
    g.add_node(Node::Technician(1));
    assert_eq!(
        g.add_assignment_work_order(1, 1122334455, period),
        Err(ScheduleGraphErrors::WorkOrderMissing)
    );
    g.add_node(Node::WorkOrder(1122334455));
    assert_eq!(
        g.add_assignment_work_order(1, 1122334455, period),
        Err(ScheduleGraphErrors::PeriodMissing)
    );
    g.add_period(period).unwrap();
    let edge = g.add_assignment_work_order(1, 1122334455, period).unwrap();
    // The work-order assignment goes through the incidence-preserving
    // path like every other edge.
    assert!(g.incidence_list()[0].contains(&edge));
    assert!(g.incidence_list()[1].contains(&edge));
}

#[test]
fn exclusion_faults_and_window() {
    let mut g = ScheduleGraph::new();
    let start = ymd(2025, 1, 1);
    let period = Period::from_start_date(start);
    assert_eq!(
        g.add_exclusion(&1111990000, &period),
        Err(ScheduleGraphErrors::WorkOrderMissing)
    );
    g.add_node(Node::WorkOrder(1111990000));
    assert_eq!(
        g.add_exclusion(&1111990000, &period),
        Err(ScheduleGraphErrors::PeriodMissing)
    );
    g.add_period(period).unwrap();
    let e = g.add_exclusion(&1111990000, &period).unwrap();
    let edge = &g.hyperedges()[e];
    assert_eq!(edge.edge_type, EdgeType::Exclude);
    // Work order, period, and the fourteen days 2025-01-01..2025-01-14.
    assert_eq!(edge.nodes.len(), 16);
    let first_day = g.day_node(ymd(2025, 1, 1)).unwrap();
    let last_day = g.day_node(ymd(2025, 1, 14)).unwrap();
    assert!(edge.nodes.contains(&first_day));
    assert!(edge.nodes.contains(&last_day));
}

#[test]
fn find_assignments_uses_a_half_open_day_window() {
    let mut g = ScheduleGraph::new();
    let start = ymd(2025, 1, 13);
    let period = Period::from_start_date(start);
    g.add_period(period).unwrap();
    assert_eq!(
        g.find_all_assignments_for_period(Period::from_start_date(ymd(2030, 1, 1))),
        Err(ScheduleGraphErrors::PeriodMissing)
    );

    // An assignment touching the day start+13 is outside the half-open
    // window, while start+12 is inside.
    let inside_day = g.day_node(ymd(2025, 1, 25)).unwrap();
    let outside_day = g.day_node(ymd(2025, 1, 26)).unwrap();
    let inside_edge = g.add_edge(EdgeType::Assign(None), vec![inside_day]);
    let outside_edge = g.add_edge(EdgeType::Assign(None), vec![outside_day]);
    let hits = g.find_all_assignments_for_period(period).unwrap();
    assert!(hits.contains(&inside_edge));
    assert!(!hits.contains(&outside_edge));
}

#[test]
fn find_assignments_reports_one_hit_per_qualifying_node() {
    let mut g = ScheduleGraph::new();
    let period = Period::from_start_date(ymd(2025, 1, 13));
    g.add_period(period).unwrap();
    let day_a = g.day_node(ymd(2025, 1, 13)).unwrap();
    let day_b = g.day_node(ymd(2025, 1, 14)).unwrap();
    let edge = g.add_edge(EdgeType::Assign(None), vec![day_a, day_b]);
    let hits = g.find_all_assignments_for_period(period).unwrap();
    // Both qualifying day nodes of the one edge are reported; callers
    // needing a set deduplicate themselves.
    assert_eq!(hits, vec![edge, edge]);
}

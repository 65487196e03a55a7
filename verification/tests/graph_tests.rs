use std::collections::HashSet;

use schedule_hypergraph::calendar::{Date, Time};
use schedule_hypergraph::period::Period;
use schedule_hypergraph::schedule_graph::{
    ActivityNode, EdgeType, HyperEdge, Node, ScheduleGraph, ScheduleGraphErrors,
};
use schedule_hypergraph::technician::{Availability, Skill, Technician};
use schedule_hypergraph::work_order::{Activity, WorkOrder};
use schedule_hypergraph::calendar::DateTime;

fn ymd(year: u16, month: u8, day: u8) -> Date {
    Date::new(year, month, day).unwrap()
}

fn at(date: Date, hour: u8, minute: u8, second: u8) -> DateTime {
    DateTime::new(date, Time::new(hour, minute, second).unwrap())
}

#[test]
fn test_schedule_graph_new() {
    let mut schedule_graph = ScheduleGraph::new();

    let date = ymd(2025, 1, 1);
    let index_worker = schedule_graph.add_node(Node::Technician(1234));
    let index_workorder = schedule_graph.add_node(Node::WorkOrder(1122334455));
    let index_period = schedule_graph.add_period(Period::from_start_date(date)).unwrap();

    assert!(schedule_graph.nodes()[index_worker] == Node::Technician(1234));
    assert!(schedule_graph.nodes()[index_workorder] == Node::WorkOrder(1122334455));
    assert!(schedule_graph.nodes()[index_period] == Node::Period(Period::from_start_date(date)));

    schedule_graph
        .add_assignment_work_order(1234, 1122334455, Period::from_start_date(date))
        .unwrap();
}

#[test]
fn test_add_work_order() {
    let mut schedule_graph = ScheduleGraph::new();

    let _skill_node_id = schedule_graph.add_node(Node::Skill(Skill::MtnMech));

    let basic_start_date = ymd(2025, 1, 13);
    let work_order = WorkOrder::new(
        1122334455,
        basic_start_date,
        vec![
            Activity::new(10, 1, Skill::MtnMech),
            Activity::new(20, 1, Skill::MtnMech),
            Activity::new(30, 1, Skill::MtnMech),
        ],
    )
    .unwrap();

    assert_eq!(
        schedule_graph.add_work_order(&work_order),
        Err(ScheduleGraphErrors::DayMissing)
    );

    let _period_node_id = schedule_graph
        .add_period(Period::from_start_date(basic_start_date))
        .unwrap();
    let work_order_node_id = schedule_graph
        .add_work_order(&work_order)
        .expect("Could not add work order");

    assert_eq!(
        schedule_graph.nodes()[work_order_node_id],
        Node::WorkOrder(1122334455)
    );

    assert_eq!(
        schedule_graph.nodes()[work_order_node_id + 1],
        Node::Activity(ActivityNode {
            activity_number: 10,
            number_of_people: 1
        })
    );
    assert_eq!(
        schedule_graph.nodes()[work_order_node_id + 2],
        Node::Activity(ActivityNode {
            activity_number: 20,
            number_of_people: 1
        })
    );
    assert_eq!(
        schedule_graph.nodes()[work_order_node_id + 3],
        Node::Activity(ActivityNode {
            activity_number: 30,
            number_of_people: 1
        })
    );

    let _edge_index = schedule_graph.incidence_list()[work_order_node_id + 1]
        .iter()
        .find(|e| {
            schedule_graph.hyperedges()[**e]
                == HyperEdge {
                    edge_type: EdgeType::FinishStart,
                    nodes: vec![work_order_node_id + 1, work_order_node_id + 2],
                }
        })
        .unwrap();
    let _edge_index = schedule_graph.incidence_list()[work_order_node_id + 2]
        .iter()
        .find(|e| {
            schedule_graph.hyperedges()[**e]
                == HyperEdge {
                    edge_type: EdgeType::FinishStart,
                    nodes: vec![work_order_node_id + 2, work_order_node_id + 3],
                }
        })
        .unwrap();
    assert!(!schedule_graph.incidence_list()[work_order_node_id + 3]
        .iter()
        .any(|e| {
            schedule_graph.hyperedges()[*e]
                == HyperEdge {
                    edge_type: EdgeType::FinishStart,
                    nodes: vec![work_order_node_id + 3, work_order_node_id + 4],
                }
        }));

    let basic_start_day_node_id = schedule_graph.day_node(basic_start_date).unwrap();

    let work_order_edge_ids = &schedule_graph.incidence_list()[work_order_node_id];

    for edge_id in work_order_edge_ids {
        let hyper_edge = &schedule_graph.hyperedges()[*edge_id];
        let edge_type = &hyper_edge.edge_type;
        let nodes = &hyper_edge.nodes;
        match edge_type {
            EdgeType::BasicStart => {
                assert_eq!(basic_start_day_node_id, nodes[1]);
                assert_eq!(work_order_node_id, nodes[0]);
            }
            EdgeType::Contains => {
                assert_eq!(work_order_node_id, nodes[0]);
            }
            _ => panic!("unexpected edge kind incident to the work-order node"),
        }
    }
}

#[test]
fn test_add_technician() {
    let mut schedule_graph = ScheduleGraph::new();

    let start = at(ymd(2025, 1, 1), 8, 0, 0);
    let end = at(ymd(2025, 1, 7), 17, 0, 0);

    let technician = Technician::builder(1)
        .add_availability(start, end)
        .unwrap()
        .add_skill(Skill::MtnMech)
        .build();

    schedule_graph.add_node(Node::Skill(Skill::MtnMech));

    schedule_graph
        .add_period(Period::from_start_date(start.date))
        .unwrap();

    let availability = Availability::new(start, end);

    schedule_graph.add_technician(technician, availability).unwrap();

    assert_eq!(schedule_graph.nodes()[0], Node::Skill(Skill::MtnMech));

    let mut date = start.date;
    for index in 1..=14 {
        assert_eq!(schedule_graph.nodes()[index], Node::Day(date));
        date = date.next_day();
    }

    assert_eq!(
        schedule_graph.nodes()[15],
        Node::Period(Period::from_start_date(start.date))
    );

    assert_eq!(
        schedule_graph.hyperedges()[0].nodes,
        vec![16, 0, 1, 2, 3, 4, 5, 6, 7]
    );

    assert_eq!(schedule_graph.incidence_list()[16], vec![0]);
    assert_eq!(schedule_graph.incidence_list()[0], vec![0]);
    assert_eq!(schedule_graph.incidence_list()[1], vec![0]);
    assert_eq!(schedule_graph.incidence_list()[2], vec![0]);
    assert_eq!(schedule_graph.incidence_list()[3], vec![0]);
    assert_eq!(schedule_graph.incidence_list()[4], vec![0]);
    assert_eq!(schedule_graph.incidence_list()[5], vec![0]);
    assert_eq!(schedule_graph.incidence_list()[6], vec![0]);
    assert_eq!(schedule_graph.incidence_list()[7], vec![0]);
}

#[test]
fn test_neighbors() {
    let mut schedule_graph = ScheduleGraph::new();

    let date = ymd(2025, 1, 1);
    let technician_node_1 = Node::Technician(1234);
    let technician_node_index_1 = schedule_graph.add_node(technician_node_1.clone());
    let work_order_node_1 = Node::WorkOrder(1122334455);
    let work_order_node_index_1 = schedule_graph.add_node(work_order_node_1.clone());
    let period_node_1 = Node::Period(Period::from_start_date(date));
    let period_node_index_1 = schedule_graph.add_node(period_node_1.clone());

    assert!(schedule_graph.nodes()[technician_node_index_1] == technician_node_1);
    assert!(schedule_graph.nodes()[work_order_node_index_1] == work_order_node_1);
    assert!(schedule_graph.nodes()[period_node_index_1] == period_node_1);

    let assignment_edge_index_0 = schedule_graph
        .add_assignment_work_order(1234, 1122334455, Period::from_start_date(date))
        .unwrap();

    let technician_node_2 = Node::Technician(1236);
    let technician_node_index_2 = schedule_graph.add_node(technician_node_2.clone());
    let work_order_node_2 = Node::WorkOrder(1122334456);
    let work_order_node_index_2 = schedule_graph.add_node(work_order_node_2.clone());

    assert!(schedule_graph.nodes()[technician_node_index_2] == technician_node_2);
    assert!(schedule_graph.nodes()[work_order_node_index_2] == work_order_node_2);
    assert!(schedule_graph.nodes()[period_node_index_1] == period_node_1);
    let assignment_edge_index_1 = schedule_graph
        .add_assignment_work_order(1236, 1122334456, Period::from_start_date(date))
        .unwrap();

    let assignment_edges = schedule_graph
        .find_all_assignments_for_period(Period::from_start_date(date))
        .unwrap();

    assert_eq!(assignment_edges[0], assignment_edge_index_0);

    assert_eq!(assignment_edges[1], assignment_edge_index_1);
}

#[test]
fn test_skill_assign() {
    let mut schedule_graph = ScheduleGraph::new();

    let _worker_node = schedule_graph.add_node(Node::Technician(1234));
    let _skill_node = schedule_graph.add_node(Node::Skill(Skill::MtnMech));

    assert!(schedule_graph
        .add_assign_skill_to_worker(1234, Skill::MtnMech)
        .is_ok());
    assert_eq!(
        schedule_graph.add_assign_skill_to_worker(1234, Skill::MtnElec),
        Err(ScheduleGraphErrors::SkillMissing)
    );
}

#[test]
fn test_add_period() {
    let mut schedule_state = ScheduleGraph::new();

    let period_1 = Period::from_start_date(ymd(2025, 1, 13));
    let period_2 = Period::from_start_date(ymd(2025, 1, 27));
    let period_3 = Period::from_start_date(ymd(2025, 2, 10));

    let _node_id = schedule_state.add_period(period_1).unwrap();
    let _node_id = schedule_state.add_period(period_2).unwrap();
    let _node_id = schedule_state.add_period(period_3).unwrap();

    let node_id = schedule_state.add_period(period_3);

    assert!(schedule_state.period_node(period_1).is_some());
    assert!(schedule_state.period_node(period_2).is_some());
    assert!(schedule_state.period_node(period_3).is_some());

    assert!(node_id == Err(ScheduleGraphErrors::PeriodDuplicate));
    let start_date = ymd(2025, 1, 13);
    let finish_date = ymd(2025, 2, 23);

    let mut date = start_date;
    while date.le(finish_date) {
        assert!(schedule_state.day_node(date).is_some(), "a day of the periods is missing");
        date = date.next_day();
    }

    let hash_set_days = schedule_state
        .nodes()
        .iter()
        .filter(|&e| matches!(e, Node::Day(_)))
        .collect::<HashSet<_>>();

    let vec_days = schedule_state
        .nodes()
        .iter()
        .filter(|&e| matches!(e, Node::Day(_)))
        .collect::<Vec<_>>();

    assert_eq!(hash_set_days.len(), vec_days.len())
}

#[test]
fn test_multi_directional_hypergraph() {
    let mut schedule_graph = ScheduleGraph::new();

    let node_0 = Node::WorkOrder(1111990000);
    let node_1 = Node::WorkOrder(1111990001);
    let node_2 = Node::WorkOrder(1111990002);
    let node_3 = Node::WorkOrder(1111990003);
    let node_4 = Node::WorkOrder(1111990004);
    let node_5 = Node::WorkOrder(1111990005);
    let node_6 = Node::WorkOrder(1111990006);
    let node_7 = Node::WorkOrder(1111990007);

    let node_index_0 = schedule_graph.add_node(node_0);
    let node_index_1 = schedule_graph.add_node(node_1);
    let node_index_2 = schedule_graph.add_node(node_2);
    let node_index_3 = schedule_graph.add_node(node_3);
    let node_index_4 = schedule_graph.add_node(node_4);
    let node_index_5 = schedule_graph.add_node(node_5);
    let node_index_6 = schedule_graph.add_node(node_6);
    let node_index_7 = schedule_graph.add_node(node_7);

    let edge_index_0 = schedule_graph.add_edge(EdgeType::Assign(None), vec![0, 2, 4, 6]);
    let edge_index_1 = schedule_graph.add_edge(EdgeType::Assign(None), vec![1, 3, 5, 7]);
    let edge_index_2 = schedule_graph.add_edge(EdgeType::Assign(None), vec![0, 3, 6]);

    assert_eq!(
        schedule_graph.incidence_list()[node_index_0],
        vec![edge_index_0, edge_index_2]
    );
    assert_eq!(schedule_graph.incidence_list()[node_index_1], vec![edge_index_1]);
    assert_eq!(schedule_graph.incidence_list()[node_index_2], vec![edge_index_0]);
    assert_eq!(
        schedule_graph.incidence_list()[node_index_3],
        vec![edge_index_1, edge_index_2]
    );
    assert_eq!(schedule_graph.incidence_list()[node_index_4], vec![edge_index_0]);
    assert_eq!(schedule_graph.incidence_list()[node_index_5], vec![edge_index_1]);
    assert_eq!(
        schedule_graph.incidence_list()[node_index_6],
        vec![edge_index_0, edge_index_2]
    );
    assert_eq!(schedule_graph.incidence_list()[node_index_7], vec![edge_index_1]);
}

#[test]
fn test_add_exclusion() {
    let mut schedule_graph = ScheduleGraph::new();

    let basic_start_date = ymd(2025, 1, 1);
    let work_order = WorkOrder::new(1111990000, basic_start_date, vec![]).unwrap();

    let period = Period::from_start_date(basic_start_date);

    let period_node_index = schedule_graph.add_period(period).unwrap();
    let work_order_node_index = schedule_graph.add_work_order(&work_order).unwrap();

    let exclusion_edge_index = schedule_graph.add_exclusion(&1111990000, &period).unwrap();

    assert_eq!(
        schedule_graph.hyperedges()[1],
        HyperEdge {
            edge_type: EdgeType::Exclude,
            nodes: vec![
                work_order_node_index,
                period_node_index,
                0,
                1,
                2,
                3,
                4,
                5,
                6,
                7,
                8,
                9,
                10,
                11,
                12,
                13,
            ]
        }
    );

    assert!(schedule_graph.incidence_list()[work_order_node_index].contains(&exclusion_edge_index));
    assert!(schedule_graph.incidence_list()[period_node_index].contains(&exclusion_edge_index));
}

#[test]
fn test_add_assignment_activity() {
    let mut schedule_graph = ScheduleGraph::new();

    // Create test dates
    let basic_start_date_0 = ymd(2025, 1, 13);
    let basic_start_date_1 = ymd(2025, 1, 27);
    let availability_start_0 = at(basic_start_date_0, 8, 0, 0);
    let availability_end_0 = at(basic_start_date_0, 17, 0, 0);
    let availability_start_1 = at(basic_start_date_1, 8, 0, 0);
    let availability_end_1 = at(basic_start_date_1, 17, 0, 0);

    // Add required skills first
    let _skill_node_mech = schedule_graph.add_node(Node::Skill(Skill::MtnMech));
    let _skill_node_elec = schedule_graph.add_node(Node::Skill(Skill::MtnElec));

    // Add period (creates day nodes)
    let period = Period::from_start_date(basic_start_date_0);
    let _period_node_index_0 = schedule_graph.add_period(period).unwrap();
    let period_1 = Period::from_start_date(basic_start_date_1);
    let _period_node_index_1 = schedule_graph.add_period(period_1).unwrap();

    // Create WorkOrder with activities
    let work_order = WorkOrder::new(
        1122334455,
        basic_start_date_0,
        vec![
            Activity::new(10, 2, Skill::MtnMech),
            Activity::new(20, 3, Skill::MtnElec),
        ],
    )
    .unwrap();

    // Add WorkOrder to graph
    let _work_order_node_id = schedule_graph.add_work_order(&work_order).unwrap();

    // Create technicians using the builder pattern
    let technician_1 = Technician::builder(1001)
        .add_availability(availability_start_0, availability_end_0)
        .unwrap()
        .add_skill(Skill::MtnMech)
        .build();

    let technician_2 = Technician::builder(1002)
        .add_availability(availability_start_1, availability_end_1)
        .unwrap()
        .add_skill(Skill::MtnElec)
        .build();

    let technician_3 = Technician::builder(1003)
        .add_availability(availability_start_0, availability_end_0)
        .unwrap()
        .add_skill(Skill::MtnElec)
        .build();

    // Add technicians to graph
    let availability_1 = Availability::new(availability_start_0, availability_end_0);
    let availability_2 = Availability::new(availability_start_1, availability_end_1);
    let availability_3 = Availability::new(availability_start_0, availability_end_0);

    let _tech_edge_1 = schedule_graph.add_technician(technician_1, availability_1).unwrap();
    let _tech_edge_2 = schedule_graph.add_technician(technician_2, availability_2).unwrap();
    let _tech_edge_3 = schedule_graph.add_technician(technician_3, availability_3).unwrap();

    // Technician 1002 is not available on the requested day.
    let assignment_edge_error = schedule_graph.add_assignment_activity(
        vec![1001, 1002],
        1122334455,
        10,
        vec![basic_start_date_0],
        (
            Time::new(9, 0, 0).unwrap(),
            Time::new(11, 0, 0).unwrap(),
        ),
    );

    assert_eq!(
        assignment_edge_error,
        Err(ScheduleGraphErrors::WorkerUnavailable)
    );

    let assignment_edge = schedule_graph
        .add_assignment_activity(
            vec![1001, 1003],
            1122334455,
            10,
            vec![basic_start_date_0],
            (
                Time::new(9, 0, 0).unwrap(),
                Time::new(11, 0, 0).unwrap(),
            ),
        )
        .unwrap();

    // Verify the assignment was created
    let hyperedge = &schedule_graph.hyperedges()[assignment_edge];

    // Should be an assignment edge
    assert!(matches!(hyperedge.edge_type, EdgeType::Assign(Some(_))));

    // Should contain activity + 2 technicians + 1 day = 4 nodes
    assert_eq!(hyperedge.nodes.len(), 4);

    // Verify both technician nodes are in the assignment
    let technician_1_node_id = schedule_graph.technician_node(1001).unwrap();
    let technician_3_node_id = schedule_graph.technician_node(1003).unwrap();
    assert!(hyperedge.nodes.contains(&technician_1_node_id));
    assert!(hyperedge.nodes.contains(&technician_3_node_id));

    // Verify the assignment shows up in both technicians' incidence lists
    assert!(schedule_graph.incidence_list()[technician_1_node_id].contains(&assignment_edge));
    assert!(schedule_graph.incidence_list()[technician_3_node_id].contains(&assignment_edge));

    // Verify the day node is in the assignment
    let day_node_id = schedule_graph.day_node(basic_start_date_0).unwrap();
    assert!(hyperedge.nodes.contains(&day_node_id));
}

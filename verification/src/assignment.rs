//! Assignment of technicians to activities, and the period query over
//! assignment edges.

use vstd::prelude::*;
use crate::calendar::Date;
use crate::period::Period;
use crate::schedule_graph::{
    assoc_find, EdgeIndex, EdgeType, FinishTime, Node, NodeIndex, ScheduleGraph,
    ScheduleGraphErrors, StartTime, TechnicianId,
};
use crate::work_order::{ActivityNumber, WorkOrderNumber};

verus! {

impl ScheduleGraph {
    /// A node qualifies for a period query when it is that period's
    /// node, or a day node whose date lies in the half-open
    /// thirteen-day window from the period's start.
    pub open spec fn node_matches_period(self, n: NodeIndex, period: Period) -> bool {
        n < self.nodes@.len() && match self.nodes@[n as int] {
            Node::Period(p) => p == period,
            Node::Day(d) => period.0.spec_le(d) && d.spec_lt(period.0.spec_plus_days(13)),
            _ => false,
        }
    }

    /// The query hits one edge contributes: its own handle, once per
    /// qualifying node in its list, in list order.
    pub open spec fn edge_period_hits(self, list: Seq<NodeIndex>, period: Period, e: EdgeIndex) -> Seq<
        EdgeIndex,
    >
        decreases list.len(),
    {
        if list.len() == 0 {
            Seq::empty()
        } else {
            self.edge_period_hits(list.drop_last(), period, e) + (if self.node_matches_period(
                list.last(),
                period,
            ) {
                seq![e]
            } else {
                Seq::empty()
            })
        }
    }

    /// The hits of every assignment edge with handle below `upto`, in
    /// edge creation order. The same handle may appear more than once
    /// when an edge holds several qualifying nodes; callers that need a
    /// set must deduplicate themselves.
    pub open spec fn assignment_hits(self, upto: int, period: Period) -> Seq<EdgeIndex>
        decreases upto,
    {
        if upto <= 0 {
            Seq::empty()
        } else {
            self.assignment_hits(upto - 1, period) + (if self.hyperedges@[upto
                - 1].edge_type matches EdgeType::Assign(_) {
                self.edge_period_hits(
                    self.hyperedges@[upto - 1].nodes@,
                    period,
                    (upto - 1) as EdgeIndex,
                )
            } else {
                Seq::empty()
            })
        }
    }

    /// Scans every assignment edge and returns each edge handle once
    /// per qualifying node it touches: the period's own node, or a day
    /// node within the half-open thirteen-day window from the period's
    /// start. Fails when the period has no node.
    pub fn find_all_assignments_for_period(&self, period_start_date: Period) -> (r: Result<
        Vec<EdgeIndex>,
        ScheduleGraphErrors,
    >)
        requires
            self.wf(),
        ensures
            match r {
                Err(e) => e == ScheduleGraphErrors::PeriodMissing && !self.has_node(
                    Node::Period(period_start_date),
                ),
                Ok(v) => self.has_node(Node::Period(period_start_date)) && v@
                    == self.assignment_hits(self.hyperedges@.len() as int, period_start_date),
            },
    {
        let n_nodes: usize = self.nodes.len();
        let mut found = false;
        let mut i: usize = 0;
        while i < n_nodes && !found
            invariant
                n_nodes == self.nodes@.len(),
                0 <= i <= n_nodes,
                found ==> self.has_node(Node::Period(period_start_date)),
                !found ==> forall|t: int|
                    0 <= t < i ==> self.nodes@[t] != Node::Period(period_start_date),
            decreases n_nodes - i + (if found {
                0int
            } else {
                1int
            }),
        {
            if self.nodes[i] == Node::Period(period_start_date) {
                proof {
                    assert(self.has_node(Node::Period(period_start_date)));
                }
                found = true;
            }
            i = i + 1;
        }
        if !found {
            proof {
                if self.has_node(Node::Period(period_start_date)) {
                    let t = choose|t: int|
                        0 <= t < self.nodes@.len() && self.nodes@[t] == Node::Period(
                            period_start_date,
                        );
                    assert(self.nodes@[t] != Node::Period(period_start_date));
                }
            }
            return Err(ScheduleGraphErrors::PeriodMissing);
        }

        let start: Date = period_start_date.start_date();
        proof {
            // A present period was created through the period index, so
            // its date is well-formed and far from the last
            // representable date.
            let t = choose|t: int|
                0 <= t < self.nodes@.len() && self.nodes@[t] == Node::Period(period_start_date);
            assert(self.nodes@[t] == Node::Period(period_start_date));
            let p = choose|p: int|
                0 <= p < self.period_indices@.len() && (#[trigger] self.period_indices@[p]) == (
                    period_start_date,
                    t as NodeIndex,
                );
            assert(self.period_indices@[p].0.0.wf() && self.period_indices@[p].0.0.year < 0xffff);
            assert(start.key() + 4 * 13 <= crate::calendar::max_date_key());
        }
        let window_end: Date = start.plus_days(13);

        let n_edges: usize = self.hyperedges.len();
        let mut edges: Vec<EdgeIndex> = Vec::new();
        let mut e: usize = 0;
        while e < n_edges
            invariant
                self.wf(),
                n_edges == self.hyperedges@.len(),
                0 <= e <= n_edges,
                self.has_node(Node::Period(period_start_date)),
                start == period_start_date.0,
                window_end == start.spec_plus_days(13),
                edges@ == self.assignment_hits(e as int, period_start_date),
            decreases n_edges - e,
        {
            let is_assign = matches!(self.hyperedges[e].edge_type, EdgeType::Assign(_));
            if is_assign {
                let n_list: usize = self.hyperedges[e].nodes.len();
                let mut j: usize = 0;
                while j < n_list
                    invariant
                        self.wf(),
                        n_edges == self.hyperedges@.len(),
                        0 <= e < n_edges,
                        self.hyperedges@[e as int].edge_type matches EdgeType::Assign(_),
                        n_list == self.hyperedges@[e as int].nodes@.len(),
                        0 <= j <= n_list,
                        start == period_start_date.0,
                        window_end == start.spec_plus_days(13),
                        edges@ == self.assignment_hits(e as int, period_start_date)
                            + self.edge_period_hits(
                            self.hyperedges@[e as int].nodes@.take(j as int),
                            period_start_date,
                            e,
                        ),
                    decreases n_list - j,
                {
                    let node_index = self.hyperedges[e].nodes[j];
                    proof {
                        let list = self.hyperedges@[e as int].nodes@;
                        assert(list.take(j as int + 1).drop_last() =~= list.take(j as int));
                        assert(list.take(j as int + 1).last() == list[j as int]);
                        assert(node_index < self.nodes@.len());
                    }
                    let hit = match self.nodes[node_index] {
                        Node::Period(p) => p == period_start_date,
                        Node::Day(d) => start.le(d) && d.lt(window_end),
                        _ => false,
                    };
                    if hit {
                        edges.push(e);
                    }
                    proof {
                        let list = self.hyperedges@[e as int].nodes@;
                        assert(hit == self.node_matches_period(list[j as int], period_start_date));
                        assert(edges@ =~= self.assignment_hits(e as int, period_start_date)
                            + self.edge_period_hits(
                            list.take(j as int + 1),
                            period_start_date,
                            e,
                        ));
                    }
                    j = j + 1;
                }
                proof {
                    let list = self.hyperedges@[e as int].nodes@;
                    assert(list.take(n_list as int) =~= list);
                    assert(edges@ =~= self.assignment_hits(e as int + 1, period_start_date));
                }
            } else {
                proof {
                    assert(edges@ =~= self.assignment_hits(e as int + 1, period_start_date));
                }
            }
            e = e + 1;
        }
        Ok(edges)
    }

    /// Edge `e`'s node list holds a day node carrying this date.
    pub open spec fn edge_has_day(self, e: int, d: Date) -> bool {
        exists|j: int|
            0 <= j < self.hyperedges@[e].nodes@.len() && self.nodes@[(
            #[trigger] self.hyperedges@[e].nodes@[j]) as int] == Node::Day(d)
    }

    /// Edge `e` is an availability edge whose day set covers all the
    /// requested days.
    pub open spec fn available_edge_covers(self, e: int, days: Seq<Date>) -> bool {
        &&& self.hyperedges@[e].edge_type == EdgeType::Available
        &&& forall|m: int| 0 <= m < days.len() ==> self.edge_has_day(e, #[trigger] days[m])
    }

    /// Some availability edge of this technician node covers all the
    /// requested days.
    pub open spec fn technician_covered(self, tech_node: int, days: Seq<Date>) -> bool {
        exists|k: int|
            0 <= k < self.incidence_list@[tech_node]@.len() && self.available_edge_covers(
                (#[trigger] self.incidence_list@[tech_node]@[k]) as int,
                days,
            )
    }

    /// The fault of the first technician, from position `i` on, that is
    /// unknown or whose availability does not cover the requested days;
    /// `None` when every one passes.
    pub open spec fn first_technician_fault(
        self,
        techs: Seq<TechnicianId>,
        days: Seq<Date>,
        i: int,
    ) -> Option<ScheduleGraphErrors>
        decreases techs.len() - i,
    {
        if i < 0 || i >= techs.len() {
            None
        } else {
            match assoc_find(self.technician_indices@, techs[i]) {
                None => Some(ScheduleGraphErrors::WorkerMissing),
                Some(t) => if !self.technician_covered(t as int, days) {
                    Some(ScheduleGraphErrors::WorkerUnavailable)
                } else {
                    self.first_technician_fault(techs, days, i + 1)
                },
            }
        }
    }

    /// The first activity node with this activity number reachable from
    /// the work-order node's incident edges, scanning edges in
    /// incidence order and each edge's node list left to right, from
    /// list position `j` on.
    pub open spec fn find_activity_in_list(
        self,
        list: Seq<NodeIndex>,
        activity_number: ActivityNumber,
        j: int,
    ) -> Option<NodeIndex>
        decreases list.len() - j,
    {
        if j < 0 || j >= list.len() {
            None
        } else if list[j] < self.nodes@.len() && (self.nodes@[list[j] as int] matches Node::Activity(
            a,
        ) && a.activity_number == activity_number) {
            Some(list[j])
        } else {
            self.find_activity_in_list(list, activity_number, j + 1)
        }
    }

    /// The first matching activity node over the incident `Contains`
    /// edges of `wo_node`, from incidence position `k` on; edges of any
    /// other kind are passed over.
    pub open spec fn find_activity_from(
        self,
        wo_node: int,
        activity_number: ActivityNumber,
        k: int,
    ) -> Option<NodeIndex>
        decreases self.incidence_list@[wo_node]@.len() - k,
    {
        if k < 0 || k >= self.incidence_list@[wo_node]@.len() {
            None
        } else {
            let e = self.incidence_list@[wo_node]@[k];
            if self.hyperedges@[e as int].edge_type == EdgeType::Contains {
                match self.find_activity_in_list(
                    self.hyperedges@[e as int].nodes@,
                    activity_number,
                    0,
                ) {
                    Some(x) => Some(x),
                    None => self.find_activity_from(wo_node, activity_number, k + 1),
                }
            } else {
                self.find_activity_from(wo_node, activity_number, k + 1)
            }
        }
    }

    /// The technician-node handles for a list of technician ids, in
    /// list order.
    pub open spec fn technician_handles(self, ids: Seq<TechnicianId>) -> Seq<NodeIndex> {
        ids.map_values(|id: TechnicianId| self.node_id(Node::Technician(id)) as NodeIndex)
    }

    /// Assigns technicians to one activity of a work order on concrete
    /// days with a concrete time window, as an `Assign` edge
    /// `[activity, technicians.., days..]`.
    ///
    /// Validation order: every requested day must have a node; every
    /// technician must exist and hold an availability edge whose days
    /// cover all requested days (checked in list order, stopping at the
    /// first uncovered one); the work order must exist; the activity is
    /// resolved among the work order's incident `Contains` edges; and the
    /// technician count must not exceed the activity's headcount.
    pub fn add_assignment_activity(
        &mut self,
        technicians: Vec<TechnicianId>,
        work_order_number: WorkOrderNumber,
        activity_number: ActivityNumber,
        days: Vec<Date>,
        start_and_finish_time: (StartTime, FinishTime),
    ) -> (r: Result<EdgeIndex, ScheduleGraphErrors>)
        requires
            old(self).wf(),
        ensures
            match r {
                Err(e) => {
                    &&& *final(self) == *old(self)
                    &&& (e == ScheduleGraphErrors::DayMissing && old(self).some_day_missing(days@))
                        || (!old(self).some_day_missing(days@) && (e
                        == ScheduleGraphErrors::WorkerMissing || e
                        == ScheduleGraphErrors::WorkerUnavailable) && old(
                        self,
                    ).first_technician_fault(technicians@, days@, 0) == Some(e)) || (!old(
                        self,
                    ).some_day_missing(days@) && old(self).first_technician_fault(
                        technicians@,
                        days@,
                        0,
                    ) is None && e == ScheduleGraphErrors::WorkOrderMissing && !old(self).has_node(
                        Node::WorkOrder(work_order_number),
                    )) || (!old(self).some_day_missing(days@) && old(self).first_technician_fault(
                        technicians@,
                        days@,
                        0,
                    ) is None && old(self).has_node(Node::WorkOrder(work_order_number)) && e
                        == ScheduleGraphErrors::ActivityMissing && old(self).find_activity_from(
                        old(self).node_id(Node::WorkOrder(work_order_number)),
                        activity_number,
                        0,
                    ) is None) || (!old(self).some_day_missing(days@) && old(
                        self,
                    ).first_technician_fault(technicians@, days@, 0) is None && old(self).has_node(
                        Node::WorkOrder(work_order_number),
                    ) && e == ScheduleGraphErrors::ActivityExceedNumberOfPeople && (old(
                        self,
                    ).find_activity_from(
                        old(self).node_id(Node::WorkOrder(work_order_number)),
                        activity_number,
                        0,
                    ) matches Some(act) && (old(self).nodes@[act as int] matches Node::Activity(a)
                        && technicians@.len() > a.number_of_people)))
                },
                Ok(edge) => {
                    &&& !old(self).some_day_missing(days@)
                    &&& old(self).first_technician_fault(technicians@, days@, 0) is None
                    &&& old(self).has_node(Node::WorkOrder(work_order_number))
                    &&& old(self).find_activity_from(
                        old(self).node_id(Node::WorkOrder(work_order_number)),
                        activity_number,
                        0,
                    ) matches Some(act) && {
                        &&& old(self).nodes@[act as int] matches Node::Activity(a)
                            && technicians@.len() <= a.number_of_people
                        &&& edge == old(self).hyperedges@.len()
                        &&& ScheduleGraph::edge_appended(
                            *old(self),
                            *final(self),
                            EdgeType::Assign(Some(start_and_finish_time)),
                            seq![act] + old(self).technician_handles(technicians@) + old(
                                self,
                            ).day_handles(days@),
                        )
                        &&& final(self).wf()
                    }
                },
            },
    {
        let ghost pre = *old(self);

        // Resolve every requested day.
        let n_days: usize = days.len();
        let mut date_node_indices: Vec<NodeIndex> = Vec::new();
        let mut m: usize = 0;
        while m < n_days
            invariant
                *self == pre,
                pre == *old(self),
                pre.wf(),
                n_days == days@.len(),
                0 <= m <= n_days,
                date_node_indices@ == pre.day_handles(days@.take(m as int)),
                forall|t: int| 0 <= t < m ==> pre.has_node(Node::Day(#[trigger] days@[t])),
                forall|t: int|
                    0 <= t < date_node_indices@.len() ==> (#[trigger] date_node_indices@[t])
                        < pre.nodes@.len(),
            decreases n_days - m,
        {
            let d = days[m];
            let lookup = self.day_node(d);
            proof {
                self.lemma_day_lookup(d);
            }
            match lookup {
                None => {
                    proof {
                        assert(!pre.has_node(Node::Day(days@[m as int])));
                    }
                    return Err(ScheduleGraphErrors::DayMissing);
                },
                Some(ix) => {
                    date_node_indices.push(ix);
                    proof {
                        assert(date_node_indices@ =~= pre.day_handles(days@.take(m as int + 1)));
                    }
                },
            }
            m = m + 1;
        }
        proof {
            assert(days@.take(n_days as int) =~= days@);
            if pre.some_day_missing(days@) {
                let t = choose|t: int|
                    0 <= t < days@.len() && !pre.has_node(Node::Day(#[trigger] days@[t]));
                assert(pre.has_node(Node::Day(days@[t])));
            }
        }

        // Resolve every technician and check its availability coverage.
        let n_techs: usize = technicians.len();
        let mut technician_node_indices: Vec<NodeIndex> = Vec::new();
        let mut i: usize = 0;
        while i < n_techs
            invariant
                *self == pre,
                pre == *old(self),
                pre.wf(),
                n_techs == technicians@.len(),
                n_days == days@.len(),
                0 <= i <= n_techs,
                !pre.some_day_missing(days@),
                technician_node_indices@ == pre.technician_handles(technicians@.take(i as int)),
                forall|t: int|
                    0 <= t < technician_node_indices@.len() ==> (
                    #[trigger] technician_node_indices@[t]) < pre.nodes@.len(),
                pre.first_technician_fault(technicians@, days@, 0)
                    == pre.first_technician_fault(technicians@, days@, i as int),
            decreases n_techs - i,
        {
            let technician_id = technicians[i];
            let lookup = self.technician_node(technician_id);
            proof {
                self.lemma_technician_lookup(technician_id);
            }
            let technician_node_index = match lookup {
                Some(t) => t,
                None => {
                    proof {
                        assert(pre.first_technician_fault(technicians@, days@, i as int) == Some(
                            ScheduleGraphErrors::WorkerMissing,
                        ));
                    }
                    return Err(ScheduleGraphErrors::WorkerMissing);
                },
            };
            if !self.technician_covered_by_availability(technician_node_index, &days) {
                proof {
                    assert(pre.first_technician_fault(technicians@, days@, i as int) == Some(
                        ScheduleGraphErrors::WorkerUnavailable,
                    ));
                }
                return Err(ScheduleGraphErrors::WorkerUnavailable);
            }
            technician_node_indices.push(technician_node_index);
            proof {
                assert(technician_node_indices@ =~= pre.technician_handles(
                    technicians@.take(i as int + 1),
                ));
                assert(pre.first_technician_fault(technicians@, days@, i as int)
                    == pre.first_technician_fault(technicians@, days@, i as int + 1));
            }
            i = i + 1;
        }

        // Resolve the work order and the activity within it.
        let work_order_lookup = self.work_order_node(work_order_number);
        proof {
            self.lemma_work_order_lookup(work_order_number);
        }
        let work_order_node_index = match work_order_lookup {
            Some(w) => w,
            None => {
                return Err(ScheduleGraphErrors::WorkOrderMissing);
            },
        };

        let activity_lookup = self.find_activity_node(work_order_node_index, activity_number);
        let activity_node_index = match activity_lookup {
            Some(a) => a,
            None => {
                return Err(ScheduleGraphErrors::ActivityMissing);
            },
        };

        let number_of_people: u64 = match self.nodes[activity_node_index] {
            Node::Activity(a) => a.number_of_people,
            _ => {
                proof {
                    assert(false);
                }
                0
            },
        };
        if technicians.len() as u64 > number_of_people {
            return Err(ScheduleGraphErrors::ActivityExceedNumberOfPeople);
        }

        let mut final_nodes_in_hyperedge: Vec<NodeIndex> = Vec::new();
        final_nodes_in_hyperedge.push(activity_node_index);
        final_nodes_in_hyperedge.append(&mut technician_node_indices);
        final_nodes_in_hyperedge.append(&mut date_node_indices);
        proof {
            assert(technicians@.take(n_techs as int) =~= technicians@);
            assert(final_nodes_in_hyperedge@ =~= seq![activity_node_index]
                + pre.technician_handles(technicians@) + pre.day_handles(days@));
        }
        let e = self.add_edge(
            EdgeType::Assign(Some(start_and_finish_time)),
            final_nodes_in_hyperedge,
        );
        Ok(e)
    }

    /// Whether edge `e`'s node list holds a day node with date `d`.
    fn edge_contains_day(&self, e: EdgeIndex, d: Date) -> (b: bool)
        requires
            self.wf(),
            e < self.hyperedges@.len(),
        ensures
            b == self.edge_has_day(e as int, d),
    {
        let n_list: usize = self.hyperedges[e].nodes.len();
        let mut j: usize = 0;
        while j < n_list
            invariant
                self.wf(),
                e < self.hyperedges@.len(),
                n_list == self.hyperedges@[e as int].nodes@.len(),
                0 <= j <= n_list,
                forall|t: int|
                    0 <= t < j ==> self.nodes@[(#[trigger] self.hyperedges@[e as int].nodes@[t])
                        as int] != Node::Day(d),
            decreases n_list - j,
        {
            let node_index = self.hyperedges[e].nodes[j];
            proof {
                assert(node_index < self.nodes@.len());
            }
            if self.nodes[node_index] == Node::Day(d) {
                proof {
                    assert(self.nodes@[self.hyperedges@[e as int].nodes@[j as int] as int]
                        == Node::Day(d));
                }
                return true;
            }
            j = j + 1;
        }
        proof {
            if self.edge_has_day(e as int, d) {
                let j2 = choose|j2: int|
                    0 <= j2 < self.hyperedges@[e as int].nodes@.len() && self.nodes@[(
                    #[trigger] self.hyperedges@[e as int].nodes@[j2]) as int] == Node::Day(d);
                assert(self.nodes@[self.hyperedges@[e as int].nodes@[j2] as int] != Node::Day(d));
            }
        }
        false
    }

    /// Whether edge `e`'s day set covers every requested day.
    fn edge_covers_days(&self, e: EdgeIndex, days: &Vec<Date>) -> (b: bool)
        requires
            self.wf(),
            e < self.hyperedges@.len(),
        ensures
            b == forall|m: int| 0 <= m < days@.len() ==> self.edge_has_day(e as int, #[trigger] days@[m]),
    {
        let n_days: usize = days.len();
        let mut m: usize = 0;
        while m < n_days
            invariant
                self.wf(),
                e < self.hyperedges@.len(),
                n_days == days@.len(),
                0 <= m <= n_days,
                forall|t: int| 0 <= t < m ==> self.edge_has_day(e as int, #[trigger] days@[t]),
            decreases n_days - m,
        {
            if !self.edge_contains_day(e, days[m]) {
                return false;
            }
            m = m + 1;
        }
        true
    }

    /// Whether some availability edge of this technician node covers
    /// every requested day.
    fn technician_covered_by_availability(&self, tech_node: NodeIndex, days: &Vec<Date>) -> (b:
        bool)
        requires
            self.wf(),
            tech_node < self.nodes@.len(),
        ensures
            b == self.technician_covered(tech_node as int, days@),
    {
        let n_inc: usize = self.incidence_list[tech_node].len();
        let mut k: usize = 0;
        while k < n_inc
            invariant
                self.wf(),
                tech_node < self.nodes@.len(),
                self.incidence_list@.len() == self.nodes@.len(),
                n_inc == self.incidence_list@[tech_node as int]@.len(),
                0 <= k <= n_inc,
                forall|t: int|
                    0 <= t < k ==> !self.available_edge_covers(
                        (#[trigger] self.incidence_list@[tech_node as int]@[t]) as int,
                        days@,
                    ),
            decreases n_inc - k,
        {
            let e = self.incidence_list[tech_node][k];
            proof {
                assert(e < self.hyperedges@.len());
            }
            let is_available = matches!(self.hyperedges[e].edge_type, EdgeType::Available);
            if is_available {
                if self.edge_covers_days(e, days) {
                    proof {
                        assert(self.available_edge_covers(
                            self.incidence_list@[tech_node as int]@[k as int] as int,
                            days@,
                        ));
                        assert(self.technician_covered(tech_node as int, days@));
                    }
                    return true;
                }
            }
            k = k + 1;
        }
        proof {
            if self.technician_covered(tech_node as int, days@) {
                let t = choose|t: int|
                    0 <= t < self.incidence_list@[tech_node as int]@.len()
                        && self.available_edge_covers(
                        (#[trigger] self.incidence_list@[tech_node as int]@[t]) as int,
                        days@,
                    );
                assert(!self.available_edge_covers(
                    self.incidence_list@[tech_node as int]@[t] as int,
                    days@,
                ));
            }
        }
        false
    }

    /// The first matching activity node among the work-order node's
    /// incident `Contains` edges.
    fn find_activity_node(&self, wo_node: NodeIndex, activity_number: ActivityNumber) -> (r:
        Option<NodeIndex>)
        requires
            self.wf(),
            wo_node < self.nodes@.len(),
        ensures
            r == self.find_activity_from(wo_node as int, activity_number, 0),
            r matches Some(x) ==> x < self.nodes@.len() && (self.nodes@[x as int] matches Node::Activity(
                a,
            ) && a.activity_number == activity_number),
    {
        let n_inc: usize = self.incidence_list[wo_node].len();
        let mut k: usize = 0;
        while k < n_inc
            invariant
                self.wf(),
                wo_node < self.nodes@.len(),
                self.incidence_list@.len() == self.nodes@.len(),
                n_inc == self.incidence_list@[wo_node as int]@.len(),
                0 <= k <= n_inc,
                self.find_activity_from(wo_node as int, activity_number, 0)
                    == self.find_activity_from(wo_node as int, activity_number, k as int),
            decreases n_inc - k,
        {
            let e = self.incidence_list[wo_node][k];
            proof {
                assert(e < self.hyperedges@.len());
            }
            let is_contains = matches!(self.hyperedges[e].edge_type, EdgeType::Contains);
            if is_contains {
                let n_list: usize = self.hyperedges[e].nodes.len();
                let mut j: usize = 0;
                while j < n_list
                    invariant
                        self.wf(),
                        wo_node < self.nodes@.len(),
                        self.incidence_list@.len() == self.nodes@.len(),
                        n_inc == self.incidence_list@[wo_node as int]@.len(),
                        0 <= k < n_inc,
                        e == self.incidence_list@[wo_node as int]@[k as int],
                        self.hyperedges@[e as int].edge_type == EdgeType::Contains,
                        self.find_activity_from(wo_node as int, activity_number, 0)
                            == self.find_activity_from(wo_node as int, activity_number, k as int),
                        e < self.hyperedges@.len(),
                        n_list == self.hyperedges@[e as int].nodes@.len(),
                        0 <= j <= n_list,
                        self.find_activity_in_list(
                            self.hyperedges@[e as int].nodes@,
                            activity_number,
                            0,
                        ) == self.find_activity_in_list(
                            self.hyperedges@[e as int].nodes@,
                            activity_number,
                            j as int,
                        ),
                    decreases n_list - j,
                {
                    let node_index = self.hyperedges[e].nodes[j];
                    proof {
                        assert(node_index < self.nodes@.len());
                    }
                    let is_match = match self.nodes[node_index] {
                        Node::Activity(a) => a.activity_number == activity_number,
                        _ => false,
                    };
                    if is_match {
                        proof {
                            assert(self.find_activity_in_list(
                                self.hyperedges@[e as int].nodes@,
                                activity_number,
                                j as int,
                            ) == Some(node_index));
                            assert(self.find_activity_from(
                                wo_node as int,
                                activity_number,
                                k as int,
                            ) == Some(node_index));
                        }
                        return Some(node_index);
                    }
                    j = j + 1;
                }
                proof {
                    assert(self.find_activity_in_list(
                        self.hyperedges@[e as int].nodes@,
                        activity_number,
                        self.hyperedges@[e as int].nodes@.len() as int,
                    ) is None);
                    assert(self.find_activity_from(wo_node as int, activity_number, k as int)
                        == self.find_activity_from(wo_node as int, activity_number, k as int + 1));
                }
            } else {
                proof {
                    assert(self.find_activity_from(wo_node as int, activity_number, k as int)
                        == self.find_activity_from(wo_node as int, activity_number, k as int + 1));
                }
            }
            k = k + 1;
        }
        None
    }
}

} // verus!

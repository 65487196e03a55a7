//! Construction operations of the graph facade: create-or-get for
//! skills, period and day creation, and the simple relationship edges.
//!
//! Every operation validates against already-built state before
//! mutating; on a fault the graph is left exactly as it was.

use vstd::prelude::*;
use crate::calendar::{
    lemma_date_range_bounds, lemma_date_range_unfold, max_date_key, spec_date_range, Date,
};
use crate::period::Period;
use crate::schedule_graph::{
    edge_additions, incidence_from_edges, lemma_incidence_from_edges_absent,
    lemma_incidence_from_edges_congruent, lemma_incidence_from_edges_split,
    lemma_incidence_formula_step, ActivityNode,
    EdgeIndex, EdgeType, Node, NodeIndex, ScheduleGraph, ScheduleGraphErrors, TechnicianId,
};
use crate::technician::{Availability, Skill, Technician};
use crate::work_order::{Activity, ActivityRelation, WorkOrder, WorkOrderNumber};

verus! {

impl ScheduleGraph {
    /// How `add_skill` relates the state before and after the call: a
    /// present skill is returned as-is and nothing changes; a fresh one
    /// becomes a new node at the old arena length.
    pub open spec fn add_skill_post(
        pre: ScheduleGraph,
        post: ScheduleGraph,
        skill: Skill,
        r: NodeIndex,
    ) -> bool {
        if pre.has_node(Node::Skill(skill)) {
            r as int == pre.node_id(Node::Skill(skill)) && post == pre
        } else {
            &&& r == pre.nodes@.len()
            &&& post.nodes@ == pre.nodes@.push(Node::Skill(skill))
            &&& post.hyperedges@ == pre.hyperedges@
            &&& post.incidence_list@.len() == pre.incidence_list@.len() + 1
            &&& forall|n: int|
                0 <= n < pre.incidence_list@.len() ==> #[trigger] post.incidence_list@[n]@
                    == pre.incidence_list@[n]@
            &&& post.incidence_list@[r as int]@ == Seq::<EdgeIndex>::empty()
        }
    }

    /// Create-or-get for a skill node: returns the existing handle when
    /// the skill is already present, otherwise creates and indexes a new
    /// node. Idempotent; never fails.
    pub fn add_skill(&mut self, skill: Skill) -> (r: NodeIndex)
        requires
            old(self).wf(),
        ensures
            ScheduleGraph::add_skill_post(*old(self), *final(self), skill, r),
            final(self).wf(),
            final(self).has_node(Node::Skill(skill)),
            r < final(self).nodes@.len(),
            final(self).nodes@[r as int] == Node::Skill(skill),
            final(self).node_id(Node::Skill(skill)) == r as int,
    {
        let existing = self.skill_node(skill);
        proof {
            self.lemma_skill_lookup(skill);
        }
        match existing {
            Some(index) => index,
            None => {
                let index = self.add_node(Node::Skill(skill));
                proof {
                    assert(self.nodes@[index as int] == Node::Skill(skill));
                    assert(self.has_node(Node::Skill(skill)));
                    self.lemma_unique_handles(self.node_id(Node::Skill(skill)), index as int);
                }
                index
            },
        }
    }

    /// Records that a technician holds a skill, as a `HasSkill` edge
    /// `[technician, skill]`. Fails when either side is missing.
    pub fn add_assign_skill_to_worker(&mut self, worker: TechnicianId, skill: Skill) -> (r: Result<
        EdgeIndex,
        ScheduleGraphErrors,
    >)
        requires
            old(self).wf(),
        ensures
            match r {
                Ok(e) => {
                    &&& old(self).has_node(Node::Technician(worker))
                    &&& old(self).has_node(Node::Skill(skill))
                    &&& e == old(self).hyperedges@.len()
                    &&& ScheduleGraph::edge_appended(
                        *old(self),
                        *final(self),
                        EdgeType::HasSkill,
                        seq![
                            old(self).node_id(Node::Technician(worker)) as NodeIndex,
                            old(self).node_id(Node::Skill(skill)) as NodeIndex,
                        ],
                    )
                    &&& final(self).wf()
                },
                Err(e) => {
                    &&& *final(self) == *old(self)
                    &&& (e == ScheduleGraphErrors::WorkerMissing && !old(self).has_node(
                        Node::Technician(worker),
                    )) || (e == ScheduleGraphErrors::SkillMissing && old(self).has_node(
                        Node::Technician(worker),
                    ) && !old(self).has_node(Node::Skill(skill)))
                },
            },
    {
        let worker_lookup = self.technician_node(worker);
        proof {
            self.lemma_technician_lookup(worker);
        }
        let worker_index = match worker_lookup {
            Some(w) => w,
            None => {
                return Err(ScheduleGraphErrors::WorkerMissing);
            },
        };
        let skill_lookup = self.skill_node(skill);
        proof {
            self.lemma_skill_lookup(skill);
        }
        let skill_index = match skill_lookup {
            Some(s) => s,
            None => {
                return Err(ScheduleGraphErrors::SkillMissing);
            },
        };
        let mut edge_nodes: Vec<NodeIndex> = Vec::new();
        edge_nodes.push(worker_index);
        edge_nodes.push(skill_index);
        proof {
            assert(edge_nodes@ =~= seq![worker_index, skill_index]);
        }
        let e = self.add_edge(EdgeType::HasSkill, edge_nodes);
        Ok(e)
    }

    /// Records that a technician is assigned to a work order within a
    /// period, as an `Assign` edge `[technician, work_order, period]`
    /// without a time window. Fails when any of the three is missing.
    pub fn add_assignment_work_order(
        &mut self,
        worker: TechnicianId,
        work_order: WorkOrderNumber,
        date: Period,
    ) -> (r: Result<EdgeIndex, ScheduleGraphErrors>)
        requires
            old(self).wf(),
        ensures
            match r {
                Ok(e) => {
                    &&& old(self).has_node(Node::Technician(worker))
                    &&& old(self).has_node(Node::WorkOrder(work_order))
                    &&& old(self).has_node(Node::Period(date))
                    &&& e == old(self).hyperedges@.len()
                    &&& ScheduleGraph::edge_appended(
                        *old(self),
                        *final(self),
                        EdgeType::Assign(None),
                        seq![
                            old(self).node_id(Node::Technician(worker)) as NodeIndex,
                            old(self).node_id(Node::WorkOrder(work_order)) as NodeIndex,
                            old(self).node_id(Node::Period(date)) as NodeIndex,
                        ],
                    )
                    &&& final(self).wf()
                },
                Err(e) => {
                    &&& *final(self) == *old(self)
                    &&& (e == ScheduleGraphErrors::WorkerMissing && !old(self).has_node(
                        Node::Technician(worker),
                    )) || (e == ScheduleGraphErrors::WorkOrderMissing && old(self).has_node(
                        Node::Technician(worker),
                    ) && !old(self).has_node(Node::WorkOrder(work_order))) || (e
                        == ScheduleGraphErrors::PeriodMissing && old(self).has_node(
                        Node::Technician(worker),
                    ) && old(self).has_node(Node::WorkOrder(work_order)) && !old(self).has_node(
                        Node::Period(date),
                    ))
                },
            },
    {
        let worker_lookup = self.technician_node(worker);
        proof {
            self.lemma_technician_lookup(worker);
        }
        let worker_index = match worker_lookup {
            Some(w) => w,
            None => {
                return Err(ScheduleGraphErrors::WorkerMissing);
            },
        };
        let work_order_lookup = self.work_order_node(work_order);
        proof {
            self.lemma_work_order_lookup(work_order);
        }
        let work_order_index = match work_order_lookup {
            Some(w) => w,
            None => {
                return Err(ScheduleGraphErrors::WorkOrderMissing);
            },
        };
        let period_lookup = self.period_node(date);
        proof {
            self.lemma_period_lookup(date);
        }
        let period_index = match period_lookup {
            Some(p) => p,
            None => {
                return Err(ScheduleGraphErrors::PeriodMissing);
            },
        };
        let mut edge_nodes: Vec<NodeIndex> = Vec::new();
        edge_nodes.push(worker_index);
        edge_nodes.push(work_order_index);
        edge_nodes.push(period_index);
        proof {
            assert(edge_nodes@ =~= seq![worker_index, work_order_index, period_index]);
        }
        let e = self.add_edge(EdgeType::Assign(None), edge_nodes);
        Ok(e)
    }

    /// The skill-node handles for a list of skills, in list order.
    pub open spec fn skill_handles(self, skills: Seq<Skill>) -> Seq<NodeIndex> {
        skills.map_values(|s: Skill| self.node_id(Node::Skill(s)) as NodeIndex)
    }

    /// The day-node handles for a list of dates, in list order.
    pub open spec fn day_handles(self, dates: Seq<Date>) -> Seq<NodeIndex> {
        dates.map_values(|d: Date| self.node_id(Node::Day(d)) as NodeIndex)
    }

    /// Some skill in the list has no skill node yet.
    pub open spec fn some_skill_missing(self, skills: Seq<Skill>) -> bool {
        exists|j: int| 0 <= j < skills.len() && !self.has_node(Node::Skill(#[trigger] skills[j]))
    }

    /// Some date in the list has no day node yet.
    pub open spec fn some_day_missing(self, dates: Seq<Date>) -> bool {
        exists|t: int| 0 <= t < dates.len() && !self.has_node(Node::Day(#[trigger] dates[t]))
    }

    /// Creates the technician node and one `Available` edge
    /// `[technician, skills.., days..]` covering every calendar day of
    /// the availability window, inclusive. Only this one window is
    /// modeled per technician. Fails when the technician already
    /// exists, a claimed skill has no node, or a day of the window has
    /// no node. Returns the handle of the new `Available` edge.
    pub fn add_technician(&mut self, technician: Technician, availability: Availability) -> (r:
        Result<EdgeIndex, ScheduleGraphErrors>)
        requires
            old(self).wf(),
            technician.wf(),
            availability.0.wf(),
            availability.1.wf(),
            availability.1.date.key() < max_date_key(),
        ensures
            match r {
                Err(e) => {
                    &&& *final(self) == *old(self)
                    &&& (e == ScheduleGraphErrors::WorkerDuplicate && old(self).has_node(
                        Node::Technician(technician.technician_id),
                    )) || (e == ScheduleGraphErrors::SkillMissing && !old(self).has_node(
                        Node::Technician(technician.technician_id),
                    ) && old(self).some_skill_missing(technician.skills@)) || (e
                        == ScheduleGraphErrors::DayMissing && !old(self).has_node(
                        Node::Technician(technician.technician_id),
                    ) && !old(self).some_skill_missing(technician.skills@) && old(
                        self,
                    ).some_day_missing(
                        spec_date_range(availability.0.date, availability.1.date),
                    ))
                },
                Ok(edge) => {
                    &&& !old(self).has_node(Node::Technician(technician.technician_id))
                    &&& !old(self).some_skill_missing(technician.skills@)
                    &&& !old(self).some_day_missing(
                        spec_date_range(availability.0.date, availability.1.date),
                    )
                    &&& edge == old(self).hyperedges@.len()
                    &&& final(self).nodes@ == old(self).nodes@.push(
                        Node::Technician(technician.technician_id),
                    )
                    &&& final(self).hyperedges@.len() == old(self).hyperedges@.len() + 1
                    &&& forall|e: int|
                        0 <= e < old(self).hyperedges@.len()
                            ==> #[trigger] final(self).hyperedges@[e] == old(self).hyperedges@[e]
                    &&& final(self).hyperedges@[edge as int].edge_type == EdgeType::Available
                    &&& final(self).hyperedges@[edge as int].nodes@ == seq![
                        old(self).nodes@.len() as NodeIndex,
                    ] + old(self).skill_handles(technician.skills@) + old(self).day_handles(
                        spec_date_range(availability.0.date, availability.1.date),
                    )
                    &&& final(self).incidence_list@.len() == old(self).incidence_list@.len() + 1
                    &&& forall|n: int|
                        0 <= n < final(self).incidence_list@.len()
                            ==> #[trigger] final(self).incidence_list@[n]@ == (if n < old(
                            self,
                        ).incidence_list@.len() {
                            old(self).incidence_list@[n]@
                        } else {
                            Seq::<EdgeIndex>::empty()
                        }) + edge_additions(
                            final(self).hyperedges@[edge as int].nodes@,
                            n as NodeIndex,
                            edge,
                        )
                    &&& final(self).node_id(Node::Technician(technician.technician_id)) == old(
                        self,
                    ).nodes@.len() as int
                    &&& final(self).wf()
                },
            },
    {
        let ghost pre = *old(self);
        let id = technician.id();
        let dup_lookup = self.technician_node(id);
        proof {
            self.lemma_technician_lookup(id);
        }
        if dup_lookup.is_some() {
            return Err(ScheduleGraphErrors::WorkerDuplicate);
        }

        let n_skills = technician.skills.len();
        let mut skills: Vec<NodeIndex> = Vec::new();
        let mut i: usize = 0;
        while i < n_skills
            invariant
                *self == pre,
                pre == *old(self),
                pre.wf(),
                !pre.has_node(Node::Technician(technician.technician_id)),
                n_skills == technician.skills@.len(),
                0 <= i <= n_skills,
                skills@ == pre.skill_handles(technician.skills@.take(i as int)),
                forall|j: int|
                    0 <= j < i ==> pre.has_node(Node::Skill(#[trigger] technician.skills@[j])),
                forall|j: int|
                    0 <= j < skills@.len() ==> (#[trigger] skills@[j]) < pre.nodes@.len(),
            decreases n_skills - i,
        {
            let sk = technician.skills[i];
            let lookup = self.skill_node(sk);
            proof {
                self.lemma_skill_lookup(sk);
            }
            match lookup {
                None => {
                    proof {
                        assert(!pre.has_node(Node::Skill(technician.skills@[i as int])));
                    }
                    return Err(ScheduleGraphErrors::SkillMissing);
                },
                Some(ix) => {
                    skills.push(ix);
                    proof {
                        assert(skills@ =~= pre.skill_handles(
                            technician.skills@.take(i as int + 1),
                        ));
                    }
                },
            }
            i = i + 1;
        }
        proof {
            assert(technician.skills@.take(n_skills as int) =~= technician.skills@);
            if pre.some_skill_missing(technician.skills@) {
                let j = choose|j: int|
                    0 <= j < technician.skills@.len() && !pre.has_node(
                        Node::Skill(#[trigger] technician.skills@[j]),
                    );
                assert(pre.has_node(Node::Skill(technician.skills@[j])));
            }
        }

        let start: Date = availability.start_date();
        let finish: Date = availability.finish_date();
        let ghost range = spec_date_range(start, finish);
        proof {
            lemma_date_range_bounds(start, finish);
        }
        let mut day_nodes: Vec<NodeIndex> = Vec::new();
        let mut cur: Date = start;
        let ghost mut done: int = 0;
        while cur.le(finish)
            invariant
                *self == pre,
                pre == *old(self),
                pre.wf(),
                !pre.has_node(Node::Technician(technician.technician_id)),
                !pre.some_skill_missing(technician.skills@),
                start == availability.0.date,
                finish == availability.1.date,
                start.wf(),
                cur.wf(),
                finish.key() < max_date_key(),
                range == spec_date_range(start, finish),
                0 <= done <= range.len(),
                day_nodes@ == pre.day_handles(range.take(done)),
                forall|t: int| 0 <= t < done ==> pre.has_node(Node::Day(#[trigger] range[t])),
                forall|t: int|
                    0 <= t < day_nodes@.len() ==> (#[trigger] day_nodes@[t]) < pre.nodes@.len(),
                spec_date_range(cur, finish) == range.skip(done),
            decreases
                    (if cur.key() <= finish.key() {
                        finish.key() - cur.key() + 1
                    } else {
                        0
                    }),
        {
            proof {
                lemma_date_range_unfold(cur, finish);
                assert(range.skip(done).len() > 0);
                assert(range.skip(done)[0] == cur);
                assert(range[done] == cur);
            }
            let lookup = self.day_node(cur);
            proof {
                self.lemma_day_lookup(cur);
            }
            match lookup {
                None => {
                    proof {
                        assert(!pre.has_node(Node::Day(range[done])));
                    }
                    return Err(ScheduleGraphErrors::DayMissing);
                },
                Some(ix) => {
                    day_nodes.push(ix);
                },
            }
            proof {
                assert(range.take(done + 1) =~= range.take(done).push(cur));
                assert(day_nodes@ =~= pre.day_handles(range.take(done + 1)));
                let rest = spec_date_range(cur.spec_next(), finish);
                assert(range.skip(done) == seq![cur] + rest);
                assert(rest.len() == range.len() - done - 1);
                assert forall|k2: int| 0 <= k2 < rest.len() implies rest[k2] == range.skip(
                    done + 1,
                )[k2] by {
                    assert(rest[k2] == (seq![cur] + rest)[k2 + 1]);
                    assert(range.skip(done)[k2 + 1] == range[done + 1 + k2]);
                    assert(range.skip(done + 1)[k2] == range[done + 1 + k2]);
                }
                assert(rest =~= range.skip(done + 1));
                done = done + 1;
            }
            cur = cur.next_day();
        }
        proof {
            lemma_date_range_unfold(cur, finish);
            assert(range.skip(done).len() == 0);
            assert(done == range.len());
            assert(range.take(done) =~= range);
            if pre.some_day_missing(range) {
                let t = choose|t: int|
                    0 <= t < range.len() && !pre.has_node(Node::Day(#[trigger] range[t]));
                assert(pre.has_node(Node::Day(range[t])));
            }
        }

        let technician_id_node = self.add_node(Node::Technician(id));
        let mut edge_nodes: Vec<NodeIndex> = Vec::new();
        edge_nodes.push(technician_id_node);
        edge_nodes.append(&mut skills);
        edge_nodes.append(&mut day_nodes);
        proof {
            assert(edge_nodes@ =~= seq![pre.nodes@.len() as NodeIndex] + pre.skill_handles(
                technician.skills@,
            ) + pre.day_handles(range));
            assert forall|j: int| 0 <= j < edge_nodes@.len() implies (#[trigger] edge_nodes@[j])
                < self.nodes@.len() by {
                if j == 0 {
                    assert(edge_nodes@[0] == pre.nodes@.len() as NodeIndex);
                }
            }
        }
        let availability_edge = self.add_edge(EdgeType::Available, edge_nodes);
        proof {
            assert(self.nodes@[pre.nodes@.len() as int] == Node::Technician(id));
            assert(self.has_node(Node::Technician(id)));
            self.lemma_unique_handles(
                self.node_id(Node::Technician(id)),
                pre.nodes@.len() as int,
            );
        }
        Ok(availability_edge)
    }

    /// Some activity in the list requires a skill with no node yet.
    pub open spec fn some_activity_skill_missing(self, activities: Seq<Activity>) -> bool {
        exists|j: int|
            0 <= j < activities.len() && !self.has_node(
                Node::Skill((#[trigger] activities[j]).resource),
            )
    }

    /// The node payload an activity is stored as.
    pub open spec fn activity_payload(a: Activity) -> ActivityNode {
        ActivityNode { activity_number: a.activity_number, number_of_people: a.number_of_people }
    }

    /// Validates a work order and builds its sub-graph: the work-order
    /// node, a `BasicStart` edge to its start day, and per activity an
    /// activity node, a `Contains` edge, a `Requires` edge, and (from
    /// the second activity on) a precedence edge to its predecessor.
    ///
    /// Validation order matters: missing activity skills are reported
    /// first, then a missing start day, then a duplicate number. On a
    /// fault nothing has been added.
    #[verifier::rlimit(100)]
    pub fn add_work_order(&mut self, work_order: &WorkOrder) -> (r: Result<
        NodeIndex,
        ScheduleGraphErrors,
    >)
        requires
            old(self).wf(),
        ensures
            match r {
                Err(e) => {
                    &&& *final(self) == *old(self)
                    &&& (e == ScheduleGraphErrors::WorkOrderActivityMissingSkills && old(
                        self,
                    ).some_activity_skill_missing(work_order.activities@)) || (e
                        == ScheduleGraphErrors::DayMissing && !old(
                        self,
                    ).some_activity_skill_missing(work_order.activities@) && !old(self).has_node(
                        Node::Day(work_order.basic_start_date),
                    )) || (e == ScheduleGraphErrors::WorkOrderDuplicate && !old(
                        self,
                    ).some_activity_skill_missing(work_order.activities@) && old(self).has_node(
                        Node::Day(work_order.basic_start_date),
                    ) && old(self).has_node(Node::WorkOrder(work_order.work_order_number)))
                },
                Ok(index) => {
                    let w = old(self).nodes@.len() as int;
                    let e0 = old(self).hyperedges@.len() as int;
                    let acts = work_order.activities@;
                    &&& !old(self).some_activity_skill_missing(acts)
                    &&& old(self).has_node(Node::Day(work_order.basic_start_date))
                    &&& !old(self).has_node(Node::WorkOrder(work_order.work_order_number))
                    &&& index as int == w
                    &&& final(self).nodes@ == old(self).nodes@.push(
                        Node::WorkOrder(work_order.work_order_number),
                    ) + Seq::new(
                        acts.len(),
                        |t: int| Node::Activity(ScheduleGraph::activity_payload(acts[t])),
                    )
                    &&& final(self).hyperedges@.len() == e0 + (if acts.len() == 0 {
                        1int
                    } else {
                        3 * (acts.len() as int)
                    })
                    &&& forall|e: int|
                        0 <= e < e0 ==> #[trigger] final(self).hyperedges@[e] == old(
                            self,
                        ).hyperedges@[e]
                    &&& final(self).hyperedges@[e0].edge_type == EdgeType::BasicStart
                    &&& final(self).hyperedges@[e0].nodes@ == seq![
                        index,
                        old(self).node_id(Node::Day(work_order.basic_start_date)) as NodeIndex,
                    ]
                    &&& forall|i: int|
                        #![trigger acts[i]]
                        0 <= i < acts.len() ==> {
                            let c = e0 + (if i == 0 {
                                1int
                            } else {
                                3 * i
                            });
                            &&& final(self).hyperedges@[c].edge_type == EdgeType::Contains
                            &&& final(self).hyperedges@[c].nodes@ == seq![
                                index,
                                (w + 1 + i) as NodeIndex,
                            ]
                            &&& final(self).hyperedges@[c + 1].edge_type == EdgeType::Requires
                            &&& final(self).hyperedges@[c + 1].nodes@ == seq![
                                (w + 1 + i) as NodeIndex,
                                old(self).node_id(Node::Skill(acts[i].resource)) as NodeIndex,
                            ]
                            &&& (i >= 1 ==> final(self).hyperedges@[e0 + 3 * i + 2].edge_type
                                == EdgeType::FinishStart && final(self).hyperedges@[e0 + 3 * i
                                + 2].nodes@ == seq![(w + i) as NodeIndex, (w + 1 + i) as NodeIndex])
                        }
                    &&& final(self).incidence_list@.len() == old(self).incidence_list@.len() + 1
                        + acts.len()
                    &&& forall|n: int|
                        0 <= n < final(self).incidence_list@.len()
                            ==> #[trigger] final(self).incidence_list@[n]@ == (if n < old(
                            self,
                        ).incidence_list@.len() {
                            old(self).incidence_list@[n]@
                        } else {
                            Seq::<EdgeIndex>::empty()
                        }) + incidence_from_edges(
                            final(self).hyperedges@,
                            e0,
                            final(self).hyperedges@.len() as int,
                            n as NodeIndex,
                        )
                    &&& final(self).node_id(Node::WorkOrder(work_order.work_order_number)) == w
                    &&& final(self).wf()
                },
            },
    {
        let ghost pre = *old(self);
        let n_acts = work_order.activities.len();

        // Every activity's skill must already have a node.
        let mut j: usize = 0;
        while j < n_acts
            invariant
                *self == pre,
                pre == *old(self),
                pre.wf(),
                n_acts == work_order.activities@.len(),
                0 <= j <= n_acts,
                forall|t: int|
                    0 <= t < j ==> pre.has_node(
                        Node::Skill((#[trigger] work_order.activities@[t]).resource),
                    ),
            decreases n_acts - j,
        {
            let sk = work_order.activities[j].skill();
            let lookup = self.skill_node(sk);
            proof {
                self.lemma_skill_lookup(sk);
            }
            if lookup.is_none() {
                proof {
                    assert(!pre.has_node(
                        Node::Skill(work_order.activities@[j as int].resource),
                    ));
                }
                return Err(ScheduleGraphErrors::WorkOrderActivityMissingSkills);
            }
            j = j + 1;
        }
        proof {
            if pre.some_activity_skill_missing(work_order.activities@) {
                let t = choose|t: int|
                    0 <= t < work_order.activities@.len() && !pre.has_node(
                        Node::Skill((#[trigger] work_order.activities@[t]).resource),
                    );
                assert(pre.has_node(Node::Skill(work_order.activities@[t].resource)));
            }
        }

        let day_lookup = self.day_node(work_order.basic_start());
        proof {
            self.lemma_day_lookup(work_order.basic_start_date);
        }
        let day_node_index = match day_lookup {
            Some(d) => d,
            None => {
                return Err(ScheduleGraphErrors::DayMissing);
            },
        };

        // The duplicate check must not come before the validations above.
        let dup_lookup = self.work_order_node(work_order.work_order_number());
        proof {
            self.lemma_work_order_lookup(work_order.work_order_number);
        }
        if dup_lookup.is_some() {
            return Err(ScheduleGraphErrors::WorkOrderDuplicate);
        }

        let ghost e0 = pre.hyperedges@.len() as int;
        let ghost w = pre.nodes@.len() as int;
        let work_order_node_index = self.add_node(
            Node::WorkOrder(work_order.work_order_number()),
        );
        let mut basic_start_nodes: Vec<NodeIndex> = Vec::new();
        basic_start_nodes.push(work_order_node_index);
        basic_start_nodes.push(day_node_index);
        proof {
            assert(basic_start_nodes@ =~= seq![work_order_node_index, day_node_index]);
        }
        let _basic_start_edge_index = self.add_edge(EdgeType::BasicStart, basic_start_nodes);
        proof {
            self.lemma_len_bounds();
            assert forall|n: int| 0 <= n < self.incidence_list@.len() implies
            #[trigger] self.incidence_list@[n]@ == (if n < pre.incidence_list@.len() {
                pre.incidence_list@[n]@
            } else {
                Seq::<EdgeIndex>::empty()
            }) + incidence_from_edges(
                self.hyperedges@,
                e0,
                self.hyperedges@.len() as int,
                n as NodeIndex,
            ) by {
                assert(incidence_from_edges(self.hyperedges@, e0, e0 + 1, n as NodeIndex)
                    == incidence_from_edges(self.hyperedges@, e0, e0, n as NodeIndex)
                    + edge_additions(
                    self.hyperedges@[e0].nodes@,
                    n as NodeIndex,
                    e0 as EdgeIndex,
                ));
                assert(self.incidence_list@[n]@ =~= (if n < pre.incidence_list@.len() {
                    pre.incidence_list@[n]@
                } else {
                    Seq::<EdgeIndex>::empty()
                }) + incidence_from_edges(
                    self.hyperedges@,
                    e0,
                    self.hyperedges@.len() as int,
                    n as NodeIndex,
                ));
            }
        }

        let relations = work_order.activities_relations();
        let mut previous_activity_node = work_order_node_index;
        let mut i: usize = 0;
        while i < n_acts
            invariant
                pre == *old(self),
                pre.wf(),
                n_acts == work_order.activities@.len(),
                relations@.len() == (if n_acts == 0 {
                    0int
                } else {
                    n_acts - 1
                }),
                forall|t: int|
                    0 <= t < relations@.len() ==> relations@[t] == ActivityRelation::FinishStart,
                forall|t: int|
                    0 <= t < n_acts ==> pre.has_node(
                        Node::Skill((#[trigger] work_order.activities@[t]).resource),
                    ),
                !pre.some_activity_skill_missing(work_order.activities@),
                pre.has_node(Node::Day(work_order.basic_start_date)),
                !pre.has_node(Node::WorkOrder(work_order.work_order_number)),
                w == pre.nodes@.len() as int,
                e0 == pre.hyperedges@.len() as int,
                day_node_index as int == pre.node_id(Node::Day(work_order.basic_start_date)),
                day_node_index < pre.nodes@.len(),
                work_order_node_index as int == w,
                0 <= i <= n_acts,
                i > 0 ==> previous_activity_node as int == w + i,
                i == 0 ==> previous_activity_node as int == w,
                self.nodes@ == pre.nodes@.push(Node::WorkOrder(work_order.work_order_number))
                    + Seq::new(
                    i as nat,
                    |t: int| Node::Activity(
                        ScheduleGraph::activity_payload(work_order.activities@[t]),
                    ),
                ),
                self.hyperedges@.len() == e0 + (if i == 0 {
                    1int
                } else {
                    3 * i
                }),
                forall|e: int|
                    0 <= e < e0 ==> #[trigger] self.hyperedges@[e] == pre.hyperedges@[e],
                self.hyperedges@[e0].edge_type == EdgeType::BasicStart,
                self.hyperedges@[e0].nodes@ == seq![work_order_node_index, day_node_index],
                forall|t: int|
                    #![trigger work_order.activities@[t]]
                    0 <= t < i ==> {
                        let c = e0 + (if t == 0 {
                            1int
                        } else {
                            3 * t
                        });
                        &&& self.hyperedges@[c].edge_type == EdgeType::Contains
                        &&& self.hyperedges@[c].nodes@ == seq![
                            work_order_node_index,
                            (w + 1 + t) as NodeIndex,
                        ]
                        &&& self.hyperedges@[c + 1].edge_type == EdgeType::Requires
                        &&& self.hyperedges@[c + 1].nodes@ == seq![
                            (w + 1 + t) as NodeIndex,
                            pre.node_id(Node::Skill(work_order.activities@[t].resource))
                                as NodeIndex,
                        ]
                        &&& (t >= 1 ==> self.hyperedges@[e0 + 3 * t + 2].edge_type
                            == EdgeType::FinishStart && self.hyperedges@[e0 + 3 * t + 2].nodes@
                            == seq![(w + t) as NodeIndex, (w + 1 + t) as NodeIndex])
                    },
                self.incidence_list@.len() == pre.incidence_list@.len() + 1 + i,
                forall|n: int|
                    0 <= n < self.incidence_list@.len() ==> #[trigger] self.incidence_list@[n]@
                        == (if n < pre.incidence_list@.len() {
                        pre.incidence_list@[n]@
                    } else {
                        Seq::<EdgeIndex>::empty()
                    }) + incidence_from_edges(
                        self.hyperedges@,
                        e0,
                        self.hyperedges@.len() as int,
                        n as NodeIndex,
                    ),
                self.wf(),
            decreases n_acts - i,
        {
            let activity = work_order.activities[i];
            let relation = if i != 0 {
                Some(relations[i - 1])
            } else {
                None
            };
            proof {
                // The skill handle in the grown graph is the handle from
                // before the loop: the nodes added so far are no skill nodes.
                let v = pre.node_id(Node::Skill(activity.resource));
                assert(pre.has_node(Node::Skill(work_order.activities@[i as int].resource)));
                assert(pre.nodes@[v] == Node::Skill(activity.resource));
                assert(self.nodes@[v] == Node::Skill(activity.resource));
                assert(self.has_node(Node::Skill(activity.resource)));
                self.lemma_unique_handles(self.node_id(Node::Skill(activity.resource)), v);
            }
            let ghost before = *self;
            let ghost l0 = self.hyperedges@.len() as int;
            let activity_node_index = self.append_activity(
                activity,
                work_order_node_index,
                previous_activity_node,
                relation,
            );
            proof {
                self.lemma_len_bounds();
                let l1 = self.hyperedges@.len() as int;
                assert(self.nodes@ =~= pre.nodes@.push(
                    Node::WorkOrder(work_order.work_order_number),
                ) + Seq::new(
                    (i + 1) as nat,
                    |t: int| Node::Activity(
                        ScheduleGraph::activity_payload(work_order.activities@[t]),
                    ),
                ));
                assert(activity_node_index as int == w + 1 + i);
                assert forall|t: int|
                    #![trigger work_order.activities@[t]]
                    0 <= t < i + 1 implies {
                    let c = e0 + (if t == 0 {
                        1int
                    } else {
                        3 * t
                    });
                    &&& self.hyperedges@[c].edge_type == EdgeType::Contains
                    &&& self.hyperedges@[c].nodes@ == seq![
                        work_order_node_index,
                        (w + 1 + t) as NodeIndex,
                    ]
                    &&& self.hyperedges@[c + 1].edge_type == EdgeType::Requires
                    &&& self.hyperedges@[c + 1].nodes@ == seq![
                        (w + 1 + t) as NodeIndex,
                        pre.node_id(Node::Skill(work_order.activities@[t].resource)) as NodeIndex,
                    ]
                    &&& (t >= 1 ==> self.hyperedges@[e0 + 3 * t + 2].edge_type
                        == EdgeType::FinishStart && self.hyperedges@[e0 + 3 * t + 2].nodes@
                        == seq![(w + t) as NodeIndex, (w + 1 + t) as NodeIndex])
                } by {
                    let c = e0 + (if t == 0 {
                        1int
                    } else {
                        3 * t
                    });
                    if t < i {
                        assert(before.hyperedges@[c].edge_type == EdgeType::Contains);
                        assert(self.hyperedges@[c] == before.hyperedges@[c]);
                        assert(self.hyperedges@[c + 1] == before.hyperedges@[c + 1]);
                        if t >= 1 {
                            assert(self.hyperedges@[e0 + 3 * t + 2] == before.hyperedges@[e0 + 3
                                * t + 2]);
                        }
                    } else {
                        assert(c == l0);
                    }
                }
                assert forall|n: int| 0 <= n < self.incidence_list@.len() implies
                #[trigger] self.incidence_list@[n]@ == (if n < pre.incidence_list@.len() {
                    pre.incidence_list@[n]@
                } else {
                    Seq::<EdgeIndex>::empty()
                }) + incidence_from_edges(
                    self.hyperedges@,
                    e0,
                    l1,
                    n as NodeIndex,
                ) by {
                    lemma_incidence_from_edges_congruent(
                        self.hyperedges@,
                        before.hyperedges@,
                        e0,
                        l0,
                        n as NodeIndex,
                    );
                    lemma_incidence_from_edges_split(self.hyperedges@, e0, l0, l1, n as NodeIndex);
                    if n < before.incidence_list@.len() {
                        assert(before.incidence_list@[n]@ == (if n
                            < pre.incidence_list@.len() {
                            pre.incidence_list@[n]@
                        } else {
                            Seq::<EdgeIndex>::empty()
                        }) + incidence_from_edges(before.hyperedges@, e0, l0, n as NodeIndex));
                        assert(self.incidence_list@[n]@ =~= (if n < pre.incidence_list@.len() {
                            pre.incidence_list@[n]@
                        } else {
                            Seq::<EdgeIndex>::empty()
                        }) + incidence_from_edges(self.hyperedges@, e0, l1, n as NodeIndex));
                    } else {
                        // The new activity node: edges before its creation
                        // cannot mention it.
                        assert forall|t: int| e0 <= t < l0 implies !(
                        #[trigger] self.hyperedges@[t]).nodes@.contains(n as NodeIndex) by {
                            if self.hyperedges@[t].nodes@.contains(n as NodeIndex) {
                                let k = choose|k: int|
                                    0 <= k < self.hyperedges@[t].nodes@.len()
                                        && self.hyperedges@[t].nodes@[k] == n as NodeIndex;
                                assert(before.hyperedges@[t].nodes@[k]
                                    < before.nodes@.len());
                            }
                        }
                        lemma_incidence_from_edges_absent(
                            self.hyperedges@,
                            e0,
                            l0,
                            n as NodeIndex,
                        );
                        assert(self.incidence_list@[n]@ =~= Seq::<EdgeIndex>::empty()
                            + incidence_from_edges(self.hyperedges@, e0, l1, n as NodeIndex));
                    }
                }
            }
            previous_activity_node = activity_node_index;
            i = i + 1;
        }

        proof {
            if n_acts == 0 {
                assert(self.nodes@ =~= pre.nodes@.push(
                    Node::WorkOrder(work_order.work_order_number),
                ) + Seq::new(
                    work_order.activities@.len(),
                    |t: int| Node::Activity(
                        ScheduleGraph::activity_payload(work_order.activities@[t]),
                    ),
                ));
            }
            assert(self.nodes@[w] == Node::WorkOrder(work_order.work_order_number));
            assert(self.has_node(Node::WorkOrder(work_order.work_order_number)));
            self.lemma_unique_handles(
                self.node_id(Node::WorkOrder(work_order.work_order_number)),
                w,
            );
        }
        Ok(work_order_node_index)
    }

    /// Appends one activity node together with its `Contains` and
    /// `Requires` edges, and the precedence edge to its predecessor when
    /// one is given.
    #[verifier::rlimit(100)]
    #[verifier::spinoff_prover]
    fn append_activity(
        &mut self,
        activity: Activity,
        work_order_node_index: NodeIndex,
        previous_activity_node: NodeIndex,
        relation: Option<ActivityRelation>,
    ) -> (a: NodeIndex)
        requires
            old(self).wf(),
            old(self).has_node(Node::Skill(activity.resource)),
            work_order_node_index < old(self).nodes@.len(),
            previous_activity_node < old(self).nodes@.len(),
        ensures
            a == old(self).nodes@.len(),
            final(self).nodes@ == old(self).nodes@.push(
                Node::Activity(ScheduleGraph::activity_payload(activity)),
            ),
            final(self).hyperedges@.len() == old(self).hyperedges@.len() + (
            if relation is None {
                2int
            } else {
                3int
            }),
            forall|e: int|
                0 <= e < old(self).hyperedges@.len() ==> #[trigger] final(self).hyperedges@[e]
                    == old(self).hyperedges@[e],
            final(self).hyperedges@[old(self).hyperedges@.len() as int].edge_type
                == EdgeType::Contains,
            final(self).hyperedges@[old(self).hyperedges@.len() as int].nodes@ == seq![
                work_order_node_index,
                a,
            ],
            final(self).hyperedges@[old(self).hyperedges@.len() as int + 1].edge_type
                == EdgeType::Requires,
            final(self).hyperedges@[old(self).hyperedges@.len() as int + 1].nodes@ == seq![
                a,
                old(self).node_id(Node::Skill(activity.resource)) as NodeIndex,
            ],
            relation matches Some(rel) ==> final(self).hyperedges@[old(self).hyperedges@.len()
                as int + 2].edge_type == (match rel {
                ActivityRelation::StartStart => EdgeType::StartStart,
                ActivityRelation::FinishStart => EdgeType::FinishStart,
            }) && final(self).hyperedges@[old(self).hyperedges@.len() as int + 2].nodes@ == seq![
                previous_activity_node,
                a,
            ],
            final(self).incidence_list@.len() == old(self).incidence_list@.len() + 1,
            forall|n: int|
                0 <= n < final(self).incidence_list@.len()
                    ==> #[trigger] final(self).incidence_list@[n]@ == (if n < old(
                    self,
                ).incidence_list@.len() {
                    old(self).incidence_list@[n]@
                } else {
                    Seq::<EdgeIndex>::empty()
                }) + incidence_from_edges(
                    final(self).hyperedges@,
                    old(self).hyperedges@.len() as int,
                    final(self).hyperedges@.len() as int,
                    n as NodeIndex,
                ),
            final(self).technician_indices@ == old(self).technician_indices@,
            final(self).work_order_indices@ == old(self).work_order_indices@,
            final(self).period_indices@ == old(self).period_indices@,
            final(self).skill_indices@ == old(self).skill_indices@,
            final(self).day_indices@ == old(self).day_indices@,
            final(self).wf(),
    {
        let ghost g0 = *old(self);
        let ghost l0 = g0.hyperedges@.len() as int;
        let skill_lookup = self.skill_node(activity.skill());
        proof {
            self.lemma_skill_lookup(activity.resource);
        }
        let skill_node_index = match skill_lookup {
            Some(s) => s,
            None => {
                proof {
                    assert(false);
                }
                return 0;
            },
        };
        let activity_node_index = self.add_node(
            Node::Activity(
                ActivityNode {
                    activity_number: activity.activity_number(),
                    number_of_people: activity.number_of_people(),
                },
            ),
        );
        proof {
            self.lemma_len_bounds();
            assert forall|n: int| 0 <= n < self.incidence_list@.len() implies
            #[trigger] self.incidence_list@[n]@ == (if n < g0.incidence_list@.len() {
                g0.incidence_list@[n]@
            } else {
                Seq::<EdgeIndex>::empty()
            }) + incidence_from_edges(
                self.hyperedges@,
                l0,
                self.hyperedges@.len() as int,
                n as NodeIndex,
            ) by {
                assert(self.incidence_list@[n]@ =~= (if n < g0.incidence_list@.len() {
                    g0.incidence_list@[n]@
                } else {
                    Seq::<EdgeIndex>::empty()
                }) + incidence_from_edges(
                    self.hyperedges@,
                    l0,
                    self.hyperedges@.len() as int,
                    n as NodeIndex,
                ));
            }
        }

        let ghost before_contains = *self;
        let mut contains_nodes: Vec<NodeIndex> = Vec::new();
        contains_nodes.push(work_order_node_index);
        contains_nodes.push(activity_node_index);
        proof {
            assert(contains_nodes@ =~= seq![work_order_node_index, activity_node_index]);
        }
        let contains_edge = self.add_edge(EdgeType::Contains, contains_nodes);
        proof {
            lemma_incidence_formula_step(g0, before_contains, *self, l0);
        }

        let ghost before_requires = *self;
        let mut requires_nodes: Vec<NodeIndex> = Vec::new();
        requires_nodes.push(activity_node_index);
        requires_nodes.push(skill_node_index);
        proof {
            assert(requires_nodes@ =~= seq![activity_node_index, skill_node_index]);
        }
        let requires_edge = self.add_edge(EdgeType::Requires, requires_nodes);
        proof {
            lemma_incidence_formula_step(g0, before_requires, *self, l0);
        }

        match relation {
            None => {},
            Some(rel) => {
                let ghost before_rel = *self;
                let mut rel_nodes: Vec<NodeIndex> = Vec::new();
                rel_nodes.push(previous_activity_node);
                rel_nodes.push(activity_node_index);
                proof {
                    assert(rel_nodes@ =~= seq![previous_activity_node, activity_node_index]);
                }
                let rel_edge = match rel {
                    ActivityRelation::StartStart => self.add_edge(EdgeType::StartStart, rel_nodes),
                    ActivityRelation::FinishStart => self.add_edge(
                        EdgeType::FinishStart,
                        rel_nodes,
                    ),
                };
                proof {
                    lemma_incidence_formula_step(g0, before_rel, *self, l0);
                }
            },
        }
        activity_node_index
    }

    /// The exclusion window of a period: a date qualifies when it lies
    /// in the inclusive fourteen-day span from the period's start.
    pub open spec fn in_exclusion_window(period: Period, d: Date) -> bool {
        period.0.spec_le(d) && d.spec_le(period.0.spec_plus_days(13))
    }

    /// The day handles of the index entries whose date falls in the
    /// period's exclusion window, in index (that is, date) order.
    pub open spec fn exclusion_day_handles(entries: Seq<(Date, NodeIndex)>, period: Period) -> Seq<
        NodeIndex,
    >
        decreases entries.len(),
    {
        if entries.len() == 0 {
            Seq::empty()
        } else {
            ScheduleGraph::exclusion_day_handles(entries.drop_last(), period) + (
            if ScheduleGraph::in_exclusion_window(period, entries.last().0) {
                seq![entries.last().1]
            } else {
                Seq::empty()
            })
        }
    }

    /// Records that a work order must not run in a period, as an
    /// `Exclude` edge `[work_order, period, days..]` listing every known
    /// day node inside the period's fourteen-day window, in date order.
    pub fn add_exclusion(&mut self, work_order_number: &WorkOrderNumber, period: &Period) -> (r:
        Result<EdgeIndex, ScheduleGraphErrors>)
        requires
            old(self).wf(),
        ensures
            match r {
                Ok(e) => {
                    &&& old(self).has_node(Node::WorkOrder(*work_order_number))
                    &&& old(self).has_node(Node::Period(*period))
                    &&& e == old(self).hyperedges@.len()
                    &&& ScheduleGraph::edge_appended(
                        *old(self),
                        *final(self),
                        EdgeType::Exclude,
                        seq![
                            old(self).node_id(Node::WorkOrder(*work_order_number)) as NodeIndex,
                            old(self).node_id(Node::Period(*period)) as NodeIndex,
                        ] + ScheduleGraph::exclusion_day_handles(old(self).day_indices@, *period),
                    )
                    &&& final(self).wf()
                },
                Err(e) => {
                    &&& *final(self) == *old(self)
                    &&& (e == ScheduleGraphErrors::WorkOrderMissing && !old(self).has_node(
                        Node::WorkOrder(*work_order_number),
                    )) || (e == ScheduleGraphErrors::PeriodMissing && old(self).has_node(
                        Node::WorkOrder(*work_order_number),
                    ) && !old(self).has_node(Node::Period(*period)))
                },
            },
    {
        let ghost pre = *old(self);
        let work_order_lookup = self.work_order_node(*work_order_number);
        proof {
            self.lemma_work_order_lookup(*work_order_number);
        }
        let work_order_node_index = match work_order_lookup {
            Some(w) => w,
            None => {
                return Err(ScheduleGraphErrors::WorkOrderMissing);
            },
        };
        let period_lookup = self.period_node(*period);
        proof {
            self.lemma_period_lookup(*period);
        }
        let period_node_index = match period_lookup {
            Some(p) => p,
            None => {
                return Err(ScheduleGraphErrors::PeriodMissing);
            },
        };

        let start: Date = period.start_date();
        proof {
            assert(start.key() + 4 * 13 <= crate::calendar::max_date_key());
        }
        let window_end: Date = start.plus_days(13);

        let n: usize = self.day_indices.len();
        let mut days_node_indices: Vec<NodeIndex> = Vec::new();
        let mut i: usize = 0;
        while i < n
            invariant
                *self == pre,
                pre == *old(self),
                pre.wf(),
                n == pre.day_indices@.len(),
                0 <= i <= n,
                start == period.0,
                start.wf(),
                window_end == start.spec_plus_days(13),
                days_node_indices@ == ScheduleGraph::exclusion_day_handles(
                    pre.day_indices@.take(i as int),
                    *period,
                ),
                forall|t: int|
                    0 <= t < days_node_indices@.len() ==> (#[trigger] days_node_indices@[t])
                        < pre.nodes@.len(),
            decreases n - i,
        {
            let entry = self.day_indices[i];
            proof {
                assert(pre.day_indices@.take(i as int + 1).drop_last() =~= pre.day_indices@.take(
                    i as int,
                ));
                assert(pre.day_indices@.take(i as int + 1).last() == pre.day_indices@[i as int]);
            }
            if start.le(entry.0) && entry.0.le(window_end) {
                days_node_indices.push(entry.1);
            }
            proof {
                assert(days_node_indices@ =~= ScheduleGraph::exclusion_day_handles(
                    pre.day_indices@.take(i as int + 1),
                    *period,
                ));
            }
            i = i + 1;
        }
        proof {
            assert(pre.day_indices@.take(n as int) =~= pre.day_indices@);
        }

        let mut final_nodes_in_hyperedge: Vec<NodeIndex> = Vec::new();
        final_nodes_in_hyperedge.push(work_order_node_index);
        final_nodes_in_hyperedge.push(period_node_index);
        final_nodes_in_hyperedge.append(&mut days_node_indices);
        proof {
            assert(final_nodes_in_hyperedge@ =~= seq![
                pre.node_id(Node::WorkOrder(*work_order_number)) as NodeIndex,
                pre.node_id(Node::Period(*period)) as NodeIndex,
            ] + ScheduleGraph::exclusion_day_handles(pre.day_indices@, *period));
        }
        let e = self.add_edge(EdgeType::Exclude, final_nodes_in_hyperedge);
        Ok(e)
    }

    /// The fourteen day nodes a period contributes, in date order.
    pub open spec fn period_day_nodes(period: Period) -> Seq<Node> {
        Seq::new(14, |k: int| Node::Day(period.0.spec_plus_days(k as nat)))
    }

    /// Creates the fourteen consecutive day nodes of a period, then the
    /// period node itself. Fails when the period already exists; day
    /// nodes of the window must not exist beforehand (an overlapping
    /// period is a caller error, which this operation refuses to turn
    /// into partial state).
    pub fn add_period(&mut self, period: Period) -> (r: Result<NodeIndex, ScheduleGraphErrors>)
        requires
            old(self).wf(),
            period.0.wf(),
            period.0.year < 0xffff,
            old(self).has_node(Node::Period(period)) || forall|k: int|
                0 <= k < 14 ==> !old(self).has_node(
                    Node::Day(#[trigger] period.0.spec_plus_days(k as nat)),
                ),
        ensures
            match r {
                Err(e) => {
                    &&& e == ScheduleGraphErrors::PeriodDuplicate
                    &&& old(self).has_node(Node::Period(period))
                    &&& *final(self) == *old(self)
                },
                Ok(index) => {
                    &&& !old(self).has_node(Node::Period(period))
                    &&& index == old(self).nodes@.len() + 14
                    &&& final(self).nodes@ == old(self).nodes@
                        + ScheduleGraph::period_day_nodes(period).push(Node::Period(period))
                    &&& final(self).hyperedges@ == old(self).hyperedges@
                    &&& final(self).incidence_list@.len() == old(self).incidence_list@.len() + 15
                    &&& forall|n: int|
                        0 <= n < old(self).incidence_list@.len()
                            ==> #[trigger] final(self).incidence_list@[n]@ == old(
                            self,
                        ).incidence_list@[n]@
                    &&& forall|n: int|
                        old(self).incidence_list@.len() <= n < final(self).incidence_list@.len()
                            ==> #[trigger] final(self).incidence_list@[n]@ == Seq::<
                            EdgeIndex,
                        >::empty()
                    &&& final(self).node_id(Node::Period(period)) == index as int
                    &&& final(self).wf()
                },
            },
    {
        let duplicate = self.period_node(period);
        proof {
            self.lemma_period_lookup(period);
        }
        if duplicate.is_some() {
            return Err(ScheduleGraphErrors::PeriodDuplicate);
        }
        let ghost pre = *self;
        let start: Date = period.start_date();
        proof {
            assert(start.key() + 4 * 14 <= crate::calendar::max_date_key());
            start.lemma_plus_days_chain(14nat);
        }

        let mut day: Date = start;
        let mut k: usize = 0;
        while k < 14
            invariant
                pre.wf(),
                period.0 == start,
                start.wf(),
                start.key() + 4 * 14 <= crate::calendar::max_date_key(),
                !pre.has_node(Node::Period(period)),
                forall|t: int|
                    0 <= t < 14 ==> !pre.has_node(
                        Node::Day(#[trigger] start.spec_plus_days(t as nat)),
                    ),
                0 <= k <= 14,
                day == start.spec_plus_days(k as nat),
                self.nodes@ == pre.nodes@ + Seq::new(
                    k as nat,
                    |t: int| Node::Day(start.spec_plus_days(t as nat)),
                ),
                self.hyperedges@ == pre.hyperedges@,
                self.incidence_list@.len() == pre.incidence_list@.len() + k,
                forall|n: int|
                    0 <= n < pre.incidence_list@.len() ==> #[trigger] self.incidence_list@[n]@
                        == pre.incidence_list@[n]@,
                forall|n: int|
                    pre.incidence_list@.len() <= n < self.incidence_list@.len()
                        ==> #[trigger] self.incidence_list@[n]@ == Seq::<EdgeIndex>::empty(),
                self.wf(),
            decreases 14 - k,
        {
            proof {
                start.lemma_plus_days_chain(14nat);
                assert(start.spec_plus_days((k + 1) as nat) == start.spec_plus_days(
                    k as nat,
                ).spec_next());
                assert(day.wf());
                if self.has_node(Node::Day(day)) {
                    let i = choose|i: int|
                        0 <= i < self.nodes@.len() && self.nodes@[i] == Node::Day(day);
                    if i < pre.nodes@.len() {
                        assert(pre.nodes@[i] == Node::Day(day));
                        assert(pre.has_node(Node::Day(start.spec_plus_days(k as nat))));
                    } else {
                        let t = i - pre.nodes@.len();
                        assert(self.nodes@[i] == Node::Day(start.spec_plus_days(t as nat)));
                        start.lemma_plus_days_mono(t as nat, k as nat);
                    }
                    assert(false);
                }
            }
            let ghost before = *self;
            let _day_node = self.add_node(Node::Day(day));
            proof {
                assert(self.nodes@ =~= pre.nodes@ + Seq::new(
                    (k + 1) as nat,
                    |t: int| Node::Day(start.spec_plus_days(t as nat)),
                ));
            }
            day = day.next_day();
            k = k + 1;
        }
        proof {
            if self.has_node(Node::Period(period)) {
                let i = choose|i: int|
                    0 <= i < self.nodes@.len() && self.nodes@[i] == Node::Period(period);
                if i < pre.nodes@.len() {
                    assert(pre.nodes@[i] == Node::Period(period));
                }
                assert(false);
            }
        }
        let node_id = self.add_node(Node::Period(period));
        proof {
            assert(self.nodes@ =~= pre.nodes@ + ScheduleGraph::period_day_nodes(period).push(
                Node::Period(period),
            ));
            assert(self.nodes@[node_id as int] == Node::Period(period));
            assert(self.has_node(Node::Period(period)));
            self.lemma_unique_handles(self.node_id(Node::Period(period)), node_id as int);
        }
        Ok(node_id)
    }
}

} // verus!

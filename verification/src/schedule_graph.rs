//! The scheduling hypergraph: typed nodes, variable-arity hyperedges,
//! per-type uniqueness indices and a bidirectional incidence index.
//!
//! The graph is append-only. All edge creation is routed through the one
//! incidence-preserving primitive [`ScheduleGraph::add_edge`], so that
//! every hyperedge is listed in the incidence sequence of each of its
//! endpoints.

use vstd::prelude::*;
use crate::calendar::{Date, Time};
use crate::period::Period;
use crate::technician::Skill;
use crate::work_order::{ActivityNumber, NumberOfPeople, WorkOrderNumber};

verus! {

pub type NodeIndex = usize;

pub type EdgeIndex = usize;

pub type TechnicianId = usize;

pub type StartTime = Time;

pub type FinishTime = Time;

/// The closed set of faults the construction and query operations can
/// return.
#[derive(Clone, Copy, Debug, PartialEq, Eq, Structural)]
pub enum ScheduleGraphErrors {
    ActivityMissing,
    DayMissing,
    PeriodDuplicate,
    PeriodMissing,
    SkillMissing,
    WorkOrderActivityMissingSkills,
    WorkOrderDuplicate,
    WorkOrderMissing,
    WorkerUnavailable,
    WorkerMissing,
    WorkerDuplicate,
    ActivityExceedNumberOfPeople,
}

/// The payload of an activity node.
#[derive(Hash, Clone, Copy, Debug, PartialEq, Eq, Structural)]
pub struct ActivityNode {
    pub activity_number: ActivityNumber,
    pub number_of_people: NumberOfPeople,
}

/// A typed node of the graph.
#[derive(Hash, Clone, Copy, Debug, PartialEq, Eq, Structural)]
pub enum Node {
    Technician(TechnicianId),
    WorkOrder(WorkOrderNumber),
    Activity(ActivityNode),
    Period(Period),
    Skill(Skill),
    Day(Date),
}

/// The kind of a hyperedge; the positional layout of the node list is
/// kind-specific.
#[derive(Clone, Copy, Debug, PartialEq, Eq)]
pub enum EdgeType {
    /// `[activity, technicians.., days..]` with a concrete time window,
    /// or `[technician, work_order, period]` without one.
    Assign(Option<(StartTime, FinishTime)>),
    /// `[technician, skills.., days..]`
    Available,
    /// `[work_order, period, days..]`
    Exclude,
    /// `[work_order, day]`
    BasicStart,
    /// `[work_order, activity]`
    Contains,
    /// `[activity, skill]`
    Requires,
    /// `[earlier_activity, later_activity]`
    StartStart,
    /// `[earlier_activity, later_activity]`
    FinishStart,
    /// `[technician, skill]`
    HasSkill,
}

/// A typed, ordered, variable-arity relationship among nodes.
#[derive(Clone, Debug, PartialEq, Eq)]
pub struct HyperEdge {
    pub edge_type: EdgeType,
    pub nodes: Vec<NodeIndex>,
}

impl HyperEdge {
    pub fn edge_type(&self) -> (r: &EdgeType)
        ensures
            *r == self.edge_type,
    {
        &self.edge_type
    }

    pub fn nodes(&self) -> (r: &Vec<NodeIndex>)
        ensures
            r@ == self.nodes@,
    {
        &self.nodes
    }
}

/// First-match lookup in an association list, starting at position `i`.
pub open spec fn assoc_find_from<K>(s: Seq<(K, NodeIndex)>, key: K, i: int) -> Option<NodeIndex>
    decreases s.len() - i,
{
    if i < 0 || i >= s.len() {
        None
    } else if s[i].0 == key {
        Some(s[i].1)
    } else {
        assoc_find_from(s, key, i + 1)
    }
}

/// First-match lookup in an association list.
pub open spec fn assoc_find<K>(s: Seq<(K, NodeIndex)>, key: K) -> Option<NodeIndex> {
    assoc_find_from(s, key, 0)
}

/// No two entries of the association list carry the same key.
pub open spec fn unique_keys<K>(s: Seq<(K, NodeIndex)>) -> bool {
    forall|p: int, q: int| 0 <= p < q < s.len() ==> (#[trigger] s[p]).0 != (#[trigger] s[q]).0
}

/// What a lookup result means entry by entry.
pub proof fn lemma_assoc_find_from_spec<K>(s: Seq<(K, NodeIndex)>, key: K, i: int)
    requires
        0 <= i <= s.len(),
    ensures
        match assoc_find_from(s, key, i) {
            Some(v) => exists|p: int| i <= p < s.len() && (#[trigger] s[p]) == (key, v),
            None => forall|p: int| i <= p < s.len() ==> (#[trigger] s[p]).0 != key,
        },
    decreases s.len() - i,
{
    if i < s.len() {
        lemma_assoc_find_from_spec(s, key, i + 1);
        if s[i].0 == key {
            assert(s[i] == (key, s[i].1));
        }
    }
}

/// With unique keys, an entry determines the lookup result.
pub proof fn lemma_assoc_find_entry<K>(s: Seq<(K, NodeIndex)>, p: int)
    requires
        unique_keys(s),
        0 <= p < s.len(),
    ensures
        assoc_find(s, s[p].0) == Some(s[p].1),
{
    let key = s[p].0;
    lemma_assoc_find_from_spec(s, key, 0);
    match assoc_find(s, key) {
        Some(v) => {
            let q = choose|q: int| 0 <= q < s.len() && s[q] == (key, v);
            if q != p {
                assert(s[p].0 == s[q].0);
            }
        },
        None => {
            assert(s[p].0 != key);
        },
    }
}

/// A key held by no entry is not found.
pub proof fn lemma_assoc_find_absent<K>(s: Seq<(K, NodeIndex)>, key: K)
    requires
        forall|p: int| 0 <= p < s.len() ==> (#[trigger] s[p]).0 != key,
    ensures
        assoc_find(s, key) == None::<NodeIndex>,
{
    lemma_assoc_find_from_spec(s, key, 0);
    if assoc_find(s, key) is Some {
        let v = assoc_find(s, key)->Some_0;
        let q = choose|q: int| 0 <= q < s.len() && s[q] == (key, v);
        assert(s[q].0 == key);
    }
}

/// Appending an entry with a fresh key keeps keys unique, makes the new
/// key found, and leaves every other lookup unchanged.
pub proof fn lemma_push_entry<K>(s: Seq<(K, NodeIndex)>, e: (K, NodeIndex))
    requires
        unique_keys(s),
        forall|p: int| 0 <= p < s.len() ==> (#[trigger] s[p]).0 != e.0,
    ensures
        unique_keys(s.push(e)),
        assoc_find(s.push(e), e.0) == Some(e.1),
        forall|k: K| k != e.0 ==> #[trigger] assoc_find(s.push(e), k) == assoc_find(s, k),
{
    let t = s.push(e);
    assert(t[s.len() as int] == e);
    assert(forall|p: int| 0 <= p < s.len() ==> t[p] == s[p]);
    lemma_assoc_find_entry(t, s.len() as int);
    assert forall|k: K| k != e.0 implies #[trigger] assoc_find(t, k) == assoc_find(s, k) by {
        lemma_assoc_find_from_spec(s, k, 0);
        match assoc_find(s, k) {
            Some(v) => {
                let p = choose|p: int| 0 <= p < s.len() && s[p] == (k, v);
                lemma_assoc_find_entry(t, p);
            },
            None => {
                lemma_assoc_find_absent(t, k);
            },
        }
    }
}

/// Inserting an entry with a fresh key at any position keeps keys
/// unique, makes the new key found, and leaves every other lookup
/// unchanged.
pub proof fn lemma_insert_entry<K>(s: Seq<(K, NodeIndex)>, e: (K, NodeIndex), pos: int)
    requires
        unique_keys(s),
        forall|p: int| 0 <= p < s.len() ==> (#[trigger] s[p]).0 != e.0,
        0 <= pos <= s.len(),
    ensures
        unique_keys(s.insert(pos, e)),
        assoc_find(s.insert(pos, e), e.0) == Some(e.1),
        forall|k: K| k != e.0 ==> #[trigger] assoc_find(s.insert(pos, e), k) == assoc_find(s, k),
{
    let t = s.insert(pos, e);
    s.insert_ensures(pos, e);
    assert forall|p: int, q: int| 0 <= p < q < t.len() implies (#[trigger] t[p]).0 != (
    #[trigger] t[q]).0 by {
        if p == pos {
            assert(t[q] == s[q - 1]);
        } else if q == pos {
            assert(t[p] == s[p]);
        } else if p < pos && q > pos {
            assert(t[p] == s[p] && t[q] == s[q - 1]);
        } else if q < pos {
            assert(t[p] == s[p] && t[q] == s[q]);
        } else {
            assert(t[p] == s[p - 1] && t[q] == s[q - 1]);
        }
    }
    lemma_assoc_find_entry(t, pos);
    assert forall|k: K| k != e.0 implies #[trigger] assoc_find(t, k) == assoc_find(s, k) by {
        lemma_assoc_find_from_spec(s, k, 0);
        match assoc_find(s, k) {
            Some(v) => {
                let p = choose|p: int| 0 <= p < s.len() && s[p] == (k, v);
                if p < pos {
                    assert(t[p] == (k, v));
                    lemma_assoc_find_entry(t, p);
                } else {
                    assert(t[p + 1] == (k, v));
                    lemma_assoc_find_entry(t, p + 1);
                }
            },
            None => {
                assert forall|p: int| 0 <= p < t.len() implies (#[trigger] t[p]).0 != k by {
                    if p < pos {
                        assert(t[p] == s[p]);
                    } else if p > pos {
                        assert(t[p] == s[p - 1]);
                    }
                }
                lemma_assoc_find_absent(t, k);
            },
        }
    }
}

/// The scheduling hypergraph.
///
/// The facade owns the four sub-stores: the node arena, the hyperedge
/// arena, the incidence index (one ordered edge list per node) and the
/// per-type uniqueness indices. Mutation goes through the construction
/// operations only.
#[derive(Debug)]
pub struct ScheduleGraph {
    /// Nodes of the problem; a node's handle is its position here.
    pub nodes: Vec<Node>,
    /// Hyperedges for all the typed interactions.
    pub hyperedges: Vec<HyperEdge>,
    /// For each node handle, the ordered hyperedge handles it is part of.
    pub incidence_list: Vec<Vec<EdgeIndex>>,
    /// Uniqueness indices: key to node handle, one per indexed node type.
    pub technician_indices: Vec<(TechnicianId, NodeIndex)>,
    pub work_order_indices: Vec<(WorkOrderNumber, NodeIndex)>,
    pub period_indices: Vec<(Period, NodeIndex)>,
    pub skill_indices: Vec<(Skill, NodeIndex)>,
    /// The day index is kept sorted by date to support range scans.
    pub day_indices: Vec<(Date, NodeIndex)>,
}

impl ScheduleGraph {
    /// Every node handle stored in an edge refers into the arena.
    pub open spec fn edges_in_range(self) -> bool {
        forall|e: int, j: int|
            0 <= e < self.hyperedges@.len() && 0 <= j < self.hyperedges@[e].nodes@.len() ==> (
            #[trigger] self.hyperedges@[e].nodes@[j]) < self.nodes@.len()
    }

    /// Edge `e` appears in the incidence sequence of node `n`.
    pub open spec fn node_incident_to(self, n: int, e: int) -> bool {
        exists|k: int|
            0 <= k < self.incidence_list@[n]@.len() && (#[trigger] self.incidence_list@[n]@[k])
                == e
    }

    /// Edge `e`'s node list mentions node `n`.
    pub open spec fn edge_mentions(self, e: int, n: int) -> bool {
        exists|j: int|
            0 <= j < self.hyperedges@[e].nodes@.len() && (#[trigger] self.hyperedges@[e].nodes@[j])
                == n
    }

    /// Every endpoint of every edge lists that edge.
    pub open spec fn incidence_complete(self) -> bool {
        forall|e: int, j: int|
            0 <= e < self.hyperedges@.len() && 0 <= j < self.hyperedges@[e].nodes@.len()
                ==> self.node_incident_to((#[trigger] self.hyperedges@[e].nodes@[j]) as int, e)
    }

    /// Every incidence entry names a real edge that mentions the node.
    pub open spec fn incidence_sound(self) -> bool {
        forall|n: int, k: int|
            0 <= n < self.incidence_list@.len() && 0 <= k < self.incidence_list@[n]@.len() ==> ((
            #[trigger] self.incidence_list@[n]@[k]) < self.hyperedges@.len() && self.edge_mentions(
                self.incidence_list@[n]@[k] as int,
                n,
            ))
    }

    /// Every index entry points at an arena node of the right type
    /// carrying that key, and no key appears twice.
    pub open spec fn entries_wf(self) -> bool {
        &&& forall|p: int|
            0 <= p < self.technician_indices@.len() ==> ((#[trigger] self.technician_indices@[p]).1
                < self.nodes@.len() && self.nodes@[self.technician_indices@[p].1 as int]
                == Node::Technician(self.technician_indices@[p].0))
        &&& forall|p: int|
            0 <= p < self.work_order_indices@.len() ==> ((#[trigger] self.work_order_indices@[p]).1
                < self.nodes@.len() && self.nodes@[self.work_order_indices@[p].1 as int]
                == Node::WorkOrder(self.work_order_indices@[p].0))
        &&& forall|p: int|
            0 <= p < self.period_indices@.len() ==> ((#[trigger] self.period_indices@[p]).1
                < self.nodes@.len() && self.nodes@[self.period_indices@[p].1 as int]
                == Node::Period(self.period_indices@[p].0))
        &&& forall|p: int|
            0 <= p < self.skill_indices@.len() ==> ((#[trigger] self.skill_indices@[p]).1
                < self.nodes@.len() && self.nodes@[self.skill_indices@[p].1 as int] == Node::Skill(
                self.skill_indices@[p].0,
            ))
        &&& forall|p: int|
            0 <= p < self.day_indices@.len() ==> ((#[trigger] self.day_indices@[p]).1
                < self.nodes@.len() && self.nodes@[self.day_indices@[p].1 as int] == Node::Day(
                self.day_indices@[p].0,
            ))
        &&& unique_keys(self.technician_indices@)
        &&& unique_keys(self.work_order_indices@)
        &&& unique_keys(self.period_indices@)
        &&& unique_keys(self.skill_indices@)
        &&& unique_keys(self.day_indices@)
    }

    /// Every uniquely-keyed node in the arena is recorded in its index;
    /// activity nodes are exempt.
    pub open spec fn indices_complete(self) -> bool {
        forall|i: int|
            0 <= i < self.nodes@.len() ==> match #[trigger] self.nodes@[i] {
                Node::Technician(id) => exists|p: int|
                    0 <= p < self.technician_indices@.len() && (
                    #[trigger] self.technician_indices@[p]) == (id, i as NodeIndex),
                Node::WorkOrder(won) => exists|p: int|
                    0 <= p < self.work_order_indices@.len() && (
                    #[trigger] self.work_order_indices@[p]) == (won, i as NodeIndex),
                Node::Period(pe) => exists|p: int|
                    0 <= p < self.period_indices@.len() && (#[trigger] self.period_indices@[p]) == (
                        pe,
                        i as NodeIndex,
                    ),
                Node::Skill(s) => exists|p: int|
                    0 <= p < self.skill_indices@.len() && (#[trigger] self.skill_indices@[p]) == (
                        s,
                        i as NodeIndex,
                    ),
                Node::Day(d) => exists|p: int|
                    0 <= p < self.day_indices@.len() && (#[trigger] self.day_indices@[p]) == (
                        d,
                        i as NodeIndex,
                    ),
                Node::Activity(_) => true,
            }
    }

    /// The day index is strictly sorted by date, and its dates and the
    /// period index's dates are well-formed; period start dates stay far
    /// enough from the last representable date that a full period after
    /// them is still representable.
    pub open spec fn dates_wf(self) -> bool {
        &&& forall|p: int| 0 <= p < self.day_indices@.len() ==> (#[trigger] self.day_indices@[p]).0.wf()
        &&& forall|p: int, q: int|
            0 <= p < q < self.day_indices@.len() ==> (#[trigger] self.day_indices@[p]).0.key() < (
            #[trigger] self.day_indices@[q]).0.key()
        &&& forall|p: int|
            0 <= p < self.period_indices@.len() ==> ((#[trigger] self.period_indices@[p]).0.0.wf()
                && self.period_indices@[p].0.0.year < 0xffff)
    }

    /// The graph invariant: incidence is bidirectionally consistent with
    /// the two arenas, and the uniqueness indices exactly mirror the
    /// uniquely-keyed nodes.
    pub open spec fn wf(self) -> bool {
        &&& self.incidence_list@.len() == self.nodes@.len()
        &&& self.edges_in_range()
        &&& self.incidence_complete()
        &&& self.incidence_sound()
        &&& self.entries_wf()
        &&& self.indices_complete()
        &&& self.dates_wf()
    }

    /// The graph holds this exact node somewhere.
    pub open spec fn has_node(self, node: Node) -> bool {
        exists|i: int| 0 <= i < self.nodes@.len() && self.nodes@[i] == node
    }

    /// The handle of a node; meaningful for the uniquely-keyed node
    /// types, whose handle is unique when the graph is well-formed.
    pub open spec fn node_id(self, node: Node) -> int {
        choose|i: int| 0 <= i < self.nodes@.len() && self.nodes@[i] == node
    }

    pub fn new() -> (g: ScheduleGraph)
        ensures
            g.nodes@.len() == 0,
            g.hyperedges@.len() == 0,
            g.incidence_list@.len() == 0,
            g.technician_indices@.len() == 0,
            g.work_order_indices@.len() == 0,
            g.period_indices@.len() == 0,
            g.skill_indices@.len() == 0,
            g.day_indices@.len() == 0,
            g.wf(),
    {
        ScheduleGraph {
            nodes: Vec::new(),
            hyperedges: Vec::new(),
            incidence_list: Vec::new(),
            technician_indices: Vec::new(),
            work_order_indices: Vec::new(),
            period_indices: Vec::new(),
            skill_indices: Vec::new(),
            day_indices: Vec::new(),
        }
    }

    pub fn nodes(&self) -> (r: &Vec<Node>)
        ensures
            r@ == self.nodes@,
    {
        &self.nodes
    }

    pub fn hyperedges(&self) -> (r: &Vec<HyperEdge>)
        ensures
            r@ == self.hyperedges@,
    {
        &self.hyperedges
    }

    pub fn incidence_list(&self) -> (r: &Vec<Vec<EdgeIndex>>)
        ensures
            r@ == self.incidence_list@,
    {
        &self.incidence_list
    }

    /// Returns the number of nodes in the graph.
    pub fn node_count(&self) -> (r: usize)
        ensures
            r == self.nodes@.len(),
    {
        self.nodes.len()
    }

    /// Returns the number of hyperedges in the graph.
    pub fn hyperedge_count(&self) -> (r: usize)
        ensures
            r == self.hyperedges@.len(),
    {
        self.hyperedges.len()
    }

    /// The node handle recorded for a technician id, if any.
    pub fn technician_node(&self, id: TechnicianId) -> (r: Option<NodeIndex>)
        ensures
            r == assoc_find(self.technician_indices@, id),
    {
        let n: usize = self.technician_indices.len();
        let mut i: usize = 0;
        while i < n
            invariant
                n == self.technician_indices@.len(),
                0 <= i <= n,
                assoc_find(self.technician_indices@, id) == assoc_find_from(
                    self.technician_indices@,
                    id,
                    i as int,
                ),
            decreases n - i,
        {
            let entry = self.technician_indices[i];
            if entry.0 == id {
                return Some(entry.1);
            }
            i = i + 1;
        }
        None
    }

    /// The node handle recorded for a work-order number, if any.
    pub fn work_order_node(&self, won: WorkOrderNumber) -> (r: Option<NodeIndex>)
        ensures
            r == assoc_find(self.work_order_indices@, won),
    {
        let n: usize = self.work_order_indices.len();
        let mut i: usize = 0;
        while i < n
            invariant
                n == self.work_order_indices@.len(),
                0 <= i <= n,
                assoc_find(self.work_order_indices@, won) == assoc_find_from(
                    self.work_order_indices@,
                    won,
                    i as int,
                ),
            decreases n - i,
        {
            let entry = self.work_order_indices[i];
            if entry.0 == won {
                return Some(entry.1);
            }
            i = i + 1;
        }
        None
    }

    /// The node handle recorded for a period, if any.
    pub fn period_node(&self, period: Period) -> (r: Option<NodeIndex>)
        ensures
            r == assoc_find(self.period_indices@, period),
    {
        let n: usize = self.period_indices.len();
        let mut i: usize = 0;
        while i < n
            invariant
                n == self.period_indices@.len(),
                0 <= i <= n,
                assoc_find(self.period_indices@, period) == assoc_find_from(
                    self.period_indices@,
                    period,
                    i as int,
                ),
            decreases n - i,
        {
            let entry = self.period_indices[i];
            if entry.0 == period {
                return Some(entry.1);
            }
            i = i + 1;
        }
        None
    }

    /// The node handle recorded for a skill, if any.
    pub fn skill_node(&self, skill: Skill) -> (r: Option<NodeIndex>)
        ensures
            r == assoc_find(self.skill_indices@, skill),
    {
        let n: usize = self.skill_indices.len();
        let mut i: usize = 0;
        while i < n
            invariant
                n == self.skill_indices@.len(),
                0 <= i <= n,
                assoc_find(self.skill_indices@, skill) == assoc_find_from(
                    self.skill_indices@,
                    skill,
                    i as int,
                ),
            decreases n - i,
        {
            let entry = self.skill_indices[i];
            if entry.0 == skill {
                return Some(entry.1);
            }
            i = i + 1;
        }
        None
    }

    /// The node handle recorded for a calendar day, if any.
    pub fn day_node(&self, date: Date) -> (r: Option<NodeIndex>)
        ensures
            r == assoc_find(self.day_indices@, date),
    {
        let n: usize = self.day_indices.len();
        let mut i: usize = 0;
        while i < n
            invariant
                n == self.day_indices@.len(),
                0 <= i <= n,
                assoc_find(self.day_indices@, date) == assoc_find_from(
                    self.day_indices@,
                    date,
                    i as int,
                ),
            decreases n - i,
        {
            let entry = self.day_indices[i];
            if entry.0 == date {
                return Some(entry.1);
            }
            i = i + 1;
        }
        None
    }
}

/// The per-node incidence growth caused by one new edge: the new edge's
/// handle appears once for every occurrence of the node in the edge's
/// node list, in list order.
pub open spec fn edge_additions(list: Seq<NodeIndex>, n: NodeIndex, e: EdgeIndex) -> Seq<EdgeIndex>
    decreases list.len(),
{
    if list.len() == 0 {
        Seq::empty()
    } else {
        edge_additions(list.drop_last(), n, e) + (if list.last() == n {
            seq![e]
        } else {
            Seq::empty()
        })
    }
}

/// Every element the growth sequence holds is the new edge's handle, and
/// it is non-empty exactly when the node occurs in the edge.
pub proof fn lemma_edge_additions(list: Seq<NodeIndex>, n: NodeIndex, e: EdgeIndex)
    ensures
        forall|k: int|
            0 <= k < edge_additions(list, n, e).len() ==> edge_additions(list, n, e)[k] == e,
        edge_additions(list, n, e).len() > 0 <==> list.contains(n),
    decreases list.len(),
{
    if list.len() > 0 {
        lemma_edge_additions(list.drop_last(), n, e);
        if list.contains(n) {
            let j = choose|j: int| 0 <= j < list.len() && list[j] == n;
            if j < list.len() - 1 {
                assert(list.drop_last()[j] == n);
                assert(list.drop_last().contains(n));
            }
        }
        if list.drop_last().contains(n) {
            let j = choose|j: int| 0 <= j < list.drop_last().len() && list.drop_last()[j] == n;
            assert(list[j] == n);
        }
    }
}

/// The incidence entries that the edges with handles in `[from, to)`
/// contribute to node `n`, in handle order.
pub open spec fn incidence_from_edges(edges: Seq<HyperEdge>, from: int, to: int, n: NodeIndex) -> Seq<
    EdgeIndex,
>
    decreases to - from,
{
    if from >= to {
        Seq::empty()
    } else {
        incidence_from_edges(edges, from, to - 1, n) + edge_additions(
            edges[to - 1].nodes@,
            n,
            (to - 1) as EdgeIndex,
        )
    }
}

/// The contribution depends only on the edges in the range.
pub proof fn lemma_incidence_from_edges_congruent(
    e1: Seq<HyperEdge>,
    e2: Seq<HyperEdge>,
    from: int,
    to: int,
    n: NodeIndex,
)
    requires
        forall|t: int| from <= t < to ==> (#[trigger] e1[t]) == e2[t],
    ensures
        incidence_from_edges(e1, from, to, n) == incidence_from_edges(e2, from, to, n),
    decreases to - from,
{
    if from < to {
        lemma_incidence_from_edges_congruent(e1, e2, from, to - 1, n);
    }
}

/// The contribution of a range splits at any midpoint.
pub proof fn lemma_incidence_from_edges_split(
    edges: Seq<HyperEdge>,
    a: int,
    b: int,
    c: int,
    n: NodeIndex,
)
    requires
        a <= b <= c,
    ensures
        incidence_from_edges(edges, a, c, n) == incidence_from_edges(edges, a, b, n)
            + incidence_from_edges(edges, b, c, n),
    decreases c - b,
{
    if b == c {
        assert(incidence_from_edges(edges, a, c, n) =~= incidence_from_edges(edges, a, b, n)
            + incidence_from_edges(edges, b, c, n));
    } else {
        lemma_incidence_from_edges_split(edges, a, b, c - 1, n);
        assert(incidence_from_edges(edges, a, c, n) =~= incidence_from_edges(edges, a, b, n)
            + incidence_from_edges(edges, b, c, n));
    }
}

/// Edges that never mention the node contribute nothing.
pub proof fn lemma_incidence_from_edges_absent(
    edges: Seq<HyperEdge>,
    from: int,
    to: int,
    n: NodeIndex,
)
    requires
        forall|t: int| from <= t < to ==> !(#[trigger] edges[t]).nodes@.contains(n),
    ensures
        incidence_from_edges(edges, from, to, n) == Seq::<EdgeIndex>::empty(),
    decreases to - from,
{
    if from < to {
        lemma_incidence_from_edges_absent(edges, from, to - 1, n);
        lemma_edge_additions(edges[to - 1].nodes@, n, (to - 1) as EdgeIndex);
        assert(incidence_from_edges(edges, from, to, n) =~= Seq::<EdgeIndex>::empty());
    }
}

/// When the incidence of every node follows the uniform
/// base-plus-contributions formula from `l0` on, and one more edge is
/// appended the way `add_edge` appends it, the formula still holds.
pub proof fn lemma_incidence_formula_step(
    pre: ScheduleGraph,
    mid: ScheduleGraph,
    post: ScheduleGraph,
    l0: int,
)
    requires
        0 <= l0 <= mid.hyperedges@.len(),
        post.hyperedges@.len() == mid.hyperedges@.len() + 1,
        forall|e: int|
            0 <= e < mid.hyperedges@.len() ==> #[trigger] post.hyperedges@[e]
                == mid.hyperedges@[e],
        post.incidence_list@.len() == mid.incidence_list@.len(),
        forall|n: int|
            0 <= n < mid.incidence_list@.len() ==> #[trigger] post.incidence_list@[n]@
                == mid.incidence_list@[n]@ + edge_additions(
                post.hyperedges@[mid.hyperedges@.len() as int].nodes@,
                n as NodeIndex,
                mid.hyperedges@.len() as EdgeIndex,
            ),
        forall|n: int|
            0 <= n < mid.incidence_list@.len() ==> #[trigger] mid.incidence_list@[n]@ == (if n
                < pre.incidence_list@.len() {
                pre.incidence_list@[n]@
            } else {
                Seq::<EdgeIndex>::empty()
            }) + incidence_from_edges(
                mid.hyperedges@,
                l0,
                mid.hyperedges@.len() as int,
                n as NodeIndex,
            ),
    ensures
        forall|n: int|
            0 <= n < post.incidence_list@.len() ==> #[trigger] post.incidence_list@[n]@ == (if n
                < pre.incidence_list@.len() {
                pre.incidence_list@[n]@
            } else {
                Seq::<EdgeIndex>::empty()
            }) + incidence_from_edges(
                post.hyperedges@,
                l0,
                post.hyperedges@.len() as int,
                n as NodeIndex,
            ),
{
    let l1 = mid.hyperedges@.len() as int;
    assert forall|n: int| 0 <= n < post.incidence_list@.len() implies
    #[trigger] post.incidence_list@[n]@ == (if n < pre.incidence_list@.len() {
        pre.incidence_list@[n]@
    } else {
        Seq::<EdgeIndex>::empty()
    }) + incidence_from_edges(post.hyperedges@, l0, post.hyperedges@.len() as int, n as NodeIndex)
        by {
        lemma_incidence_from_edges_congruent(post.hyperedges@, mid.hyperedges@, l0, l1, n
            as NodeIndex);
        assert(incidence_from_edges(post.hyperedges@, l0, l1 + 1, n as NodeIndex)
            == incidence_from_edges(post.hyperedges@, l0, l1, n as NodeIndex) + edge_additions(
            post.hyperedges@[l1].nodes@,
            n as NodeIndex,
            l1 as EdgeIndex,
        ));
        assert(post.incidence_list@[n]@ =~= (if n < pre.incidence_list@.len() {
            pre.incidence_list@[n]@
        } else {
            Seq::<EdgeIndex>::empty()
        }) + incidence_from_edges(
            post.hyperedges@,
            l0,
            post.hyperedges@.len() as int,
            n as NodeIndex,
        ));
    }
}

impl ScheduleGraph {
    /// What `add_node` asks of its argument: the node's key is not yet
    /// present (activity nodes are exempt from uniqueness), and day and
    /// period nodes carry representable dates.
    pub open spec fn node_insertable(self, node: Node) -> bool {
        match node {
            Node::Activity(_) => true,
            Node::Day(d) => d.wf() && !self.has_node(node),
            Node::Period(p) => p.0.wf() && p.0.year < 0xffff && !self.has_node(node),
            _ => !self.has_node(node),
        }
    }

    /// How the five uniqueness indices change when `node` is appended
    /// with handle `r`: the matching index gains exactly the new key,
    /// the others are untouched.
    pub open spec fn indices_after_add(pre: ScheduleGraph, post: ScheduleGraph, node: Node, r:
        NodeIndex) -> bool {
        match node {
            Node::Technician(id) => {
                &&& assoc_find(post.technician_indices@, id) == Some(r)
                &&& forall|k: TechnicianId|
                    k != id ==> #[trigger] assoc_find(post.technician_indices@, k) == assoc_find(
                        pre.technician_indices@,
                        k,
                    )
                &&& post.work_order_indices@ == pre.work_order_indices@
                &&& post.period_indices@ == pre.period_indices@
                &&& post.skill_indices@ == pre.skill_indices@
                &&& post.day_indices@ == pre.day_indices@
            },
            Node::WorkOrder(won) => {
                &&& assoc_find(post.work_order_indices@, won) == Some(r)
                &&& forall|k: WorkOrderNumber|
                    k != won ==> #[trigger] assoc_find(post.work_order_indices@, k) == assoc_find(
                        pre.work_order_indices@,
                        k,
                    )
                &&& post.technician_indices@ == pre.technician_indices@
                &&& post.period_indices@ == pre.period_indices@
                &&& post.skill_indices@ == pre.skill_indices@
                &&& post.day_indices@ == pre.day_indices@
            },
            Node::Period(pe) => {
                &&& assoc_find(post.period_indices@, pe) == Some(r)
                &&& forall|k: Period|
                    k != pe ==> #[trigger] assoc_find(post.period_indices@, k) == assoc_find(
                        pre.period_indices@,
                        k,
                    )
                &&& post.technician_indices@ == pre.technician_indices@
                &&& post.work_order_indices@ == pre.work_order_indices@
                &&& post.skill_indices@ == pre.skill_indices@
                &&& post.day_indices@ == pre.day_indices@
            },
            Node::Skill(s) => {
                &&& assoc_find(post.skill_indices@, s) == Some(r)
                &&& forall|k: Skill|
                    k != s ==> #[trigger] assoc_find(post.skill_indices@, k) == assoc_find(
                        pre.skill_indices@,
                        k,
                    )
                &&& post.technician_indices@ == pre.technician_indices@
                &&& post.work_order_indices@ == pre.work_order_indices@
                &&& post.period_indices@ == pre.period_indices@
                &&& post.day_indices@ == pre.day_indices@
            },
            Node::Day(d) => {
                &&& assoc_find(post.day_indices@, d) == Some(r)
                &&& forall|k: Date|
                    k != d ==> #[trigger] assoc_find(post.day_indices@, k) == assoc_find(
                        pre.day_indices@,
                        k,
                    )
                &&& post.technician_indices@ == pre.technician_indices@
                &&& post.work_order_indices@ == pre.work_order_indices@
                &&& post.period_indices@ == pre.period_indices@
                &&& post.skill_indices@ == pre.skill_indices@
            },
            Node::Activity(_) => {
                &&& post.technician_indices@ == pre.technician_indices@
                &&& post.work_order_indices@ == pre.work_order_indices@
                &&& post.period_indices@ == pre.period_indices@
                &&& post.skill_indices@ == pre.skill_indices@
                &&& post.day_indices@ == pre.day_indices@
            },
        }
    }

    /// How the graph changes when exactly one edge with node list `list`
    /// and kind `et` is appended: the arenas and indices are otherwise
    /// untouched, and each endpoint's incidence sequence grows by the
    /// new handle, once per occurrence.
    pub open spec fn edge_appended(
        pre: ScheduleGraph,
        post: ScheduleGraph,
        et: EdgeType,
        list: Seq<NodeIndex>,
    ) -> bool {
        &&& post.hyperedges@.len() == pre.hyperedges@.len() + 1
        &&& forall|e: int|
            0 <= e < pre.hyperedges@.len() ==> #[trigger] post.hyperedges@[e]
                == pre.hyperedges@[e]
        &&& post.hyperedges@[pre.hyperedges@.len() as int].edge_type == et
        &&& post.hyperedges@[pre.hyperedges@.len() as int].nodes@ == list
        &&& post.nodes@ == pre.nodes@
        &&& post.technician_indices@ == pre.technician_indices@
        &&& post.work_order_indices@ == pre.work_order_indices@
        &&& post.period_indices@ == pre.period_indices@
        &&& post.skill_indices@ == pre.skill_indices@
        &&& post.day_indices@ == pre.day_indices@
        &&& post.incidence_list@.len() == pre.incidence_list@.len()
        &&& forall|n: int|
            0 <= n < pre.incidence_list@.len() ==> #[trigger] post.incidence_list@[n]@
                == pre.incidence_list@[n]@ + edge_additions(
                list,
                n as NodeIndex,
                pre.hyperedges@.len() as EdgeIndex,
            )
    }

    /// Appends a node to the arena, indexes its key (unless it is an
    /// activity node) and gives it an empty incidence sequence. The
    /// handle is the arena length before the append.
    pub fn add_node(&mut self, node: Node) -> (r: NodeIndex)
        requires
            old(self).wf(),
            old(self).node_insertable(node),
        ensures
            r == old(self).nodes@.len(),
            final(self).nodes@ == old(self).nodes@.push(node),
            final(self).hyperedges@ == old(self).hyperedges@,
            final(self).incidence_list@.len() == old(self).incidence_list@.len() + 1,
            forall|n: int|
                0 <= n < old(self).incidence_list@.len() ==> final(self).incidence_list@[n]@ == old(
                    self,
                ).incidence_list@[n]@,
            final(self).incidence_list@[r as int]@ == Seq::<EdgeIndex>::empty(),
            ScheduleGraph::indices_after_add(*old(self), *final(self), node, r),
            final(self).wf(),
    {
        let node_index = self.nodes.len();
        let ghost pre = *self;
        let ghost mut day_pos: int = 0;
        match node {
            Node::Technician(id) => {
                proof {
                    assert forall|p: int|
                        0 <= p < pre.technician_indices@.len() implies (
                    #[trigger] pre.technician_indices@[p]).0 != id by {
                        if pre.technician_indices@[p].0 == id {
                            let v = pre.technician_indices@[p].1;
                            assert(pre.nodes@[v as int] == node);
                        }
                    }
                    lemma_push_entry(pre.technician_indices@, (id, node_index));
                }
                self.technician_indices.push((id, node_index));
            },
            Node::WorkOrder(won) => {
                proof {
                    assert forall|p: int|
                        0 <= p < pre.work_order_indices@.len() implies (
                    #[trigger] pre.work_order_indices@[p]).0 != won by {
                        if pre.work_order_indices@[p].0 == won {
                            let v = pre.work_order_indices@[p].1;
                            assert(pre.nodes@[v as int] == node);
                        }
                    }
                    lemma_push_entry(pre.work_order_indices@, (won, node_index));
                }
                self.work_order_indices.push((won, node_index));
            },
            Node::Period(pe) => {
                proof {
                    assert forall|p: int|
                        0 <= p < pre.period_indices@.len() implies (
                    #[trigger] pre.period_indices@[p]).0 != pe by {
                        if pre.period_indices@[p].0 == pe {
                            let v = pre.period_indices@[p].1;
                            assert(pre.nodes@[v as int] == node);
                        }
                    }
                    lemma_push_entry(pre.period_indices@, (pe, node_index));
                }
                self.period_indices.push((pe, node_index));
            },
            Node::Skill(s) => {
                proof {
                    assert forall|p: int|
                        0 <= p < pre.skill_indices@.len() implies (#[trigger] pre.skill_indices@[p]).0
                        != s by {
                        if pre.skill_indices@[p].0 == s {
                            let v = pre.skill_indices@[p].1;
                            assert(pre.nodes@[v as int] == node);
                        }
                    }
                    lemma_push_entry(pre.skill_indices@, (s, node_index));
                }
                self.skill_indices.push((s, node_index));
            },
            Node::Day(d) => {
                proof {
                    assert forall|p: int|
                        0 <= p < pre.day_indices@.len() implies (#[trigger] pre.day_indices@[p]).0
                        != d by {
                        if pre.day_indices@[p].0 == d {
                            let v = pre.day_indices@[p].1;
                            assert(pre.nodes@[v as int] == node);
                        }
                    }
                }
                let n: usize = self.day_indices.len();
                let mut pos: usize = 0;
                while pos < n && self.day_indices[pos].0.lt(d)
                    invariant
                        self.day_indices@ == pre.day_indices@,
                        n == self.day_indices@.len(),
                        0 <= pos <= n,
                        forall|p: int|
                            0 <= p < pos ==> (#[trigger] self.day_indices@[p]).0.key() < d.key(),
                    decreases n - pos,
                {
                    pos = pos + 1;
                }
                proof {
                    if pos < n {
                        let ex = pre.day_indices@[pos as int].0;
                        assert(ex != d);
                        if ex.key() == d.key() {
                            Date::lemma_key_injective(ex, d);
                        }
                        assert(ex.key() > d.key());
                    }
                    lemma_insert_entry(pre.day_indices@, (d, node_index), pos as int);
                    pre.day_indices@.insert_ensures(pos as int, (d, node_index));
                    day_pos = pos as int;
                }
                self.day_indices.insert(pos, (d, node_index));
            },
            Node::Activity(_) => {},
        }
        self.incidence_list.push(Vec::new());
        self.nodes.push(node);
        proof {
            lemma_add_node_wf(pre, *self, node, node_index, day_pos);
        }
        node_index
    }
}

/// Appending one node as `add_node` does preserves the graph invariant.
/// For a day node, `day_pos` is the sorted position the entry went to.
proof fn lemma_add_node_wf(
    pre: ScheduleGraph,
    post: ScheduleGraph,
    node: Node,
    r: NodeIndex,
    day_pos: int,
)
    requires
        pre.wf(),
        pre.node_insertable(node),
        r == pre.nodes@.len(),
        post.nodes@ == pre.nodes@.push(node),
        post.hyperedges@ == pre.hyperedges@,
        post.incidence_list@.len() == pre.incidence_list@.len() + 1,
        forall|n: int|
            0 <= n < pre.incidence_list@.len() ==> post.incidence_list@[n]@
                == pre.incidence_list@[n]@,
        post.incidence_list@[r as int]@ == Seq::<EdgeIndex>::empty(),
        match node {
            Node::Technician(id) => post.technician_indices@ == pre.technician_indices@.push(
                (id, r),
            ) && post.work_order_indices@ == pre.work_order_indices@ && post.period_indices@
                == pre.period_indices@ && post.skill_indices@ == pre.skill_indices@
                && post.day_indices@ == pre.day_indices@,
            Node::WorkOrder(won) => post.work_order_indices@ == pre.work_order_indices@.push(
                (won, r),
            ) && post.technician_indices@ == pre.technician_indices@ && post.period_indices@
                == pre.period_indices@ && post.skill_indices@ == pre.skill_indices@
                && post.day_indices@ == pre.day_indices@,
            Node::Period(pe) => post.period_indices@ == pre.period_indices@.push((pe, r))
                && post.technician_indices@ == pre.technician_indices@ && post.work_order_indices@
                == pre.work_order_indices@ && post.skill_indices@ == pre.skill_indices@
                && post.day_indices@ == pre.day_indices@,
            Node::Skill(s) => post.skill_indices@ == pre.skill_indices@.push((s, r))
                && post.technician_indices@ == pre.technician_indices@ && post.work_order_indices@
                == pre.work_order_indices@ && post.period_indices@ == pre.period_indices@
                && post.day_indices@ == pre.day_indices@,
            Node::Day(d) => {
                &&& 0 <= day_pos <= pre.day_indices@.len()
                &&& post.day_indices@ == pre.day_indices@.insert(day_pos, (d, r))
                &&& forall|p: int|
                    0 <= p < day_pos ==> (#[trigger] pre.day_indices@[p]).0.key() < d.key()
                &&& (day_pos < pre.day_indices@.len() ==> pre.day_indices@[day_pos].0.key()
                    > d.key())
                &&& post.technician_indices@ == pre.technician_indices@
                &&& post.work_order_indices@ == pre.work_order_indices@
                &&& post.period_indices@ == pre.period_indices@
                &&& post.skill_indices@ == pre.skill_indices@
            },
            Node::Activity(_) => post.technician_indices@ == pre.technician_indices@
                && post.work_order_indices@ == pre.work_order_indices@ && post.period_indices@
                == pre.period_indices@ && post.skill_indices@ == pre.skill_indices@
                && post.day_indices@ == pre.day_indices@,
        },
    ensures
        post.wf(),
{
    let nlen = pre.nodes@.len() as int;
    assert(forall|i: int| 0 <= i < nlen ==> post.nodes@[i] == pre.nodes@[i]);
    assert(post.nodes@[nlen] == node);

    // Edges are unchanged and still point into the (longer) arena.
    assert forall|e: int, j: int|
        0 <= e < post.hyperedges@.len() && 0 <= j < post.hyperedges@[e].nodes@.len() implies (
    #[trigger] post.hyperedges@[e].nodes@[j]) < post.nodes@.len() by {
        assert(pre.hyperedges@[e].nodes@[j] < pre.nodes@.len());
    }

    assert forall|e: int, j: int|
        0 <= e < post.hyperedges@.len() && 0 <= j < post.hyperedges@[e].nodes@.len() implies
    post.node_incident_to((#[trigger] post.hyperedges@[e].nodes@[j]) as int, e) by {
        let n = pre.hyperedges@[e].nodes@[j] as int;
        assert(pre.node_incident_to(n, e));
        let k = choose|k: int|
            0 <= k < pre.incidence_list@[n]@.len() && pre.incidence_list@[n]@[k] == e;
        assert(post.incidence_list@[n]@[k] == e);
    }

    assert forall|n: int, k: int|
        0 <= n < post.incidence_list@.len() && 0 <= k < post.incidence_list@[n]@.len() implies ((
    #[trigger] post.incidence_list@[n]@[k]) < post.hyperedges@.len() && post.edge_mentions(
        post.incidence_list@[n]@[k] as int,
        n,
    )) by {
        assert(n < nlen);
        assert(pre.incidence_list@[n]@[k] < pre.hyperedges@.len());
        assert(pre.edge_mentions(pre.incidence_list@[n]@[k] as int, n));
    }

    // Index entry validity, uniqueness, and completeness.
    match node {
        Node::Technician(id) => {
            lemma_index_extended_by_push(pre.technician_indices@, pre.nodes@, node, (id, r));
            assert(post.entries_wf());
            lemma_completeness_after_push(pre, post, node, r);
        },
        Node::WorkOrder(won) => {
            lemma_index_extended_by_push(pre.work_order_indices@, pre.nodes@, node, (won, r));
            assert(post.entries_wf());
            lemma_completeness_after_push(pre, post, node, r);
        },
        Node::Period(pe) => {
            lemma_index_extended_by_push(pre.period_indices@, pre.nodes@, node, (pe, r));
            assert(post.entries_wf());
            lemma_completeness_after_push(pre, post, node, r);
        },
        Node::Skill(s) => {
            lemma_index_extended_by_push(pre.skill_indices@, pre.nodes@, node, (s, r));
            assert(post.entries_wf());
            lemma_completeness_after_push(pre, post, node, r);
        },
        Node::Day(d) => {
            let pos = day_pos;
            pre.day_indices@.insert_ensures(pos, (d, r));
            let t = post.day_indices@;
            let s = pre.day_indices@;
            assert forall|p: int|
                0 <= p < t.len() implies ((#[trigger] t[p]).1 < post.nodes@.len()
                && post.nodes@[t[p].1 as int] == Node::Day(t[p].0) && t[p].0.wf()) by {
                if p < pos {
                    assert(t[p] == s[p]);
                } else if p > pos {
                    assert(t[p] == s[p - 1]);
                } else {
                    assert(t[p] == (d, r));
                }
            }
            assert forall|p: int, q: int| 0 <= p < q < t.len() implies (#[trigger] t[p]).0.key() < (
            #[trigger] t[q]).0.key() by {
                if p == pos {
                    assert(t[q] == s[q - 1] && q - 1 >= pos);
                } else if q == pos {
                    assert(t[p] == s[p]);
                } else if p < pos && q > pos {
                    assert(t[p] == s[p] && t[q] == s[q - 1]);
                    if q - 1 > pos {
                        assert(s[pos].0.key() < s[q - 1].0.key());
                    }
                } else if q < pos {
                    assert(t[p] == s[p] && t[q] == s[q]);
                } else {
                    assert(t[p] == s[p - 1] && t[q] == s[q - 1]);
                }
            }
            assert forall|p: int, q: int| 0 <= p < q < t.len() implies (#[trigger] t[p]).0 != (
            #[trigger] t[q]).0 by {
                assert(t[p].0.key() < t[q].0.key());
            }
            assert(post.entries_wf());
            assert forall|i: int| 0 <= i < post.nodes@.len() implies match #[trigger] post.nodes@[i] {
                Node::Technician(id2) => exists|p: int|
                    0 <= p < post.technician_indices@.len() && (
                    #[trigger] post.technician_indices@[p]) == (id2, i as NodeIndex),
                Node::WorkOrder(w2) => exists|p: int|
                    0 <= p < post.work_order_indices@.len() && (
                    #[trigger] post.work_order_indices@[p]) == (w2, i as NodeIndex),
                Node::Period(p2) => exists|p: int|
                    0 <= p < post.period_indices@.len() && (#[trigger] post.period_indices@[p]) == (
                        p2,
                        i as NodeIndex,
                    ),
                Node::Skill(s2) => exists|p: int|
                    0 <= p < post.skill_indices@.len() && (#[trigger] post.skill_indices@[p]) == (
                        s2,
                        i as NodeIndex,
                    ),
                Node::Day(d2) => exists|p: int|
                    0 <= p < post.day_indices@.len() && (#[trigger] post.day_indices@[p]) == (
                        d2,
                        i as NodeIndex,
                    ),
                Node::Activity(_) => true,
            } by {
                if i < nlen {
                    assert(post.nodes@[i] == pre.nodes@[i]);
                    match pre.nodes@[i] {
                        Node::Day(d2) => {
                            let p = choose|p: int|
                                0 <= p < s.len() && (#[trigger] s[p]) == (d2, i as NodeIndex);
                            if p < pos {
                                assert(t[p] == (d2, i as NodeIndex));
                            } else {
                                assert(t[p + 1] == (d2, i as NodeIndex));
                            }
                        },
                        _ => {},
                    }
                } else {
                    assert(post.nodes@[i] == node);
                    assert(t[pos] == (d, r));
                }
            }
        },
        Node::Activity(_) => {
            assert(post.entries_wf());
            lemma_completeness_after_push(pre, post, node, r);
        },
    }
}

impl ScheduleGraph {
    /// Appends a hyperedge and records its handle in the incidence
    /// sequence of every node in its list, in list order. This is the
    /// sole edge-creation path, so the incidence invariant is preserved
    /// by construction.
    pub fn add_edge(&mut self, edge_type: EdgeType, nodes: Vec<NodeIndex>) -> (r: EdgeIndex)
        requires
            old(self).wf(),
            forall|j: int| 0 <= j < nodes@.len() ==> (#[trigger] nodes@[j]) < old(self).nodes@.len(),
        ensures
            r == old(self).hyperedges@.len(),
            final(self).hyperedges@.len() == old(self).hyperedges@.len() + 1,
            forall|e: int|
                0 <= e < old(self).hyperedges@.len() ==> final(self).hyperedges@[e] == old(
                    self,
                ).hyperedges@[e],
            final(self).hyperedges@[r as int].edge_type == edge_type,
            final(self).hyperedges@[r as int].nodes@ == nodes@,
            final(self).nodes@ == old(self).nodes@,
            final(self).technician_indices@ == old(self).technician_indices@,
            final(self).work_order_indices@ == old(self).work_order_indices@,
            final(self).period_indices@ == old(self).period_indices@,
            final(self).skill_indices@ == old(self).skill_indices@,
            final(self).day_indices@ == old(self).day_indices@,
            final(self).incidence_list@.len() == old(self).incidence_list@.len(),
            forall|n: int|
                0 <= n < old(self).incidence_list@.len() ==> final(self).incidence_list@[n]@ == old(
                    self,
                ).incidence_list@[n]@ + edge_additions(nodes@, n as NodeIndex, r),
            final(self).wf(),
    {
        let edge_index = self.hyperedges.len();
        let ghost pre = *self;
        let inc_len = self.incidence_list.len();
        proof {
            assert(inc_len == pre.incidence_list@.len());
        }
        let count = nodes.len();
        let mut j: usize = 0;
        while j < count
            invariant
                pre.wf(),
                pre.incidence_list@.len() <= usize::MAX,
                count == nodes@.len(),
                edge_index == pre.hyperedges@.len(),
                forall|jj: int| 0 <= jj < count ==> (#[trigger] nodes@[jj]) < pre.nodes@.len(),
                self.nodes@ == pre.nodes@,
                self.hyperedges@ == pre.hyperedges@,
                self.technician_indices@ == pre.technician_indices@,
                self.work_order_indices@ == pre.work_order_indices@,
                self.period_indices@ == pre.period_indices@,
                self.skill_indices@ == pre.skill_indices@,
                self.day_indices@ == pre.day_indices@,
                self.incidence_list@.len() == pre.incidence_list@.len(),
                pre.incidence_list@.len() == pre.nodes@.len(),
                0 <= j <= count,
                forall|n: int|
                    0 <= n < pre.incidence_list@.len() ==> #[trigger] self.incidence_list@[n]@
                        == pre.incidence_list@[n]@ + edge_additions(
                        nodes@.take(j as int),
                        n as NodeIndex,
                        edge_index,
                    ),
            decreases count - j,
        {
            let ghost before = self.incidence_list@;
            let node_index = nodes[j];
            self.incidence_list[node_index].push(edge_index);
            proof {
                let taken = nodes@.take(j as int);
                let taken1 = nodes@.take(j as int + 1);
                assert(taken1.drop_last() =~= taken);
                assert(taken1.last() == nodes@[j as int]);
                assert forall|n: int|
                    0 <= n < pre.incidence_list@.len() implies #[trigger] self.incidence_list@[n]@
                    == pre.incidence_list@[n]@ + edge_additions(
                    taken1,
                    n as NodeIndex,
                    edge_index,
                ) by {
                    if n == node_index as int {
                        assert(self.incidence_list@[n]@ == before[n]@.push(edge_index));
                        assert(edge_additions(taken1, n as NodeIndex, edge_index)
                            == edge_additions(taken, n as NodeIndex, edge_index) + seq![
                                edge_index,
                            ]);
                        assert(self.incidence_list@[n]@ =~= pre.incidence_list@[n]@
                            + edge_additions(taken1, n as NodeIndex, edge_index));
                    } else {
                        assert(self.incidence_list@[n]@ == before[n]@);
                        assert(edge_additions(taken1, n as NodeIndex, edge_index)
                            =~= edge_additions(taken, n as NodeIndex, edge_index));
                    }
                }
            }
            j = j + 1;
        }
        proof {
            assert(nodes@.take(count as int) =~= nodes@);
        }
        let ghost inc_done = self.incidence_list@;
        let hyper_edge = HyperEdge { edge_type, nodes };
        self.hyperedges.push(hyper_edge);
        proof {
            assert(self.incidence_list@ == inc_done);
            lemma_add_edge_wf(pre, *self, edge_index);
        }
        edge_index
    }
}

/// Appending one edge as `add_edge` does preserves the graph invariant.
proof fn lemma_add_edge_wf(pre: ScheduleGraph, post: ScheduleGraph, r: EdgeIndex)
    requires
        pre.wf(),
        pre.incidence_list@.len() <= usize::MAX,
        r == pre.hyperedges@.len(),
        post.hyperedges@.len() == pre.hyperedges@.len() + 1,
        forall|e: int| 0 <= e < pre.hyperedges@.len() ==> post.hyperedges@[e] == pre.hyperedges@[e],
        forall|j: int|
            0 <= j < post.hyperedges@[r as int].nodes@.len() ==> (
            #[trigger] post.hyperedges@[r as int].nodes@[j]) < pre.nodes@.len(),
        post.nodes@ == pre.nodes@,
        post.technician_indices@ == pre.technician_indices@,
        post.work_order_indices@ == pre.work_order_indices@,
        post.period_indices@ == pre.period_indices@,
        post.skill_indices@ == pre.skill_indices@,
        post.day_indices@ == pre.day_indices@,
        post.incidence_list@.len() == pre.incidence_list@.len(),
        forall|n: int|
            0 <= n < pre.incidence_list@.len() ==> #[trigger] post.incidence_list@[n]@
                == pre.incidence_list@[n]@ + edge_additions(
                post.hyperedges@[r as int].nodes@,
                n as NodeIndex,
                r,
            ),
    ensures
        post.wf(),
{
    let new_nodes = post.hyperedges@[r as int].nodes@;
    assert forall|e: int, j: int|
        0 <= e < post.hyperedges@.len() && 0 <= j < post.hyperedges@[e].nodes@.len() implies (
    #[trigger] post.hyperedges@[e].nodes@[j]) < post.nodes@.len() by {
        if e < r {
            assert(post.hyperedges@[e] == pre.hyperedges@[e]);
            assert(pre.hyperedges@[e].nodes@[j] < pre.nodes@.len());
        }
    }
    assert forall|e: int, j: int|
        0 <= e < post.hyperedges@.len() && 0 <= j < post.hyperedges@[e].nodes@.len() implies
    post.node_incident_to((#[trigger] post.hyperedges@[e].nodes@[j]) as int, e) by {
        let n = post.hyperedges@[e].nodes@[j] as int;
        lemma_edge_additions(new_nodes, n as NodeIndex, r);
        if e < r {
            assert(post.hyperedges@[e] == pre.hyperedges@[e]);
            assert(pre.node_incident_to(n, e));
            let k = choose|k: int|
                0 <= k < pre.incidence_list@[n]@.len() && pre.incidence_list@[n]@[k] == e;
            assert(post.incidence_list@[n]@[k] == e);
        } else {
            assert(new_nodes[j] == n as NodeIndex);
            assert(new_nodes.contains(n as NodeIndex));
            assert(edge_additions(new_nodes, n as NodeIndex, r).len() > 0);
            let k = pre.incidence_list@[n]@.len() as int;
            assert(post.incidence_list@[n]@[k] == edge_additions(new_nodes, n as NodeIndex, r)[0]);
            assert(post.incidence_list@[n]@[k] == r);
        }
    }
    assert forall|n: int, k: int|
        0 <= n < post.incidence_list@.len() && 0 <= k < post.incidence_list@[n]@.len() implies ((
    #[trigger] post.incidence_list@[n]@[k]) < post.hyperedges@.len() && post.edge_mentions(
        post.incidence_list@[n]@[k] as int,
        n,
    )) by {
        lemma_edge_additions(new_nodes, n as NodeIndex, r);
        if k < pre.incidence_list@[n]@.len() {
            let e = pre.incidence_list@[n]@[k] as int;
            assert(post.incidence_list@[n]@[k] == pre.incidence_list@[n]@[k]);
            assert(e < pre.hyperedges@.len());
            assert(pre.edge_mentions(e, n));
            let j = choose|j: int|
                0 <= j < pre.hyperedges@[e].nodes@.len() && pre.hyperedges@[e].nodes@[j]
                    == n as NodeIndex;
            assert(post.hyperedges@[e] == pre.hyperedges@[e]);
            assert(post.hyperedges@[e].nodes@[j] == n as NodeIndex);
        } else {
            let a = edge_additions(new_nodes, n as NodeIndex, r);
            assert(post.incidence_list@[n]@[k] == a[k - pre.incidence_list@[n]@.len()]);
            assert(post.incidence_list@[n]@[k] == r);
            assert(a.len() > 0);
            assert(new_nodes.contains(n as NodeIndex));
            let j = choose|j: int| 0 <= j < new_nodes.len() && new_nodes[j] == n as NodeIndex;
            assert(post.hyperedges@[r as int].nodes@[j] == n as NodeIndex);
        }
    }
    assert(post.entries_wf());
    assert(post.indices_complete());
    assert(post.dates_wf());
}

/// With one index extended by pushing a fresh-keyed entry for the new
/// node, entry validity and key uniqueness still hold for it.
proof fn lemma_index_extended_by_push<K>(s: Seq<(K, NodeIndex)>, nodes: Seq<Node>, node: Node, e: (
    K,
    NodeIndex,
))
    requires
        unique_keys(s),
        forall|p: int|
            0 <= p < s.len() ==> ((#[trigger] s[p]).1 < nodes.len() && s[p].0 != e.0),
        e.1 == nodes.len(),
    ensures
        unique_keys(s.push(e)),
        forall|p: int| 0 <= p < s.push(e).len() ==> (#[trigger] s.push(e)[p]).1 < nodes.len() + 1,
{
    let t = s.push(e);
    assert(forall|p: int| 0 <= p < s.len() ==> t[p] == s[p]);
    assert(t[s.len() as int] == e);
}

/// Completeness of all five indices after a push-style node append (all
/// cases except the sorted day insert).
proof fn lemma_completeness_after_push(pre: ScheduleGraph, post: ScheduleGraph, node: Node, r:
    NodeIndex)
    requires
        pre.wf(),
        r == pre.nodes@.len(),
        post.nodes@ == pre.nodes@.push(node),
        match node {
            Node::Technician(id) => post.technician_indices@ == pre.technician_indices@.push(
                (id, r),
            ) && post.work_order_indices@ == pre.work_order_indices@ && post.period_indices@
                == pre.period_indices@ && post.skill_indices@ == pre.skill_indices@
                && post.day_indices@ == pre.day_indices@,
            Node::WorkOrder(won) => post.work_order_indices@ == pre.work_order_indices@.push(
                (won, r),
            ) && post.technician_indices@ == pre.technician_indices@ && post.period_indices@
                == pre.period_indices@ && post.skill_indices@ == pre.skill_indices@
                && post.day_indices@ == pre.day_indices@,
            Node::Period(pe) => post.period_indices@ == pre.period_indices@.push((pe, r))
                && post.technician_indices@ == pre.technician_indices@ && post.work_order_indices@
                == pre.work_order_indices@ && post.skill_indices@ == pre.skill_indices@
                && post.day_indices@ == pre.day_indices@,
            Node::Skill(s) => post.skill_indices@ == pre.skill_indices@.push((s, r))
                && post.technician_indices@ == pre.technician_indices@ && post.work_order_indices@
                == pre.work_order_indices@ && post.period_indices@ == pre.period_indices@
                && post.day_indices@ == pre.day_indices@,
            Node::Day(_) => false,
            Node::Activity(_) => post.technician_indices@ == pre.technician_indices@
                && post.work_order_indices@ == pre.work_order_indices@ && post.period_indices@
                == pre.period_indices@ && post.skill_indices@ == pre.skill_indices@
                && post.day_indices@ == pre.day_indices@,
        },
    ensures
        post.indices_complete(),
{
    assert forall|i: int| 0 <= i < post.nodes@.len() implies match #[trigger] post.nodes@[i] {
        Node::Technician(id2) => exists|p: int|
            0 <= p < post.technician_indices@.len() && (#[trigger] post.technician_indices@[p]) == (
                id2,
                i as NodeIndex,
            ),
        Node::WorkOrder(w2) => exists|p: int|
            0 <= p < post.work_order_indices@.len() && (#[trigger] post.work_order_indices@[p]) == (
                w2,
                i as NodeIndex,
            ),
        Node::Period(p2) => exists|p: int|
            0 <= p < post.period_indices@.len() && (#[trigger] post.period_indices@[p]) == (
                p2,
                i as NodeIndex,
            ),
        Node::Skill(s2) => exists|p: int|
            0 <= p < post.skill_indices@.len() && (#[trigger] post.skill_indices@[p]) == (
                s2,
                i as NodeIndex,
            ),
        Node::Day(d2) => exists|p: int|
            0 <= p < post.day_indices@.len() && (#[trigger] post.day_indices@[p]) == (
                d2,
                i as NodeIndex,
            ),
        Node::Activity(_) => true,
    } by {
        if i < pre.nodes@.len() {
            assert(post.nodes@[i] == pre.nodes@[i]);
            match pre.nodes@[i] {
                Node::Technician(id2) => {
                    let p = choose|p: int|
                        0 <= p < pre.technician_indices@.len() && (
                        #[trigger] pre.technician_indices@[p]) == (id2, i as NodeIndex);
                    assert(post.technician_indices@[p] == (id2, i as NodeIndex));
                },
                Node::WorkOrder(w2) => {
                    let p = choose|p: int|
                        0 <= p < pre.work_order_indices@.len() && (
                        #[trigger] pre.work_order_indices@[p]) == (w2, i as NodeIndex);
                    assert(post.work_order_indices@[p] == (w2, i as NodeIndex));
                },
                Node::Period(p2) => {
                    let p = choose|p: int|
                        0 <= p < pre.period_indices@.len() && (#[trigger] pre.period_indices@[p])
                            == (p2, i as NodeIndex);
                    assert(post.period_indices@[p] == (p2, i as NodeIndex));
                },
                Node::Skill(s2) => {
                    let p = choose|p: int|
                        0 <= p < pre.skill_indices@.len() && (#[trigger] pre.skill_indices@[p]) == (
                            s2,
                            i as NodeIndex,
                        );
                    assert(post.skill_indices@[p] == (s2, i as NodeIndex));
                },
                Node::Day(d2) => {
                    let p = choose|p: int|
                        0 <= p < pre.day_indices@.len() && (#[trigger] pre.day_indices@[p]) == (
                            d2,
                            i as NodeIndex,
                        );
                    assert(post.day_indices@[p] == (d2, i as NodeIndex));
                },
                Node::Activity(_) => {},
            }
        } else {
            assert(post.nodes@[i] == node);
            match node {
                Node::Technician(id2) => {
                    assert(post.technician_indices@[pre.technician_indices@.len() as int] == (
                        id2,
                        r,
                    ));
                },
                Node::WorkOrder(w2) => {
                    assert(post.work_order_indices@[pre.work_order_indices@.len() as int] == (
                        w2,
                        r,
                    ));
                },
                Node::Period(p2) => {
                    assert(post.period_indices@[pre.period_indices@.len() as int] == (p2, r));
                },
                Node::Skill(s2) => {
                    assert(post.skill_indices@[pre.skill_indices@.len() as int] == (s2, r));
                },
                Node::Day(_) => {
                    assert(false);
                },
                Node::Activity(_) => {},
            }
        }
    }
}

impl ScheduleGraph {
    /// The views of the stores fit in machine lengths, like every `Vec`.
    pub proof fn lemma_len_bounds(self)
        ensures
            self.nodes@.len() <= usize::MAX,
            self.hyperedges@.len() <= usize::MAX,
            self.incidence_list@.len() <= usize::MAX,
            self.technician_indices@.len() <= usize::MAX,
            self.work_order_indices@.len() <= usize::MAX,
            self.period_indices@.len() <= usize::MAX,
            self.skill_indices@.len() <= usize::MAX,
            self.day_indices@.len() <= usize::MAX,
    {
        broadcast use vstd::std_specs::vec::axiom_spec_len;

        assert(vstd::std_specs::vec::spec_vec_len(&self.nodes) == self.nodes@.len());
        assert(vstd::std_specs::vec::spec_vec_len(&self.hyperedges) == self.hyperedges@.len());
        assert(vstd::std_specs::vec::spec_vec_len(&self.incidence_list)
            == self.incidence_list@.len());
        assert(vstd::std_specs::vec::spec_vec_len(&self.technician_indices)
            == self.technician_indices@.len());
        assert(vstd::std_specs::vec::spec_vec_len(&self.work_order_indices)
            == self.work_order_indices@.len());
        assert(vstd::std_specs::vec::spec_vec_len(&self.period_indices)
            == self.period_indices@.len());
        assert(vstd::std_specs::vec::spec_vec_len(&self.skill_indices)
            == self.skill_indices@.len());
        assert(vstd::std_specs::vec::spec_vec_len(&self.day_indices) == self.day_indices@.len());
    }

    /// What a technician lookup means at the node level: found handles
    /// point at the unique technician node with that id, and a miss
    /// means no such node exists.
    pub proof fn lemma_technician_lookup(self, id: TechnicianId)
        requires
            self.wf(),
        ensures
            match assoc_find(self.technician_indices@, id) {
                Some(v) => self.has_node(Node::Technician(id)) && v < self.nodes@.len()
                    && self.nodes@[v as int] == Node::Technician(id) && self.node_id(
                    Node::Technician(id),
                ) == v as int,
                None => !self.has_node(Node::Technician(id)),
            },
    {
        self.lemma_len_bounds();
        let s = self.technician_indices@;
        lemma_assoc_find_from_spec(s, id, 0);
        match assoc_find(s, id) {
            Some(v) => {
                let p = choose|p: int| 0 <= p < s.len() && s[p] == (id, v);
                assert(self.nodes@[v as int] == Node::Technician(id));
                assert(self.has_node(Node::Technician(id)));
                let i = self.node_id(Node::Technician(id));
                assert(self.nodes@[i] == Node::Technician(id));
                self.lemma_unique_handles(i, v as int);
            },
            None => {
                if self.has_node(Node::Technician(id)) {
                    let i = choose|i: int|
                        0 <= i < self.nodes@.len() && self.nodes@[i] == Node::Technician(id);
                    let p = choose|p: int|
                        0 <= p < s.len() && (#[trigger] s[p]) == (id, i as NodeIndex);
                    assert(s[p].0 == id);
                }
            },
        }
    }

    /// What a work-order lookup means at the node level.
    pub proof fn lemma_work_order_lookup(self, won: WorkOrderNumber)
        requires
            self.wf(),
        ensures
            match assoc_find(self.work_order_indices@, won) {
                Some(v) => self.has_node(Node::WorkOrder(won)) && v < self.nodes@.len()
                    && self.nodes@[v as int] == Node::WorkOrder(won) && self.node_id(
                    Node::WorkOrder(won),
                ) == v as int,
                None => !self.has_node(Node::WorkOrder(won)),
            },
    {
        self.lemma_len_bounds();
        let s = self.work_order_indices@;
        lemma_assoc_find_from_spec(s, won, 0);
        match assoc_find(s, won) {
            Some(v) => {
                let p = choose|p: int| 0 <= p < s.len() && s[p] == (won, v);
                assert(self.nodes@[v as int] == Node::WorkOrder(won));
                assert(self.has_node(Node::WorkOrder(won)));
                let i = self.node_id(Node::WorkOrder(won));
                assert(self.nodes@[i] == Node::WorkOrder(won));
                self.lemma_unique_handles(i, v as int);
            },
            None => {
                if self.has_node(Node::WorkOrder(won)) {
                    let i = choose|i: int|
                        0 <= i < self.nodes@.len() && self.nodes@[i] == Node::WorkOrder(won);
                    let p = choose|p: int|
                        0 <= p < s.len() && (#[trigger] s[p]) == (won, i as NodeIndex);
                    assert(s[p].0 == won);
                }
            },
        }
    }

    /// What a period lookup means at the node level.
    pub proof fn lemma_period_lookup(self, pe: Period)
        requires
            self.wf(),
        ensures
            match assoc_find(self.period_indices@, pe) {
                Some(v) => self.has_node(Node::Period(pe)) && v < self.nodes@.len()
                    && self.nodes@[v as int] == Node::Period(pe) && self.node_id(Node::Period(pe))
                    == v as int && pe.0.wf() && pe.0.year < 0xffff,
                None => !self.has_node(Node::Period(pe)),
            },
    {
        self.lemma_len_bounds();
        let s = self.period_indices@;
        lemma_assoc_find_from_spec(s, pe, 0);
        match assoc_find(s, pe) {
            Some(v) => {
                let p = choose|p: int| 0 <= p < s.len() && s[p] == (pe, v);
                assert(self.nodes@[v as int] == Node::Period(pe));
                assert(s[p].0.0.wf() && s[p].0.0.year < 0xffff);
                assert(self.has_node(Node::Period(pe)));
                let i = self.node_id(Node::Period(pe));
                assert(self.nodes@[i] == Node::Period(pe));
                self.lemma_unique_handles(i, v as int);
            },
            None => {
                if self.has_node(Node::Period(pe)) {
                    let i = choose|i: int|
                        0 <= i < self.nodes@.len() && self.nodes@[i] == Node::Period(pe);
                    let p = choose|p: int|
                        0 <= p < s.len() && (#[trigger] s[p]) == (pe, i as NodeIndex);
                    assert(s[p].0 == pe);
                }
            },
        }
    }

    /// What a skill lookup means at the node level.
    pub proof fn lemma_skill_lookup(self, sk: Skill)
        requires
            self.wf(),
        ensures
            match assoc_find(self.skill_indices@, sk) {
                Some(v) => self.has_node(Node::Skill(sk)) && v < self.nodes@.len()
                    && self.nodes@[v as int] == Node::Skill(sk) && self.node_id(Node::Skill(sk))
                    == v as int,
                None => !self.has_node(Node::Skill(sk)),
            },
    {
        self.lemma_len_bounds();
        let s = self.skill_indices@;
        lemma_assoc_find_from_spec(s, sk, 0);
        match assoc_find(s, sk) {
            Some(v) => {
                let p = choose|p: int| 0 <= p < s.len() && s[p] == (sk, v);
                assert(self.nodes@[v as int] == Node::Skill(sk));
                assert(self.has_node(Node::Skill(sk)));
                let i = self.node_id(Node::Skill(sk));
                assert(self.nodes@[i] == Node::Skill(sk));
                self.lemma_unique_handles(i, v as int);
            },
            None => {
                if self.has_node(Node::Skill(sk)) {
                    let i = choose|i: int|
                        0 <= i < self.nodes@.len() && self.nodes@[i] == Node::Skill(sk);
                    let p = choose|p: int|
                        0 <= p < s.len() && (#[trigger] s[p]) == (sk, i as NodeIndex);
                    assert(s[p].0 == sk);
                }
            },
        }
    }

    /// What a day lookup means at the node level.
    pub proof fn lemma_day_lookup(self, d: Date)
        requires
            self.wf(),
        ensures
            match assoc_find(self.day_indices@, d) {
                Some(v) => self.has_node(Node::Day(d)) && v < self.nodes@.len()
                    && self.nodes@[v as int] == Node::Day(d) && self.node_id(Node::Day(d))
                    == v as int && d.wf(),
                None => !self.has_node(Node::Day(d)),
            },
    {
        self.lemma_len_bounds();
        let s = self.day_indices@;
        lemma_assoc_find_from_spec(s, d, 0);
        match assoc_find(s, d) {
            Some(v) => {
                let p = choose|p: int| 0 <= p < s.len() && s[p] == (d, v);
                assert(self.nodes@[v as int] == Node::Day(d));
                assert(s[p].0.wf());
                assert(self.has_node(Node::Day(d)));
                let i = self.node_id(Node::Day(d));
                assert(self.nodes@[i] == Node::Day(d));
                self.lemma_unique_handles(i, v as int);
            },
            None => {
                if self.has_node(Node::Day(d)) {
                    let i = choose|i: int|
                        0 <= i < self.nodes@.len() && self.nodes@[i] == Node::Day(d);
                    let p = choose|p: int|
                        0 <= p < s.len() && (#[trigger] s[p]) == (d, i as NodeIndex);
                    assert(s[p].0 == d);
                }
            },
        }
    }

    /// At most one node exists per key: two handles carrying the same
    /// uniquely-keyed node are the same handle. Activity nodes are the
    /// one type exempt from this.
    pub proof fn lemma_unique_handles(self, i: int, j: int)
        requires
            self.wf(),
            0 <= i < self.nodes@.len(),
            0 <= j < self.nodes@.len(),
            self.nodes@[i] == self.nodes@[j],
            !(self.nodes@[i] matches Node::Activity(_)),
        ensures
            i == j,
    {
        self.lemma_len_bounds();
        match self.nodes@[i] {
            Node::Technician(id) => {
                let p = choose|p: int|
                    0 <= p < self.technician_indices@.len() && (
                    #[trigger] self.technician_indices@[p]) == (id, i as NodeIndex);
                let q = choose|q: int|
                    0 <= q < self.technician_indices@.len() && (
                    #[trigger] self.technician_indices@[q]) == (id, j as NodeIndex);
                if p != q {
                    assert(self.technician_indices@[p].0 != self.technician_indices@[q].0);
                }
            },
            Node::WorkOrder(won) => {
                let p = choose|p: int|
                    0 <= p < self.work_order_indices@.len() && (
                    #[trigger] self.work_order_indices@[p]) == (won, i as NodeIndex);
                let q = choose|q: int|
                    0 <= q < self.work_order_indices@.len() && (
                    #[trigger] self.work_order_indices@[q]) == (won, j as NodeIndex);
                if p != q {
                    assert(self.work_order_indices@[p].0 != self.work_order_indices@[q].0);
                }
            },
            Node::Period(pe) => {
                let p = choose|p: int|
                    0 <= p < self.period_indices@.len() && (#[trigger] self.period_indices@[p]) == (
                        pe,
                        i as NodeIndex,
                    );
                let q = choose|q: int|
                    0 <= q < self.period_indices@.len() && (#[trigger] self.period_indices@[q]) == (
                        pe,
                        j as NodeIndex,
                    );
                if p != q {
                    assert(self.period_indices@[p].0 != self.period_indices@[q].0);
                }
            },
            Node::Skill(sk) => {
                let p = choose|p: int|
                    0 <= p < self.skill_indices@.len() && (#[trigger] self.skill_indices@[p]) == (
                        sk,
                        i as NodeIndex,
                    );
                let q = choose|q: int|
                    0 <= q < self.skill_indices@.len() && (#[trigger] self.skill_indices@[q]) == (
                        sk,
                        j as NodeIndex,
                    );
                if p != q {
                    assert(self.skill_indices@[p].0 != self.skill_indices@[q].0);
                }
            },
            Node::Day(d) => {
                let p = choose|p: int|
                    0 <= p < self.day_indices@.len() && (#[trigger] self.day_indices@[p]) == (
                        d,
                        i as NodeIndex,
                    );
                let q = choose|q: int|
                    0 <= q < self.day_indices@.len() && (#[trigger] self.day_indices@[q]) == (
                        d,
                        j as NodeIndex,
                    );
                if p != q {
                    assert(self.day_indices@[p].0 != self.day_indices@[q].0);
                }
            },
            Node::Activity(_) => {},
        }
    }
}

impl Default for ScheduleGraph {
    fn default() -> (g: ScheduleGraph)
        ensures
            g.nodes@.len() == 0,
            g.hyperedges@.len() == 0,
            g.wf(),
    {
        ScheduleGraph::new()
    }
}

} // verus!

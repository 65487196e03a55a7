//! The structural laws of the graph, stated as public proof functions
//! over the same spec functions the operations' contracts use.

use vstd::prelude::*;
use crate::period::Period;
use crate::schedule_graph::{Node, NodeIndex, ScheduleGraph, ScheduleGraphErrors};
use crate::technician::Skill;

verus! {

/// For every well-formed graph state, the incidence index has exactly
/// one entry per arena node: `len(incidence_index) == len(node_arena)`.
pub proof fn lemma_incidence_index_length(g: ScheduleGraph)
    requires
        g.wf(),
    ensures
        g.incidence_list@.len() == g.nodes@.len(),
{
}

/// Every edge is created through the one incidence-preserving path, so
/// every node handle in an edge's list has that edge's handle present
/// in its incidence sequence.
pub proof fn lemma_edge_listed_at_endpoints(g: ScheduleGraph, e: int, j: int)
    requires
        g.wf(),
        0 <= e < g.hyperedges@.len(),
        0 <= j < g.hyperedges@[e].nodes@.len(),
    ensures
        g.node_incident_to(g.hyperedges@[e].nodes@[j] as int, e),
{
}

/// At most one node exists per technician id, work-order number,
/// period, skill and day: two handles carrying the same uniquely-keyed
/// node coincide. Activity nodes are the one deliberately unindexed
/// type. That a second `add_*` with an existing key returns the
/// matching duplicate fault and leaves the graph unchanged is part of
/// each construction operation's own contract.
pub proof fn lemma_at_most_one_node_per_key(g: ScheduleGraph, i: int, j: int)
    requires
        g.wf(),
        0 <= i < g.nodes@.len(),
        0 <= j < g.nodes@.len(),
        g.nodes@[i] == g.nodes@[j],
        !(g.nodes@[i] matches Node::Activity(_)),
    ensures
        i == j,
{
    g.lemma_unique_handles(i, j);
}

/// `add_skill` is idempotent: called twice with the same skill it
/// returns the same handle both times, leaves the state of the first
/// call untouched, and over both calls the node count grows by at most
/// one.
pub proof fn lemma_add_skill_idempotent(
    g0: ScheduleGraph,
    g1: ScheduleGraph,
    g2: ScheduleGraph,
    skill: Skill,
    r1: NodeIndex,
    r2: NodeIndex,
)
    requires
        g0.wf(),
        g1.wf(),
        ScheduleGraph::add_skill_post(g0, g1, skill, r1),
        ScheduleGraph::add_skill_post(g1, g2, skill, r2),
    ensures
        r2 == r1,
        g2 == g1,
        g1.nodes@.len() <= g0.nodes@.len() + 1,
{
    if g0.has_node(Node::Skill(skill)) {
        assert(g1 == g0);
    } else {
        assert(g1.nodes@[r1 as int] == Node::Skill(skill));
        assert(g1.has_node(Node::Skill(skill)));
        g1.lemma_unique_handles(g1.node_id(Node::Skill(skill)), r1 as int);
        assert(g1.node_id(Node::Skill(skill)) == r1 as int);
    }
}

/// The period round trip: whichever way `add_period(p)` returns — a new
/// node on success, or `PeriodDuplicate` because the period was already
/// there — the graph afterwards holds `p`'s node. By the contract of
/// `find_all_assignments_for_period`, a query for `p` on that graph can
/// therefore never fault with `PeriodMissing`.
pub proof fn lemma_period_round_trip(
    pre: ScheduleGraph,
    post: ScheduleGraph,
    period: Period,
    r: Result<NodeIndex, ScheduleGraphErrors>,
)
    requires
        pre.wf(),
        r is Err ==> r == Err::<NodeIndex, ScheduleGraphErrors>(
            ScheduleGraphErrors::PeriodDuplicate,
        ) && pre.has_node(Node::Period(period)) && post == pre,
        r is Ok ==> post.nodes@ == pre.nodes@ + ScheduleGraph::period_day_nodes(period).push(
            Node::Period(period),
        ),
    ensures
        post.has_node(Node::Period(period)),
{
    match r {
        Ok(_) => {
            let i = post.nodes@.len() - 1;
            assert(post.nodes@[i] == Node::Period(period));
        },
        Err(_) => {
            let i = choose|i: int|
                0 <= i < pre.nodes@.len() && pre.nodes@[i] == Node::Period(period);
            assert(post.nodes@[i] == Node::Period(period));
        },
    }
}

} // verus!

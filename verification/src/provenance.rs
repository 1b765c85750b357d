//! Where a value comes from: the nodes that a backward walk over the dataflow
//! graph reaches, and what they say together.

use vstd::prelude::*;

use crate::control_flow::CfgQueryEngine;
use crate::graph::{DataflowEdgeKind, DataflowNode, LocalDataflowGraph, NodeOperation};
use crate::ids::{DataflowNodeId, GlobalNodeId};
use crate::value::could_be_truthy;

verus! {

/// What the origins of a value say of it.
#[derive(Clone, Copy, Debug, PartialEq, Eq, Structural)]
pub enum PaProvenanceVerdict {
    /// The value vouches for a successful authentication.
    Accept,
    /// The value cannot be the one that passed the condition.
    SkipIncompatible,
    /// The value may pass the condition without any authentication.
    Reject,
}

/// The node calls something that may be an authentication function.
pub open spec fn is_auth_call(node: DataflowNode, auth: Set<GlobalNodeId>) -> bool {
    node.operation matches NodeOperation::Call { callees, .. } && exists|c: int|
        0 <= c < callees@.len() && auth.contains(#[trigger] callees@[c])
}

/// The edges that carry the value itself: direct flow, and the write of a value
/// to a property. Reading a property is not one of them: such an edge comes from
/// the object that is read, not from what was last written there.
pub open spec fn carries_value(kind: DataflowEdgeKind) -> bool {
    kind is DirectFlow || kind is Store
}

/// Edge number `e` carries a value from `source` to `target`.
pub open spec fn carries(
    dfg: LocalDataflowGraph,
    e: int,
    source: DataflowNodeId,
    target: DataflowNodeId,
) -> bool {
    0 <= e < dfg.edges@.len() && dfg.edges@[e].source == source && dfg.edges@[e].target == target
        && carries_value(dfg.edges@[e].kind)
}

/// A value flows from `source` to `target`.
pub open spec fn feeds(
    dfg: LocalDataflowGraph,
    source: DataflowNodeId,
    target: DataflowNodeId,
) -> bool {
    exists|e: int| carries(dfg, e, source, target)
}

/// A value flows to `id` from somewhere.
pub open spec fn has_source(dfg: LocalDataflowGraph, id: DataflowNodeId) -> bool {
    exists|source: DataflowNodeId| feeds(dfg, source, id)
}

/// The node is examined through its sources: it is no call, its value can pass a
/// condition, and its value comes from somewhere.
pub open spec fn passes_on(dfg: LocalDataflowGraph, id: DataflowNodeId) -> bool {
    &&& dfg.spec_node(id) matches Some(node) ==> !(node.operation is Call) && could_be_truthy(
        node.abstract_value,
    )
    &&& has_source(dfg, id)
}

/// What a node says by itself. `None` means that its sources speak for it;
/// `sourced` tells whether it has any.
///
/// A call speaks for the function that is called. A value that cannot pass a
/// condition says nothing. A value that comes from nowhere else is good where
/// its block is: `trusted` tells which blocks only run after authentication.
pub open spec fn verdict_of(
    cfg: CfgQueryEngine,
    dfg: LocalDataflowGraph,
    auth: Set<GlobalNodeId>,
    trusted: spec_fn(usize) -> bool,
    id: DataflowNodeId,
    sourced: bool,
) -> Option<PaProvenanceVerdict> {
    let node = dfg.spec_node(id);
    if node matches Some(n) && n.operation is Call {
        if is_auth_call(node->0, auth) {
            Some(PaProvenanceVerdict::Accept)
        } else {
            Some(PaProvenanceVerdict::Reject)
        }
    } else if node matches Some(n) && !could_be_truthy(n.abstract_value) {
        Some(PaProvenanceVerdict::SkipIncompatible)
    } else if sourced {
        None
    } else {
        match cfg.spec_block(id.location) {
            Some(block) if trusted(block) => Some(PaProvenanceVerdict::Accept),
            _ => Some(PaProvenanceVerdict::Reject),
        }
    }
}

/// What a node says by itself, when its sources are those that a value flows
/// from.
pub open spec fn own_verdict(
    cfg: CfgQueryEngine,
    dfg: LocalDataflowGraph,
    auth: Set<GlobalNodeId>,
    trusted: spec_fn(usize) -> bool,
    id: DataflowNodeId,
) -> Option<PaProvenanceVerdict> {
    verdict_of(cfg, dfg, auth, trusted, id, has_source(dfg, id))
}

/// The walk goes from one node to another.
pub open spec fn steps(dfg: LocalDataflowGraph, from: DataflowNodeId, to: DataflowNodeId) -> bool {
    passes_on(dfg, from) && feeds(dfg, to, from)
}

/// A course of the walk that keeps clear of the nodes in `avoid`.
pub open spec fn is_trail(
    dfg: LocalDataflowGraph,
    avoid: Set<DataflowNodeId>,
    trail: Seq<DataflowNodeId>,
) -> bool {
    &&& trail.len() > 0
    &&& forall|i: int| 0 <= i < trail.len() ==> !avoid.contains(#[trigger] trail[i])
    &&& forall|i: int, j: int|
        #![trigger trail[i], trail[j]]
        0 <= i < trail.len() - 1 && j == i + 1 ==> steps(dfg, trail[i], trail[j])
}

/// The walk leads from `start` to `id`.
pub open spec fn leads_to(
    dfg: LocalDataflowGraph,
    avoid: Set<DataflowNodeId>,
    start: DataflowNodeId,
    id: DataflowNodeId,
) -> bool {
    exists|trail: Seq<DataflowNodeId>| #[trigger]
        is_trail(dfg, avoid, trail) && trail[0] == start && trail.last() == id
}

/// All nodes that the walk from `start` comes to without entering `avoid`.
pub open spec fn reached(
    dfg: LocalDataflowGraph,
    avoid: Set<DataflowNodeId>,
    start: DataflowNodeId,
) -> Set<DataflowNodeId> {
    Set::new(|id: DataflowNodeId| leads_to(dfg, avoid, start, id))
}

/// One of the nodes gives the verdict.
pub open spec fn some_says(
    cfg: CfgQueryEngine,
    dfg: LocalDataflowGraph,
    auth: Set<GlobalNodeId>,
    trusted: spec_fn(usize) -> bool,
    ids: Set<DataflowNodeId>,
    verdict: PaProvenanceVerdict,
) -> bool {
    exists|id: DataflowNodeId| #[trigger]
        ids.contains(id) && own_verdict(cfg, dfg, auth, trusted, id) == Some(verdict)
}

/// What several nodes say together: one objection outweighs any number of
/// acceptances.
pub open spec fn combined(
    cfg: CfgQueryEngine,
    dfg: LocalDataflowGraph,
    auth: Set<GlobalNodeId>,
    trusted: spec_fn(usize) -> bool,
    ids: Set<DataflowNodeId>,
) -> PaProvenanceVerdict {
    if some_says(cfg, dfg, auth, trusted, ids, PaProvenanceVerdict::Reject) {
        PaProvenanceVerdict::Reject
    } else if some_says(cfg, dfg, auth, trusted, ids, PaProvenanceVerdict::Accept) {
        PaProvenanceVerdict::Accept
    } else {
        PaProvenanceVerdict::SkipIncompatible
    }
}

/// The verdict of a walk from `start` that does not enter `avoid`.
pub open spec fn provenance(
    cfg: CfgQueryEngine,
    dfg: LocalDataflowGraph,
    auth: Set<GlobalNodeId>,
    trusted: spec_fn(usize) -> bool,
    avoid: Set<DataflowNodeId>,
    start: DataflowNodeId,
) -> PaProvenanceVerdict {
    combined(cfg, dfg, auth, trusted, reached(dfg, avoid, start))
}

/// The nodes that a walk may still visit from `start`.
pub open spec fn unvisited(
    dfg: LocalDataflowGraph,
    visited: Set<DataflowNodeId>,
    start: DataflowNodeId,
) -> Set<DataflowNodeId> {
    Seq::new(dfg.edges@.len(), |e: int| dfg.edges@[e].source).to_set().insert(start).difference(
        visited,
    )
}

/// A walk does not enter its own start when that is to be avoided.
pub(crate) proof fn lemma_reached_from_avoided(
    dfg: LocalDataflowGraph,
    avoid: Set<DataflowNodeId>,
    start: DataflowNodeId,
)
    requires
        avoid.contains(start),
    ensures
        reached(dfg, avoid, start) == Set::<DataflowNodeId>::empty(),
{
}

/// The walk comes to its start.
pub(crate) proof fn lemma_reached_start(
    dfg: LocalDataflowGraph,
    avoid: Set<DataflowNodeId>,
    start: DataflowNodeId,
)
    requires
        !avoid.contains(start),
    ensures
        reached(dfg, avoid, start).contains(start),
{
    let trail = seq![start];
    assert(is_trail(dfg, avoid, trail));
    assert(trail[0] == start && trail.last() == start);
}

/// The walk stays where it starts unless the start passes on.
pub(crate) proof fn lemma_reached_alone(
    dfg: LocalDataflowGraph,
    avoid: Set<DataflowNodeId>,
    start: DataflowNodeId,
)
    requires
        !avoid.contains(start),
        !passes_on(dfg, start),
    ensures
        reached(dfg, avoid, start) == Set::<DataflowNodeId>::empty().insert(start),
{
    lemma_reached_start(dfg, avoid, start);
    assert forall|id: DataflowNodeId| reached(dfg, avoid, start).contains(id) implies id
        == start by {
        let trail = choose|trail: Seq<DataflowNodeId>| #[trigger]
            is_trail(dfg, avoid, trail) && trail[0] == start && trail.last() == id;
        if trail.len() > 1 {
            assert(steps(dfg, trail[0], trail[1]));
        }
    }
    assert(reached(dfg, avoid, start) =~= Set::<DataflowNodeId>::empty().insert(start));
}

/// What the walk comes to from a source it also comes to from the node before.
pub(crate) proof fn lemma_reached_through(
    dfg: LocalDataflowGraph,
    avoid: Set<DataflowNodeId>,
    start: DataflowNodeId,
    visited: Set<DataflowNodeId>,
    next: DataflowNodeId,
)
    requires
        !avoid.contains(start),
        avoid.subset_of(visited),
        steps(dfg, start, next),
    ensures
        reached(dfg, visited, next).subset_of(reached(dfg, avoid, start)),
{
    assert forall|id: DataflowNodeId| reached(dfg, visited, next).contains(id) implies reached(
        dfg,
        avoid,
        start,
    ).contains(id) by {
        let rest = choose|trail: Seq<DataflowNodeId>| #[trigger]
            is_trail(dfg, visited, trail) && trail[0] == next && trail.last() == id;
        let trail = seq![start] + rest;
        assert forall|i: int| 0 <= i < trail.len() implies !avoid.contains(
            #[trigger] trail[i],
        ) by {
            if i > 0 {
                assert(trail[i] == rest[i - 1]);
            }
        }
        assert forall|i: int, j: int|
            #![trigger trail[i], trail[j]]
            0 <= i < trail.len() - 1 && j == i + 1 implies steps(dfg, trail[i], trail[j]) by {
            if i > 0 {
                assert(trail[i] == rest[i - 1] && trail[j] == rest[i]);
            }
        }
        assert(is_trail(dfg, avoid, trail));
        assert(trail.last() == rest.last());
    }
}

/// The walk goes on from each node it comes to, unless it is to avoid what
/// follows.
pub(crate) proof fn lemma_reached_closed(
    dfg: LocalDataflowGraph,
    avoid: Set<DataflowNodeId>,
    start: DataflowNodeId,
    from: DataflowNodeId,
    to: DataflowNodeId,
)
    requires
        reached(dfg, avoid, start).contains(from),
        steps(dfg, from, to),
        !avoid.contains(to),
    ensures
        reached(dfg, avoid, start).contains(to),
{
    let front = choose|trail: Seq<DataflowNodeId>| #[trigger]
        is_trail(dfg, avoid, trail) && trail[0] == start && trail.last() == from;
    let trail = front.push(to);
    assert forall|i: int, j: int|
        #![trigger trail[i], trail[j]]
        0 <= i < trail.len() - 1 && j == i + 1 implies steps(dfg, trail[i], trail[j]) by {
        assert(trail[i] == front[i]);
        if j < front.len() {
            assert(trail[j] == front[j]);
        }
    }
    assert(is_trail(dfg, avoid, trail));
    assert(trail.last() == to);
}

/// A set of nodes that holds the start, and with each of its nodes what follows,
/// holds all that the walk comes to.
pub(crate) proof fn lemma_reached_within(
    dfg: LocalDataflowGraph,
    avoid: Set<DataflowNodeId>,
    start: DataflowNodeId,
    within: Set<DataflowNodeId>,
)
    requires
        within.contains(start),
        forall|from: DataflowNodeId, to: DataflowNodeId|
            within.contains(from) && !avoid.contains(from) && #[trigger] steps(dfg, from, to)
                ==> within.contains(to),
    ensures
        reached(dfg, avoid, start).subset_of(within),
{
    assert forall|id: DataflowNodeId| reached(dfg, avoid, start).contains(
        id,
    ) implies within.contains(id) by {
        let trail = choose|trail: Seq<DataflowNodeId>| #[trigger]
            is_trail(dfg, avoid, trail) && trail[0] == start && trail.last() == id;
        lemma_trail_within(dfg, avoid, trail, within, trail.len() - 1);
    }
}

proof fn lemma_trail_within(
    dfg: LocalDataflowGraph,
    avoid: Set<DataflowNodeId>,
    trail: Seq<DataflowNodeId>,
    within: Set<DataflowNodeId>,
    i: int,
)
    requires
        is_trail(dfg, avoid, trail),
        within.contains(trail[0]),
        forall|from: DataflowNodeId, to: DataflowNodeId|
            within.contains(from) && !avoid.contains(from) && #[trigger] steps(dfg, from, to)
                ==> within.contains(to),
        0 <= i < trail.len(),
    ensures
        within.contains(trail[i]),
    decreases i,
{
    if i > 0 {
        lemma_trail_within(dfg, avoid, trail, within, i - 1);
        assert(steps(dfg, trail[i - 1], trail[i]));
    }
}

/// One of two sets' nodes gives the verdict if one node of either set does.
pub(crate) proof fn lemma_some_says_union(
    cfg: CfgQueryEngine,
    dfg: LocalDataflowGraph,
    auth: Set<GlobalNodeId>,
    trusted: spec_fn(usize) -> bool,
    left: Set<DataflowNodeId>,
    right: Set<DataflowNodeId>,
    verdict: PaProvenanceVerdict,
)
    ensures
        some_says(cfg, dfg, auth, trusted, left.union(right), verdict) <==> some_says(
            cfg,
            dfg,
            auth,
            trusted,
            left,
            verdict,
        ) || some_says(cfg, dfg, auth, trusted, right, verdict),
{
    let both = left.union(right);
    assert forall|id: DataflowNodeId| #[trigger] left.contains(id) implies both.contains(id) by {}
    assert forall|id: DataflowNodeId| #[trigger] right.contains(id) implies both.contains(id) by {}
}

/// The nodes that a walk may still visit grow fewer with each step.
pub(crate) proof fn lemma_unvisited_shrinks(
    dfg: LocalDataflowGraph,
    visited: Set<DataflowNodeId>,
    start: DataflowNodeId,
    later: Set<DataflowNodeId>,
    next: DataflowNodeId,
)
    requires
        !visited.contains(start),
        visited.insert(start).subset_of(later),
        feeds(dfg, next, start),
    ensures
        unvisited(dfg, later, next).len() < unvisited(dfg, visited, start).len(),
{
    broadcast use vstd::seq_lib::seq_to_set_is_finite;

    let sources = Seq::new(dfg.edges@.len(), |e: int| dfg.edges@[e].source);
    let before = unvisited(dfg, visited, start);
    let after = unvisited(dfg, later, next);
    let e = choose|e: int| carries(dfg, e, next, start);
    assert(sources[e] == next);
    assert(sources.to_set().contains(next));
    assert(before.contains(start) && !after.contains(start));
    assert(after.subset_of(before.remove(start)));
    vstd::set_lib::lemma_len_subset(after, before.remove(start));
}

} // verus!

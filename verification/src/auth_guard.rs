//! Whether a block only runs after a successful authentication.

use vstd::prelude::*;

use crate::control_flow::{CfgQueryEngine, ProofPlan};
use crate::graph::{DataflowEdgeKind, DataflowNode, LocalDataflowGraph, NodeOperation};
use crate::id_set::{FunctionSet, NodeSet};
use crate::ids::{DataflowNodeId, GlobalNodeId, NodeOperationKind};
use crate::provenance;
use crate::provenance::PaProvenanceVerdict;
use crate::value;
use crate::value::pa_value_could_be_truthy;

verus! {

/// How many guards deep a walk may rest on another guard.
pub const MAX_PROVENANCE_DEPTH: u32 = 8;

/// How many further guards a guard at the given depth may rest on, itself
/// counted.
pub open spec fn rounds_left(depth: u32) -> nat {
    if depth > MAX_PROVENANCE_DEPTH {
        0
    } else {
        (MAX_PROVENANCE_DEPTH + 1 - depth) as nat
    }
}

/// The node stands for a variable or a property that is read.
pub open spec fn is_read(id: DataflowNodeId) -> bool {
    id.kind is Identifier || id.kind is PropertyRead
}

/// The node shows that an authentication succeeded: it calls an authentication
/// function, or it reads a value that such calls account for.
pub open spec fn vouches(
    cfg: CfgQueryEngine,
    dfg: LocalDataflowGraph,
    auth: Set<GlobalNodeId>,
    trusted: spec_fn(usize) -> bool,
    node: DataflowNode,
) -> bool {
    ||| provenance::is_auth_call(node, auth)
    ||| is_read(node.id) && provenance::provenance(
        cfg,
        dfg,
        auth,
        trusted,
        Set::empty(),
        node.id,
    ) == PaProvenanceVerdict::Accept
}

/// That the syntax node comes out as `target` shows that an authentication
/// succeeded. Only a positive outcome can.
pub open spec fn leaf_vouches(
    cfg: CfgQueryEngine,
    dfg: LocalDataflowGraph,
    auth: Set<GlobalNodeId>,
    trusted: spec_fn(usize) -> bool,
    node_id: u32,
    target: bool,
) -> bool {
    target && exists|n: int|
        0 <= n < dfg.nodes@.len() && (#[trigger] dfg.nodes@[n]).id.location.node_id == node_id
            && vouches(cfg, dfg, auth, trusted, dfg.nodes@[n])
}

/// The answers that a proof plan is given.
pub open spec fn leaf_answers(
    cfg: CfgQueryEngine,
    dfg: LocalDataflowGraph,
    auth: Set<GlobalNodeId>,
    trusted: spec_fn(usize) -> bool,
) -> spec_fn(u32, bool) -> bool {
    |node_id: u32, target: bool| leaf_vouches(cfg, dfg, auth, trusted, node_id, target)
}

/// That the condition comes out with the given polarity shows that an
/// authentication succeeded.
pub open spec fn condition_vouches(
    cfg: CfgQueryEngine,
    dfg: LocalDataflowGraph,
    auth: Set<GlobalNodeId>,
    trusted: spec_fn(usize) -> bool,
    condition: u32,
    polarity: bool,
) -> bool {
    match cfg.spec_plan(condition, polarity) {
        Some(plan) => plan.outcome(leaf_answers(cfg, dfg, auth, trusted)),
        None => false,
    }
}

/// Being past the dominator shows that an authentication succeeded: the
/// dominator is another block, it ends in a condition, only one outcome of the
/// condition leads on to the target, and that outcome shows it.
pub open spec fn dominator_vouches(
    cfg: CfgQueryEngine,
    dfg: LocalDataflowGraph,
    auth: Set<GlobalNodeId>,
    trusted: spec_fn(usize) -> bool,
    dominator: usize,
    target: usize,
) -> bool {
    &&& dominator != target
    &&& cfg.spec_condition(dominator) matches Some(condition)
    &&& cfg.spec_polarity(dominator, target) matches Some(polarity)
    &&& condition_vouches(cfg, dfg, auth, trusted, condition, polarity)
}

/// The block only runs after a successful authentication, as shown by one of its
/// dominators. A value that comes from nowhere else counts as good where its own
/// block is guarded, and that argument may be repeated `rounds - 1` times.
pub open spec fn guarded(
    cfg: CfgQueryEngine,
    dfg: LocalDataflowGraph,
    auth: Set<GlobalNodeId>,
    block: usize,
    rounds: nat,
) -> bool
    decreases rounds, 0int,
{
    if rounds == 0 {
        false
    } else {
        exists|d: int|
            0 <= d < cfg.spec_dominators(block).len() && dominator_vouches(
                cfg,
                dfg,
                auth,
                trusted_blocks(cfg, dfg, auth, (rounds - 1) as nat),
                #[trigger] cfg.spec_dominators(block)[d],
                block,
            )
    }
}

/// The blocks that are guarded within the given number of rounds.
pub open spec fn trusted_blocks(
    cfg: CfgQueryEngine,
    dfg: LocalDataflowGraph,
    auth: Set<GlobalNodeId>,
    rounds: nat,
) -> spec_fn(usize) -> bool
    decreases rounds, 1int,
{
    |block: usize| guarded(cfg, dfg, auth, block, rounds)
}

/// The blocks that a walk at the given depth may rest on.
pub open spec fn trusted_at(
    cfg: CfgQueryEngine,
    dfg: LocalDataflowGraph,
    auth: Set<GlobalNodeId>,
    depth: u32,
) -> spec_fn(usize) -> bool {
    trusted_blocks(cfg, dfg, auth, rounds_left((depth + 1) as u32))
}

/// Says whether a node calls something that may be an authentication function.
fn calls_auth(node: &DataflowNode, auth_fn_ids: &FunctionSet) -> (calls: bool)
    ensures
        calls == provenance::is_auth_call(*node, auth_fn_ids@),
{
    if let NodeOperation::Call { callees, .. } = &node.operation {
        let mut c: usize = 0;
        while c < callees.len()
            invariant
                node.operation is Call,
                node.operation->callees == *callees,
                c <= callees@.len(),
                forall|k: int| 0 <= k < c ==> !auth_fn_ids@.contains(#[trigger] callees@[k]),
            decreases callees@.len() - c,
        {
            if auth_fn_ids.contains(callees[c]) {
                assert(auth_fn_ids@.contains(callees@[c as int]));
                return true;
            }
            c += 1;
        }
    }
    false
}

/// Says whether a node stands for a variable or a property that is read.
fn reads(id: &DataflowNodeId) -> (is_one: bool)
    ensures
        is_one == is_read(*id),
{
    match id.kind {
        NodeOperationKind::Identifier => true,
        NodeOperationKind::PropertyRead => true,
        _ => false,
    }
}

/// Says whether every path to the block goes through a condition that shows a
/// successful authentication.
pub fn pa_block_is_auth_guarded(
    cfg: &CfgQueryEngine,
    dfg: &LocalDataflowGraph,
    target_block: usize,
    auth_fn_ids: &FunctionSet,
    depth: u32,
) -> (is_guarded: bool)
    ensures
        is_guarded == guarded(*cfg, *dfg, auth_fn_ids@, target_block, rounds_left(depth)),
    decreases u32::MAX - depth, 5int, 0nat,
{
    if depth > MAX_PROVENANCE_DEPTH {
        return false;
    }
    let dominators = cfg.dominators_of(target_block);
    let ghost trusted = trusted_at(*cfg, *dfg, auth_fn_ids@, depth);
    let mut d: usize = 0;
    while d < dominators.len()
        invariant
            depth <= MAX_PROVENANCE_DEPTH,
            dominators@ == cfg.spec_dominators(target_block),
            trusted == trusted_at(*cfg, *dfg, auth_fn_ids@, depth),
            d <= dominators@.len(),
            forall|k: int|
                0 <= k < d ==> !dominator_vouches(
                    *cfg,
                    *dfg,
                    auth_fn_ids@,
                    trusted,
                    #[trigger] dominators@[k],
                    target_block,
                ),
        decreases dominators@.len() - d,
    {
        let dom_block: usize = dominators[d];
        d += 1;
        if dom_block == target_block {
            continue;
        }
        let cond_nid: u32 = match cfg.condition_of_block(dom_block) {
            Some(condition) => condition,
            None => continue,
        };
        let required_polarity = match cfg.sink_branch_polarity(dom_block, target_block) {
            Some(polarity) => polarity,
            None => continue,
        };
        if pa_condition_contains_auth_call_at_polarity(
            cfg,
            dfg,
            cond_nid,
            required_polarity,
            auth_fn_ids,
            depth,
        ) {
            assert(dominator_vouches(
                *cfg,
                *dfg,
                auth_fn_ids@,
                trusted,
                cfg.spec_dominators(target_block)[d - 1],
                target_block,
            ));
            return true;
        }
    }
    false
}

/// Says whether that the condition comes out with the given polarity shows a
/// successful authentication.
pub fn pa_condition_contains_auth_call_at_polarity(
    cfg: &CfgQueryEngine,
    dfg: &LocalDataflowGraph,
    cond_nid: u32,
    required_polarity: bool,
    auth_fn_ids: &FunctionSet,
    depth: u32,
) -> (contains: bool)
    requires
        depth < u32::MAX,
    ensures
        contains == condition_vouches(
            *cfg,
            *dfg,
            auth_fn_ids@,
            trusted_at(*cfg, *dfg, auth_fn_ids@, depth),
            cond_nid,
            required_polarity,
        ),
    decreases u32::MAX - depth, 4int, 0nat,
{
    let mut plan = match cfg.plan_for(cond_nid, required_polarity) {
        Some(plan) => plan,
        None => return false,
    };
    let ghost answers = leaf_answers(
        *cfg,
        *dfg,
        auth_fn_ids@,
        trusted_at(*cfg, *dfg, auth_fn_ids@, depth),
    );
    loop
        invariant
            depth < u32::MAX,
            answers == leaf_answers(
                *cfg,
                *dfg,
                auth_fn_ids@,
                trusted_at(*cfg, *dfg, auth_fn_ids@, depth),
            ),
            plan.outcome(answers) == condition_vouches(
                *cfg,
                *dfg,
                auth_fn_ids@,
                trusted_at(*cfg, *dfg, auth_fn_ids@, depth),
                cond_nid,
                required_polarity,
            ),
        decreases plan,
    {
        match plan {
            ProofPlan::Decided(proved) => return *proved,
            ProofPlan::Ask { node_id, target, if_yes, if_no } => {
                if pa_leaf_is_auth(cfg, dfg, *node_id, *target, auth_fn_ids, depth) {
                    plan = if_yes;
                } else {
                    plan = if_no;
                }
            },
        }
    }
}

/// Answers one question of a proof plan: says whether that the syntax node comes
/// out as `target` shows a successful authentication.
pub fn pa_leaf_is_auth(
    cfg: &CfgQueryEngine,
    dfg: &LocalDataflowGraph,
    node_id: u32,
    target: bool,
    auth_fn_ids: &FunctionSet,
    depth: u32,
) -> (is_auth: bool)
    requires
        depth < u32::MAX,
    ensures
        is_auth == leaf_vouches(
            *cfg,
            *dfg,
            auth_fn_ids@,
            trusted_at(*cfg, *dfg, auth_fn_ids@, depth),
            node_id,
            target,
        ),
    decreases u32::MAX - depth, 2int, 0nat,
{
    if !target {
        return false;
    }
    let ghost trusted = trusted_at(*cfg, *dfg, auth_fn_ids@, depth);
    let mut n: usize = 0;
    while n < dfg.nodes.len()
        invariant
            depth < u32::MAX,
            trusted == trusted_at(*cfg, *dfg, auth_fn_ids@, depth),
            n <= dfg.nodes@.len(),
            target,
            forall|k: int|
                0 <= k < n && (#[trigger] dfg.nodes@[k]).id.location.node_id == node_id
                    ==> !vouches(*cfg, *dfg, auth_fn_ids@, trusted, dfg.nodes@[k]),
        decreases dfg.nodes@.len() - n,
    {
        let node = &dfg.nodes[n];
        n += 1;
        if node.id.location.node_id != node_id {
            continue;
        }
        if calls_auth(node, auth_fn_ids) {
            assert(vouches(*cfg, *dfg, auth_fn_ids@, trusted, dfg.nodes@[n - 1]));
            return true;
        }
        if reads(&node.id) && pa_identifier_provenance_is_auth(cfg, dfg, &node.id, auth_fn_ids, depth) {
            assert(vouches(*cfg, *dfg, auth_fn_ids@, trusted, dfg.nodes@[n - 1]));
            return true;
        }
    }
    false
}

/// Says whether the origins of a value that is read vouch for a successful
/// authentication.
pub fn pa_identifier_provenance_is_auth(
    cfg: &CfgQueryEngine,
    dfg: &LocalDataflowGraph,
    start: &DataflowNodeId,
    auth_fn_ids: &FunctionSet,
    depth: u32,
) -> (is_auth: bool)
    requires
        depth < u32::MAX,
    ensures
        is_auth == (provenance::provenance(
            *cfg,
            *dfg,
            auth_fn_ids@,
            trusted_at(*cfg, *dfg, auth_fn_ids@, depth),
            Set::empty(),
            *start,
        ) == PaProvenanceVerdict::Accept),
    decreases u32::MAX - depth, 1int, 0nat,
{
    let mut visited = NodeSet::new();
    let verdict = pa_provenance_verdict(cfg, dfg, start, auth_fn_ids, &mut visited, depth);
    verdict == PaProvenanceVerdict::Accept
}

/// Walks back over the edges that carry a value, from a node to its origins,
/// without entering the nodes already visited, and combines what the origins
/// say.
pub fn pa_provenance_verdict(
    cfg: &CfgQueryEngine,
    dfg: &LocalDataflowGraph,
    nid: &DataflowNodeId,
    auth_fn_ids: &FunctionSet,
    visited: &mut NodeSet,
    depth: u32,
) -> (verdict: PaProvenanceVerdict)
    requires
        depth < u32::MAX,
    ensures
        verdict == provenance::provenance(
            *cfg,
            *dfg,
            auth_fn_ids@,
            trusted_at(*cfg, *dfg, auth_fn_ids@, depth),
            old(visited)@,
            *nid,
        ),
        final(visited)@ == old(visited)@.union(
            provenance::reached(*dfg, old(visited)@, *nid),
        ),
    decreases
            u32::MAX - depth,
            0int,
            provenance::unvisited(*dfg, old(visited)@, *nid).len(),
{
    let ghost avoid = visited@;
    let ghost auth = auth_fn_ids@;
    let ghost trusted = trusted_at(*cfg, *dfg, auth_fn_ids@, depth);
    if !visited.insert(*nid) {
        proof {
            provenance::lemma_reached_from_avoided(*dfg, avoid, *nid);
            assert(avoid.insert(*nid) =~= avoid);
            assert(avoid.union(Set::empty()) =~= avoid);
        }
        return PaProvenanceVerdict::SkipIncompatible;
    }
    let ghost alone = Set::<DataflowNodeId>::empty().insert(*nid);
    assert(avoid.union(alone) =~= avoid.insert(*nid));
    proof {
        if !provenance::passes_on(*dfg, *nid) {
            provenance::lemma_reached_alone(*dfg, avoid, *nid);
            assert(alone.contains(*nid));
        }
    }
    let node = dfg.get_node(nid);
    if let Some(n) = node {
        if let NodeOperation::Call { .. } = &n.operation {
            return if calls_auth(n, auth_fn_ids) {
                PaProvenanceVerdict::Accept
            } else {
                PaProvenanceVerdict::Reject
            };
        }
    }
    if let Some(n) = node {
        if !pa_value_could_be_truthy(&n.abstract_value) {
            return PaProvenanceVerdict::SkipIncompatible;
        }
    }
    let mut saw_pred = false;
    let mut saw_accept = false;
    let mut saw_reject = false;
    let reverse_edges = dfg.get_reverse_edges(nid);
    proof {
        provenance::lemma_reached_start(*dfg, avoid, *nid);
        assert(visited@.difference(avoid.insert(*nid)) =~= Set::empty());
    }
    let mut i: usize = 0;
    while i < reverse_edges.len()
        invariant
            depth < u32::MAX,
            i <= reverse_edges@.len(),
            auth == auth_fn_ids@,
            trusted == trusted_at(*cfg, *dfg, auth_fn_ids@, depth),
            avoid == old(visited)@,
            !avoid.contains(*nid),
            dfg.spec_node(*nid) matches Some(n) ==> !(n.operation is Call)
                && value::could_be_truthy(n.abstract_value),
            forall|k: int|
                0 <= k < reverse_edges@.len() ==> #[trigger] reverse_edges@[k] < dfg.edges@.len()
                    && dfg.edges@[reverse_edges@[k] as int].target == *nid,
            avoid.insert(*nid).subset_of(visited@),
            visited@.subset_of(avoid.union(provenance::reached(*dfg, avoid, *nid))),
            saw_pred ==> provenance::passes_on(*dfg, *nid),
            !saw_pred ==> visited@ == avoid.insert(*nid),
            forall|k: int|
                0 <= k < i && provenance::carries_value(
                    dfg.edges@[#[trigger] reverse_edges@[k] as int].kind,
                ) ==> saw_pred && visited@.contains(
                    dfg.edges@[reverse_edges@[k] as int].source,
                ),
            forall|from: DataflowNodeId, to: DataflowNodeId|
                visited@.contains(from) && !avoid.contains(from) && from != *nid
                    && #[trigger] provenance::steps(*dfg, from, to) ==> visited@.contains(
                    to,
                ),
            saw_reject == provenance::some_says(
                *cfg,
                *dfg,
                auth,
                trusted,
                visited@.difference(avoid.insert(*nid)),
                PaProvenanceVerdict::Reject,
            ),
            !saw_reject ==> saw_accept == provenance::some_says(
                *cfg,
                *dfg,
                auth,
                trusted,
                visited@.difference(avoid.insert(*nid)),
                PaProvenanceVerdict::Accept,
            ),
        decreases reverse_edges@.len() - i,
    {
        let ghost before = visited@;
        let edge = dfg.get_edge(reverse_edges[i]);
        let is_traversable = match &edge.kind {
            DataflowEdgeKind::DirectFlow => true,
            DataflowEdgeKind::Store => true,
            _ => false,
        };
        if is_traversable {
            saw_pred = true;
            proof {
                assert(provenance::carries(
                    *dfg,
                    reverse_edges@[i as int] as int,
                    edge.source,
                    *nid,
                ));
                assert(provenance::feeds(*dfg, edge.source, *nid));
                assert(provenance::steps(*dfg, *nid, edge.source));
                provenance::lemma_unvisited_shrinks(
                    *dfg,
                    avoid,
                    *nid,
                    before,
                    edge.source,
                );
                provenance::lemma_reached_through(*dfg, avoid, *nid, before, edge.source);
            }
            let ghost fresh = provenance::reached(*dfg, before, edge.source);
            match pa_provenance_verdict(cfg, dfg, &edge.source, auth_fn_ids, visited, depth) {
                PaProvenanceVerdict::Accept => {
                    saw_accept = true;
                },
                PaProvenanceVerdict::Reject => {
                    saw_reject = true;
                },
                PaProvenanceVerdict::SkipIncompatible => {},
            }
            proof {
                if !before.contains(edge.source) {
                    provenance::lemma_reached_start(*dfg, before, edge.source);
                }
                assert forall|from: DataflowNodeId, to: DataflowNodeId|
                    visited@.contains(from) && !avoid.contains(from) && from != *nid
                        && #[trigger] provenance::steps(*dfg, from, to) implies visited@.contains(
                    to,
                ) by {
                    if !before.contains(from) && !before.contains(to) {
                        provenance::lemma_reached_closed(*dfg, before, edge.source, from, to);
                    }
                }
                let old_news = before.difference(avoid.insert(*nid));
                let news = visited@.difference(avoid.insert(*nid));
                assert(news =~= old_news.union(fresh));
                let reject = PaProvenanceVerdict::Reject;
                provenance::lemma_some_says_union(
                    *cfg,
                    *dfg,
                    auth,
                    trusted,
                    old_news,
                    fresh,
                    reject,
                );
                let accept = PaProvenanceVerdict::Accept;
                provenance::lemma_some_says_union(
                    *cfg,
                    *dfg,
                    auth,
                    trusted,
                    old_news,
                    fresh,
                    accept,
                );
            }
        }
        i += 1;
    }
    proof {
        assert forall|source: DataflowNodeId| #[trigger]
            provenance::feeds(*dfg, source, *nid) implies saw_pred && visited@.contains(source) by {
            let e = choose|e: int| provenance::carries(*dfg, e, source, *nid);
            assert(dfg.edges@[e].target == *nid);
            let k = choose|k: int|
                0 <= k < reverse_edges@.len() && #[trigger] reverse_edges@[k] == e;
            assert(dfg.edges@[reverse_edges@[k] as int].source == source);
        }
        if saw_pred {
            provenance::lemma_reached_within(*dfg, avoid, *nid, visited@);
            let found = provenance::reached(*dfg, avoid, *nid);
            assert(visited@ =~= avoid.union(found));
            let others = visited@.difference(avoid.insert(*nid));
            assert(found =~= others.union(alone));
            let reject = PaProvenanceVerdict::Reject;
            provenance::lemma_some_says_union(*cfg, *dfg, auth, trusted, others, alone, reject);
            let accept = PaProvenanceVerdict::Accept;
            provenance::lemma_some_says_union(*cfg, *dfg, auth, trusted, others, alone, accept);
        }
    }
    if saw_pred {
        if saw_reject {
            return PaProvenanceVerdict::Reject;
        }
        if saw_accept {
            return PaProvenanceVerdict::Accept;
        }
        return PaProvenanceVerdict::SkipIncompatible;
    }
    let block: usize = match cfg.block_containing(&nid.location) {
        Some(block) => block,
        None => return PaProvenanceVerdict::Reject,
    };
    if pa_block_is_auth_guarded(cfg, dfg, block, auth_fn_ids, depth + 1) {
        PaProvenanceVerdict::Accept
    } else {
        PaProvenanceVerdict::Reject
    }
}

} // verus!

//! The query that knows no properties: it follows a value through direct flow
//! alone, and lets a condition rest on variables alone.
//!
//! The definitions here serve to say where the property-aware query and this one
//! agree.

use vstd::prelude::*;

use crate::auth_guard;
use crate::control_flow::{CfgQueryEngine, ProofPlan};
use crate::findings;
use crate::findings::Check;
use crate::graph::{DataflowNode, LocalDataflowGraph};
use crate::ids::{DataflowNodeId, GlobalNodeId};
use crate::provenance;
use crate::provenance::PaProvenanceVerdict;
use crate::value;

verus! {

/// Edge number `e` is one of direct flow from `source` to `target`.
pub open spec fn flows(
    dfg: LocalDataflowGraph,
    e: int,
    source: DataflowNodeId,
    target: DataflowNodeId,
) -> bool {
    0 <= e < dfg.edges@.len() && dfg.edges@[e].source == source && dfg.edges@[e].target == target
        && dfg.edges@[e].kind is DirectFlow
}

/// A value flows directly from `source` to `target`.
pub open spec fn feeds(
    dfg: LocalDataflowGraph,
    source: DataflowNodeId,
    target: DataflowNodeId,
) -> bool {
    exists|e: int| flows(dfg, e, source, target)
}

/// A value flows directly to `id` from somewhere.
pub open spec fn has_source(dfg: LocalDataflowGraph, id: DataflowNodeId) -> bool {
    exists|source: DataflowNodeId| feeds(dfg, source, id)
}

/// What a node says by itself, when its sources are those of direct flow.
pub open spec fn own_verdict(
    cfg: CfgQueryEngine,
    dfg: LocalDataflowGraph,
    auth: Set<GlobalNodeId>,
    trusted: spec_fn(usize) -> bool,
    id: DataflowNodeId,
) -> Option<PaProvenanceVerdict> {
    provenance::verdict_of(cfg, dfg, auth, trusted, id, has_source(dfg, id))
}

/// The walk goes from one node to another.
pub open spec fn steps(dfg: LocalDataflowGraph, from: DataflowNodeId, to: DataflowNodeId) -> bool {
    &&& dfg.spec_node(from) matches Some(node) ==> !(node.operation is Call)
        && value::could_be_truthy(node.abstract_value)
    &&& feeds(dfg, to, from)
}

/// A course of the walk.
pub open spec fn is_trail(dfg: LocalDataflowGraph, trail: Seq<DataflowNodeId>) -> bool {
    &&& trail.len() > 0
    &&& forall|i: int, j: int|
        #![trigger trail[i], trail[j]]
        0 <= i < trail.len() - 1 && j == i + 1 ==> steps(dfg, trail[i], trail[j])
}

/// The walk leads from `start` to `id`.
pub open spec fn leads_to(
    dfg: LocalDataflowGraph,
    start: DataflowNodeId,
    id: DataflowNodeId,
) -> bool {
    exists|trail: Seq<DataflowNodeId>| #[trigger]
        is_trail(dfg, trail) && trail[0] == start && trail.last() == id
}

/// One of the nodes that the walk from `start` comes to gives the verdict.
pub open spec fn some_says(
    cfg: CfgQueryEngine,
    dfg: LocalDataflowGraph,
    auth: Set<GlobalNodeId>,
    trusted: spec_fn(usize) -> bool,
    start: DataflowNodeId,
    verdict: PaProvenanceVerdict,
) -> bool {
    exists|id: DataflowNodeId| #[trigger]
        leads_to(dfg, start, id) && own_verdict(cfg, dfg, auth, trusted, id) == Some(verdict)
}

/// The origins of the value vouch for it: one accepts it, and none objects.
pub open spec fn is_accepted(
    cfg: CfgQueryEngine,
    dfg: LocalDataflowGraph,
    auth: Set<GlobalNodeId>,
    trusted: spec_fn(usize) -> bool,
    start: DataflowNodeId,
) -> bool {
    &&& some_says(cfg, dfg, auth, trusted, start, PaProvenanceVerdict::Accept)
    &&& !some_says(cfg, dfg, auth, trusted, start, PaProvenanceVerdict::Reject)
}

/// The node calls an authentication function, or it reads a variable whose
/// origins vouch for it.
pub open spec fn vouches(
    cfg: CfgQueryEngine,
    dfg: LocalDataflowGraph,
    auth: Set<GlobalNodeId>,
    trusted: spec_fn(usize) -> bool,
    node: DataflowNode,
) -> bool {
    ||| provenance::is_auth_call(node, auth)
    ||| node.id.kind is Identifier && is_accepted(cfg, dfg, auth, trusted, node.id)
}

/// That the syntax node comes out as `target` shows that an authentication
/// succeeded.
pub open spec fn leaf_vouches(
    cfg: CfgQueryEngine,
    dfg: LocalDataflowGraph,
    auth: Set<GlobalNodeId>,
    trusted: spec_fn(usize) -> bool,
    node_id: u32,
    target: bool,
) -> bool {
    target && exists|n: int|
        0 <= n < dfg.nodes@.len() && (#[trigger] dfg.nodes@[n]).id.location.node_id == node_id
            && vouches(cfg, dfg, auth, trusted, dfg.nodes@[n])
}

/// The answers that a proof plan is given.
pub open spec fn leaf_answers(
    cfg: CfgQueryEngine,
    dfg: LocalDataflowGraph,
    auth: Set<GlobalNodeId>,
    trusted: spec_fn(usize) -> bool,
) -> spec_fn(u32, bool) -> bool {
    |node_id: u32, target: bool| leaf_vouches(cfg, dfg, auth, trusted, node_id, target)
}

/// Being past the dominator shows that an authentication succeeded.
pub open spec fn dominator_vouches(
    cfg: CfgQueryEngine,
    dfg: LocalDataflowGraph,
    auth: Set<GlobalNodeId>,
    trusted: spec_fn(usize) -> bool,
    dominator: usize,
    target: usize,
) -> bool {
    &&& dominator != target
    &&& cfg.spec_condition(dominator) matches Some(condition)
    &&& cfg.spec_polarity(dominator, target) matches Some(polarity)
    &&& cfg.spec_plan(condition, polarity) matches Some(plan)
    &&& plan.outcome(leaf_answers(cfg, dfg, auth, trusted))
}

/// The block only runs after a successful authentication.
pub open spec fn guarded(
    cfg: CfgQueryEngine,
    dfg: LocalDataflowGraph,
    auth: Set<GlobalNodeId>,
    block: usize,
    rounds: nat,
) -> bool
    decreases rounds, 0int,
{
    if rounds == 0 {
        false
    } else {
        exists|d: int|
            0 <= d < cfg.spec_dominators(block).len() && dominator_vouches(
                cfg,
                dfg,
                auth,
                trusted_blocks(cfg, dfg, auth, (rounds - 1) as nat),
                #[trigger] cfg.spec_dominators(block)[d],
                block,
            )
    }
}

/// The blocks that are guarded within the given number of rounds.
pub open spec fn trusted_blocks(
    cfg: CfgQueryEngine,
    dfg: LocalDataflowGraph,
    auth: Set<GlobalNodeId>,
    rounds: nat,
) -> spec_fn(usize) -> bool
    decreases rounds, 1int,
{
    |block: usize| guarded(cfg, dfg, auth, block, rounds)
}

/// Some way through the plan asks the question.
pub open spec fn asks(plan: ProofPlan, node_id: u32, target: bool) -> bool
    decreases plan,
{
    match plan {
        ProofPlan::Decided(_) => false,
        ProofPlan::Ask { node_id: n, target: t, if_yes, if_no } => {
            ||| n == node_id && t == target
            ||| asks(*if_yes, node_id, target)
            ||| asks(*if_no, node_id, target)
        },
    }
}

/// Some plan asks whether the syntax node comes out positive.
pub open spec fn is_asked(cfg: CfgQueryEngine, node_id: u32) -> bool {
    exists|condition: u32, polarity: bool|
        (#[trigger] cfg.spec_plan(condition, polarity)) matches Some(plan) && asks(
            plan,
            node_id,
            true,
        )
}

/// Nothing is written to a property.
pub open spec fn writes_no_property(dfg: LocalDataflowGraph) -> bool {
    forall|e: int| 0 <= e < dfg.edges@.len() ==> !((#[trigger] dfg.edges@[e]).kind is Store)
}

/// No condition asks about a property that is read.
pub open spec fn asks_no_property(cfg: CfgQueryEngine, dfg: LocalDataflowGraph) -> bool {
    forall|n: int|
        0 <= n < dfg.nodes@.len() && (#[trigger] dfg.nodes@[n]).id.kind is PropertyRead
            ==> !is_asked(cfg, dfg.nodes@[n].id.location.node_id)
}

/// Where nothing is written to a property, the two walks come to the same
/// verdict on a value.
pub proof fn law_walks_agree_without_writes(
    cfg: CfgQueryEngine,
    dfg: LocalDataflowGraph,
    auth: Set<GlobalNodeId>,
    trusted: spec_fn(usize) -> bool,
    start: DataflowNodeId,
)
    requires
        writes_no_property(dfg),
    ensures
        is_accepted(cfg, dfg, auth, trusted, start) <==> provenance::provenance(
            cfg,
            dfg,
            auth,
            trusted,
            Set::empty(),
            start,
        ) == PaProvenanceVerdict::Accept,
{
    let none = Set::<DataflowNodeId>::empty();
    let found = provenance::reached(dfg, none, start);
    assert forall|source: DataflowNodeId, target: DataflowNodeId| #[trigger]
        feeds(dfg, source, target) == provenance::feeds(dfg, source, target) by {
        if feeds(dfg, source, target) {
            let e = choose|e: int| flows(dfg, e, source, target);
            assert(provenance::carries(dfg, e, source, target));
        }
        if provenance::feeds(dfg, source, target) {
            let e = choose|e: int| provenance::carries(dfg, e, source, target);
            assert(flows(dfg, e, source, target));
        }
    }
    assert forall|id: DataflowNodeId| #[trigger]
        has_source(dfg, id) == provenance::has_source(dfg, id) by {
        if has_source(dfg, id) {
            let source = choose|source: DataflowNodeId| feeds(dfg, source, id);
            assert(provenance::feeds(dfg, source, id));
        }
        if provenance::has_source(dfg, id) {
            let source = choose|source: DataflowNodeId| provenance::feeds(dfg, source, id);
            assert(feeds(dfg, source, id));
        }
    }
    assert forall|from: DataflowNodeId, to: DataflowNodeId| #[trigger]
        steps(dfg, from, to) == provenance::steps(dfg, from, to) by {
        assert(feeds(dfg, to, from) == provenance::feeds(dfg, to, from));
        if feeds(dfg, to, from) {
            assert(provenance::has_source(dfg, from));
        }
    }
    assert forall|trail: Seq<DataflowNodeId>| #[trigger]
        is_trail(dfg, trail) == provenance::is_trail(dfg, none, trail) by {
        if provenance::is_trail(dfg, none, trail) {
            assert forall|i: int, j: int|
                #![trigger trail[i], trail[j]]
                0 <= i < trail.len() - 1 && j == i + 1 implies steps(dfg, trail[i], trail[j]) by {
                assert(provenance::steps(dfg, trail[i], trail[j]));
            }
        }
        if is_trail(dfg, trail) {
            assert forall|i: int, j: int|
                #![trigger trail[i], trail[j]]
                0 <= i < trail.len() - 1 && j == i + 1 implies provenance::steps(
                dfg,
                trail[i],
                trail[j],
            ) by {
                assert(steps(dfg, trail[i], trail[j]));
            }
        }
    }
    assert forall|id: DataflowNodeId| #[trigger]
        leads_to(dfg, start, id) == found.contains(id) by {
        if leads_to(dfg, start, id) {
            let trail = choose|trail: Seq<DataflowNodeId>| #[trigger]
                is_trail(dfg, trail) && trail[0] == start && trail.last() == id;
            assert(provenance::is_trail(dfg, none, trail));
        }
        if found.contains(id) {
            let trail = choose|trail: Seq<DataflowNodeId>| #[trigger]
                provenance::is_trail(dfg, none, trail) && trail[0] == start && trail.last() == id;
            assert(is_trail(dfg, trail));
        }
    }
    assert forall|verdict: PaProvenanceVerdict| #[trigger]
        some_says(cfg, dfg, auth, trusted, start, verdict) == provenance::some_says(
            cfg,
            dfg,
            auth,
            trusted,
            found,
            verdict,
        ) by {
        if some_says(cfg, dfg, auth, trusted, start, verdict) {
            let id = choose|id: DataflowNodeId| #[trigger]
                leads_to(dfg, start, id) && own_verdict(cfg, dfg, auth, trusted, id) == Some(
                    verdict,
                );
            assert(has_source(dfg, id) == provenance::has_source(dfg, id));
            assert(found.contains(id));
        }
        if provenance::some_says(cfg, dfg, auth, trusted, found, verdict) {
            let id = choose|id: DataflowNodeId| #[trigger]
                found.contains(id) && provenance::own_verdict(cfg, dfg, auth, trusted, id) == Some(
                    verdict,
                );
            assert(has_source(dfg, id) == provenance::has_source(dfg, id));
            assert(leads_to(dfg, start, id));
        }
    }
}

/// Where nothing is written to a property and no condition asks about a property
/// that is read, the property-aware query guards the same blocks as the query
/// that knows no properties.
pub proof fn law_queries_agree_without_properties(
    cfg: CfgQueryEngine,
    dfg: LocalDataflowGraph,
    auth: Set<GlobalNodeId>,
    block: usize,
    rounds: nat,
)
    requires
        writes_no_property(dfg),
        asks_no_property(cfg, dfg),
    ensures
        auth_guard::guarded(cfg, dfg, auth, block, rounds) == guarded(
            cfg,
            dfg,
            auth,
            block,
            rounds,
        ),
    decreases rounds,
{
    if rounds > 0 {
        let deeper = (rounds - 1) as nat;
        let aware = auth_guard::trusted_blocks(cfg, dfg, auth, deeper);
        let direct = trusted_blocks(cfg, dfg, auth, deeper);
        assert forall|other: usize| #[trigger] aware(other) == direct(other) by {
            law_queries_agree_without_properties(cfg, dfg, auth, other, deeper);
        }
        assert(aware =~= direct);
        assert forall|dominator: usize| #[trigger]
            auth_guard::dominator_vouches(cfg, dfg, auth, aware, dominator, block)
                == dominator_vouches(cfg, dfg, auth, direct, dominator, block) by {
            if let Some(condition) = cfg.spec_condition(dominator) {
                if let Some(polarity) = cfg.spec_polarity(dominator, block) {
                    lemma_plans_agree(cfg, dfg, auth, aware, condition, polarity);
                }
            }
        }
        let dominators = cfg.spec_dominators(block);
        if auth_guard::guarded(cfg, dfg, auth, block, rounds) {
            let d = choose|d: int|
                0 <= d < dominators.len() && auth_guard::dominator_vouches(
                    cfg,
                    dfg,
                    auth,
                    aware,
                    #[trigger] dominators[d],
                    block,
                );
            assert(dominator_vouches(cfg, dfg, auth, direct, dominators[d], block));
        }
        if guarded(cfg, dfg, auth, block, rounds) {
            let d = choose|d: int|
                0 <= d < dominators.len() && dominator_vouches(
                    cfg,
                    dfg,
                    auth,
                    direct,
                    #[trigger] dominators[d],
                    block,
                );
            assert(auth_guard::dominator_vouches(cfg, dfg, auth, aware, dominators[d], block));
        }
    }
}

/// In the same case, a node is exposed to the property-aware query exactly where
/// the query that knows no properties finds its block unguarded.
pub proof fn law_exposure_agrees_without_properties(
    cfg: CfgQueryEngine,
    dfg: LocalDataflowGraph,
    auth: Set<GlobalNodeId>,
    node: DataflowNode,
)
    requires
        writes_no_property(dfg),
        asks_no_property(cfg, dfg),
    ensures
        findings::is_exposed(Check::Authentication(auth), cfg, dfg, node) <==> (cfg.spec_block(
            node.id.location,
        ) matches Some(block) && !guarded(
            cfg,
            dfg,
            auth,
            block,
            auth_guard::rounds_left(0),
        )),
{
    if let Some(block) = cfg.spec_block(node.id.location) {
        law_queries_agree_without_properties(cfg, dfg, auth, block, auth_guard::rounds_left(0));
    }
}

/// The questions of a condition's plan are answered alike.
proof fn lemma_plans_agree(
    cfg: CfgQueryEngine,
    dfg: LocalDataflowGraph,
    auth: Set<GlobalNodeId>,
    trusted: spec_fn(usize) -> bool,
    condition: u32,
    polarity: bool,
)
    requires
        writes_no_property(dfg),
        asks_no_property(cfg, dfg),
    ensures
        cfg.spec_plan(condition, polarity) matches Some(plan) ==> plan.outcome(
            auth_guard::leaf_answers(cfg, dfg, auth, trusted),
        ) == plan.outcome(leaf_answers(cfg, dfg, auth, trusted)),
{
    if let Some(plan) = cfg.spec_plan(condition, polarity) {
        let aware = auth_guard::leaf_answers(cfg, dfg, auth, trusted);
        let direct = leaf_answers(cfg, dfg, auth, trusted);
        assert forall|node_id: u32, target: bool| #[trigger]
            asks(plan, node_id, target) implies aware(node_id, target) == direct(
            node_id,
            target,
        ) by {
            if target {
                assert(is_asked(cfg, node_id));
                assert forall|n: int|
                    0 <= n < dfg.nodes@.len() && (#[trigger] dfg.nodes@[n]).id.location.node_id
                        == node_id implies auth_guard::vouches(
                    cfg,
                    dfg,
                    auth,
                    trusted,
                    dfg.nodes@[n],
                ) == vouches(cfg, dfg, auth, trusted, dfg.nodes@[n]) by {
                    law_walks_agree_without_writes(cfg, dfg, auth, trusted, dfg.nodes@[n].id);
                }
            }
        }
        lemma_same_answers_same_outcome(plan, aware, direct);
    }
}

proof fn lemma_same_answers_same_outcome(
    plan: ProofPlan,
    a: spec_fn(u32, bool) -> bool,
    b: spec_fn(u32, bool) -> bool,
)
    requires
        forall|node_id: u32, target: bool| #[trigger]
            asks(plan, node_id, target) ==> a(node_id, target) == b(node_id, target),
    ensures
        plan.outcome(a) == plan.outcome(b),
    decreases plan,
{
    if let ProofPlan::Ask { node_id, target, if_yes, if_no } = plan {
        assert(asks(plan, node_id, target));
        assert forall|n: u32, t: bool| #[trigger] asks(*if_yes, n, t) implies a(n, t) == b(
            n,
            t,
        ) by {
            assert(asks(plan, n, t));
        }
        assert forall|n: u32, t: bool| #[trigger] asks(*if_no, n, t) implies a(n, t) == b(
            n,
            t,
        ) by {
            assert(asks(plan, n, t));
        }
        lemma_same_answers_same_outcome(*if_yes, a, b);
        lemma_same_answers_same_outcome(*if_no, a, b);
    }
}

} // verus!

//! What holds of the queries as a whole.

use vstd::prelude::*;

use crate::auth_guard;
use crate::control_flow::{CfgQueryEngine, ProofPlan};
use crate::findings;
use crate::findings::{AuthBypassFinding, Check, FunctionMetadata, MemoEntry};
use crate::graph;
use crate::graph::{DataflowEdge, DataflowNode, LocalDataflowGraph};
use crate::ids::{DataflowNodeId, GlobalNodeId, MemoKey};
use crate::ownership;
use crate::provenance;
use crate::provenance::PaProvenanceVerdict;

verus! {

/// One origin that may pass the condition without authentication is enough to
/// reject a value, whatever its other origins are.
pub proof fn law_one_objection_decides(
    cfg: CfgQueryEngine,
    dfg: LocalDataflowGraph,
    auth: Set<GlobalNodeId>,
    trusted: spec_fn(usize) -> bool,
    start: DataflowNodeId,
    origin: DataflowNodeId,
)
    requires
        provenance::leads_to(dfg, Set::empty(), start, origin),
        provenance::own_verdict(cfg, dfg, auth, trusted, origin) == Some(
            PaProvenanceVerdict::Reject,
        ),
    ensures
        provenance::provenance(cfg, dfg, auth, trusted, Set::empty(), start)
            == PaProvenanceVerdict::Reject,
{
    assert(provenance::reached(dfg, Set::empty(), start).contains(origin));
}

/// A walk that starts at a node already visited says nothing and visits nothing.
pub proof fn law_second_walk_says_nothing(
    cfg: CfgQueryEngine,
    dfg: LocalDataflowGraph,
    auth: Set<GlobalNodeId>,
    trusted: spec_fn(usize) -> bool,
    visited: Set<DataflowNodeId>,
    start: DataflowNodeId,
)
    requires
        visited.contains(start),
    ensures
        provenance::provenance(cfg, dfg, auth, trusted, visited, start)
            == PaProvenanceVerdict::SkipIncompatible,
        visited.union(provenance::reached(dfg, visited, start)) == visited,
{
    provenance::lemma_reached_from_avoided(dfg, visited, start);
    assert(visited.union(Set::empty()) =~= visited);
}

/// The same nodes, and values flow between the same nodes.
pub open spec fn same_flow(a: LocalDataflowGraph, b: LocalDataflowGraph) -> bool {
    &&& a.nodes@ == b.nodes@
    &&& forall|source: DataflowNodeId, target: DataflowNodeId|
        provenance::feeds(a, source, target) <==> provenance::feeds(b, source, target)
}

/// Only direct flow and writes to properties bear on whether a block is guarded
/// by authentication: the edges for reading a property and for deriving a value
/// do not, and neither does the order of the edges.
pub proof fn law_only_flow_matters(
    cfg: CfgQueryEngine,
    a: LocalDataflowGraph,
    b: LocalDataflowGraph,
    auth: Set<GlobalNodeId>,
    block: usize,
    rounds: nat,
)
    requires
        same_flow(a, b),
    ensures
        auth_guard::guarded(cfg, a, auth, block, rounds) == auth_guard::guarded(
            cfg,
            b,
            auth,
            block,
            rounds,
        ),
    decreases rounds,
{
    if rounds > 0 {
        let deeper = (rounds - 1) as nat;
        let trusted_a = auth_guard::trusted_blocks(cfg, a, auth, deeper);
        let trusted_b = auth_guard::trusted_blocks(cfg, b, auth, deeper);
        assert forall|other: usize| #[trigger] trusted_a(other) == trusted_b(other) by {
            law_only_flow_matters(cfg, a, b, auth, other, deeper);
        }
        assert forall|node: DataflowNode|
            auth_guard::vouches(cfg, a, auth, trusted_a, node) == auth_guard::vouches(
                cfg,
                b,
                auth,
                trusted_b,
                node,
            ) by {
            lemma_same_flow_same_verdict(cfg, a, b, auth, trusted_a, trusted_b, node.id);
        }
        assert(auth_guard::leaf_answers(cfg, a, auth, trusted_a) =~= auth_guard::leaf_answers(
            cfg,
            b,
            auth,
            trusted_b,
        ));
        assert forall|dominator: usize|
            auth_guard::dominator_vouches(cfg, a, auth, trusted_a, dominator, block)
                == auth_guard::dominator_vouches(cfg, b, auth, trusted_b, dominator, block) by {}
        let dominators = cfg.spec_dominators(block);
        if auth_guard::guarded(cfg, a, auth, block, rounds) {
            let d = choose|d: int|
                0 <= d < dominators.len() && auth_guard::dominator_vouches(
                    cfg,
                    a,
                    auth,
                    trusted_a,
                    #[trigger] dominators[d],
                    block,
                );
            assert(auth_guard::dominator_vouches(cfg, b, auth, trusted_b, dominators[d], block));
        }
        if auth_guard::guarded(cfg, b, auth, block, rounds) {
            let d = choose|d: int|
                0 <= d < dominators.len() && auth_guard::dominator_vouches(
                    cfg,
                    b,
                    auth,
                    trusted_b,
                    #[trigger] dominators[d],
                    block,
                );
            assert(auth_guard::dominator_vouches(cfg, a, auth, trusted_a, dominators[d], block));
        }
    }
}

proof fn lemma_same_flow_same_verdict(
    cfg: CfgQueryEngine,
    a: LocalDataflowGraph,
    b: LocalDataflowGraph,
    auth: Set<GlobalNodeId>,
    trusted_a: spec_fn(usize) -> bool,
    trusted_b: spec_fn(usize) -> bool,
    start: DataflowNodeId,
)
    requires
        same_flow(a, b),
        forall|block: usize| #[trigger] trusted_a(block) == trusted_b(block),
    ensures
        provenance::provenance(cfg, a, auth, trusted_a, Set::empty(), start)
            == provenance::provenance(cfg, b, auth, trusted_b, Set::empty(), start),
{
    let none = Set::<DataflowNodeId>::empty();
    assert forall|id: DataflowNodeId|
        provenance::has_source(a, id) == provenance::has_source(b, id) by {
        if provenance::has_source(a, id) {
            let source = choose|source: DataflowNodeId| provenance::feeds(a, source, id);
            assert(provenance::feeds(b, source, id));
        }
        if provenance::has_source(b, id) {
            let source = choose|source: DataflowNodeId| provenance::feeds(b, source, id);
            assert(provenance::feeds(a, source, id));
        }
    }
    assert forall|from: DataflowNodeId, to: DataflowNodeId|
        provenance::steps(a, from, to) == provenance::steps(b, from, to) by {}
    assert forall|trail: Seq<DataflowNodeId>|
        provenance::is_trail(a, none, trail) == provenance::is_trail(b, none, trail) by {}
    assert forall|id: DataflowNodeId|
        provenance::leads_to(a, none, start, id) == provenance::leads_to(b, none, start, id) by {
        if provenance::leads_to(a, none, start, id) {
            let trail = choose|trail: Seq<DataflowNodeId>| #[trigger]
                provenance::is_trail(a, none, trail) && trail[0] == start && trail.last() == id;
            assert(provenance::is_trail(b, none, trail));
        }
        if provenance::leads_to(b, none, start, id) {
            let trail = choose|trail: Seq<DataflowNodeId>| #[trigger]
                provenance::is_trail(b, none, trail) && trail[0] == start && trail.last() == id;
            assert(provenance::is_trail(a, none, trail));
        }
    }
    assert(provenance::reached(a, none, start) =~= provenance::reached(b, none, start));
    assert forall|id: DataflowNodeId|
        provenance::own_verdict(cfg, a, auth, trusted_a, id) == provenance::own_verdict(
            cfg,
            b,
            auth,
            trusted_b,
            id,
        ) by {}
}

/// The edges that carry a value.
pub open spec fn flow_edges(edges: Seq<DataflowEdge>) -> Seq<DataflowEdge> {
    edges.filter(|edge: DataflowEdge| provenance::carries_value(edge.kind))
}

/// Taking the edges for reading a property, for deriving a value and of any
/// other kind out of a graph leaves the flow as it is.
pub proof fn law_other_edges_are_no_flow(a: LocalDataflowGraph, b: LocalDataflowGraph)
    requires
        a.nodes@ == b.nodes@,
        b.edges@ == flow_edges(a.edges@),
    ensures
        same_flow(a, b),
{
    broadcast use vstd::seq_lib::group_filter_ensures;

    let keep = |edge: DataflowEdge| provenance::carries_value(edge.kind);
    assert forall|source: DataflowNodeId, target: DataflowNodeId|
        provenance::feeds(a, source, target) <==> provenance::feeds(b, source, target) by {
        if provenance::feeds(a, source, target) {
            let e = choose|e: int| provenance::carries(a, e, source, target);
            assert(a.edges@.filter(keep).contains(a.edges@[e]));
            let f = choose|f: int| 0 <= f < b.edges@.len() && b.edges@[f] == a.edges@[e];
            assert(provenance::carries(b, f, source, target));
        }
        if provenance::feeds(b, source, target) {
            let f = choose|f: int| provenance::carries(b, f, source, target);
            assert(b.edges@.contains(b.edges@[f]));
            a.edges@.lemma_filter_contains_rev(keep, b.edges@[f]);
            let e = choose|e: int| 0 <= e < a.edges@.len() && a.edges@[e] == b.edges@[f];
            assert(provenance::carries(a, e, source, target));
        }
    }
}

/// Each node of the trail has the next as its only source.
pub open spec fn is_unbranched(dfg: LocalDataflowGraph, trail: Seq<DataflowNodeId>) -> bool {
    forall|i: int, source: DataflowNodeId|
        0 <= i < trail.len() - 1 && #[trigger] provenance::feeds(dfg, source, trail[i]) ==> source
            == trail[i + 1]
}

/// A value that has a single origin is judged by that origin, through however
/// many variables and properties it was passed.
pub proof fn law_single_origin_decides(
    cfg: CfgQueryEngine,
    dfg: LocalDataflowGraph,
    auth: Set<GlobalNodeId>,
    trusted: spec_fn(usize) -> bool,
    trail: Seq<DataflowNodeId>,
    verdict: PaProvenanceVerdict,
)
    requires
        provenance::is_trail(dfg, Set::empty(), trail),
        is_unbranched(dfg, trail),
        provenance::own_verdict(cfg, dfg, auth, trusted, trail.last()) == Some(verdict),
    ensures
        provenance::provenance(cfg, dfg, auth, trusted, Set::empty(), trail[0]) == verdict,
{
    let none = Set::<DataflowNodeId>::empty();
    let found = provenance::reached(dfg, none, trail[0]);
    let within = trail.to_set();
    let last = trail.len() - 1;
    assert(!provenance::passes_on(dfg, trail[last]));
    assert(within.contains(trail[0]));
    assert forall|from: DataflowNodeId, to: DataflowNodeId|
        within.contains(from) && !none.contains(from) && #[trigger] provenance::steps(
            dfg,
            from,
            to,
        ) implies within.contains(to) by {
        let i = trail.index_of(from);
        assert(trail[i] == from);
        if i < last {
            assert(provenance::feeds(dfg, to, trail[i]));
            assert(trail[i + 1] == to);
        }
    }
    provenance::lemma_reached_within(dfg, none, trail[0], within);
    assert(provenance::leads_to(dfg, none, trail[0], trail.last()));
    assert(found.contains(trail.last()));
    assert forall|id: DataflowNodeId| found.contains(id) implies #[trigger]
        provenance::own_verdict(cfg, dfg, auth, trusted, id) is None
        || provenance::own_verdict(cfg, dfg, auth, trusted, id) == Some(verdict) by {
        let i = trail.index_of(id);
        assert(trail[i] == id);
        if i < last {
            assert(provenance::steps(dfg, trail[i], trail[i + 1]));
        }
    }
}

/// Further yeses never turn the plan's decision to no.
pub open spec fn is_monotone(plan: ProofPlan) -> bool {
    forall|fewer: spec_fn(u32, bool) -> bool, more: spec_fn(u32, bool) -> bool|
        (forall|node_id: u32, target: bool| #[trigger]
            fewer(node_id, target) ==> more(node_id, target)) && #[trigger] plan.outcome(fewer)
            ==> #[trigger] plan.outcome(more)
}

/// All plans are monotone.
pub open spec fn has_monotone_plans(cfg: CfgQueryEngine) -> bool {
    forall|condition: u32, polarity: bool|
        (#[trigger] cfg.spec_plan(condition, polarity)) matches Some(plan) ==> is_monotone(plan)
}

/// More authentication functions, and more rounds, never take a guard away. So
/// the limit on rounds can only lead to more findings, never to fewer.
pub proof fn law_guards_are_monotone(
    cfg: CfgQueryEngine,
    dfg: LocalDataflowGraph,
    fewer: Set<GlobalNodeId>,
    more: Set<GlobalNodeId>,
    block: usize,
    short: nat,
    long: nat,
)
    requires
        has_monotone_plans(cfg),
        fewer.subset_of(more),
        short <= long,
        auth_guard::guarded(cfg, dfg, fewer, block, short),
    ensures
        auth_guard::guarded(cfg, dfg, more, block, long),
    decreases short,
{
    let less = auth_guard::trusted_blocks(cfg, dfg, fewer, (short - 1) as nat);
    let great = auth_guard::trusted_blocks(cfg, dfg, more, (long - 1) as nat);
    assert forall|other: usize| #[trigger] less(other) implies great(other) by {
        law_guards_are_monotone(
            cfg,
            dfg,
            fewer,
            more,
            other,
            (short - 1) as nat,
            (long - 1) as nat,
        );
    }
    let few = auth_guard::leaf_answers(cfg, dfg, fewer, less);
    let many = auth_guard::leaf_answers(cfg, dfg, more, great);
    assert forall|node_id: u32, target: bool| #[trigger] few(node_id, target) implies many(
        node_id,
        target,
    ) by {
        lemma_leaves_are_monotone(cfg, dfg, fewer, more, less, great, node_id, target);
    }
    let dominators = cfg.spec_dominators(block);
    let d = choose|d: int|
        0 <= d < dominators.len() && auth_guard::dominator_vouches(
            cfg,
            dfg,
            fewer,
            less,
            #[trigger] dominators[d],
            block,
        );
    let condition = cfg.spec_condition(dominators[d])->0;
    let polarity = cfg.spec_polarity(dominators[d], block)->0;
    let plan = cfg.spec_plan(condition, polarity)->0;
    assert(is_monotone(plan));
    assert(plan.outcome(few));
    assert(plan.outcome(many));
    assert(auth_guard::dominator_vouches(cfg, dfg, more, great, dominators[d], block));
}

proof fn lemma_leaves_are_monotone(
    cfg: CfgQueryEngine,
    dfg: LocalDataflowGraph,
    fewer: Set<GlobalNodeId>,
    more: Set<GlobalNodeId>,
    less: spec_fn(usize) -> bool,
    great: spec_fn(usize) -> bool,
    node_id: u32,
    target: bool,
)
    requires
        fewer.subset_of(more),
        forall|block: usize| #[trigger] less(block) ==> great(block),
        auth_guard::leaf_vouches(cfg, dfg, fewer, less, node_id, target),
    ensures
        auth_guard::leaf_vouches(cfg, dfg, more, great, node_id, target),
{
    let n = choose|n: int|
        0 <= n < dfg.nodes@.len() && (#[trigger] dfg.nodes@[n]).id.location.node_id == node_id
            && auth_guard::vouches(cfg, dfg, fewer, less, dfg.nodes@[n]);
    let node = dfg.nodes@[n];
    assert forall|other: DataflowNode| provenance::is_auth_call(other, fewer) implies
        provenance::is_auth_call(other, more) by {}
    if !provenance::is_auth_call(node, fewer) {
        let none = Set::<DataflowNodeId>::empty();
        let found = provenance::reached(dfg, none, node.id);
        let reject = PaProvenanceVerdict::Reject;
        let accept = PaProvenanceVerdict::Accept;
        if provenance::some_says(cfg, dfg, more, great, found, reject) {
            let id = choose|id: DataflowNodeId| #[trigger]
                found.contains(id) && provenance::own_verdict(cfg, dfg, more, great, id) == Some(
                    reject,
                );
            assert(provenance::own_verdict(cfg, dfg, fewer, less, id) == Some(reject));
            assert(provenance::some_says(cfg, dfg, fewer, less, found, reject));
        }
        let id = choose|id: DataflowNodeId| #[trigger]
            found.contains(id) && provenance::own_verdict(cfg, dfg, fewer, less, id) == Some(
                accept,
            );
        assert(provenance::own_verdict(cfg, dfg, more, great, id) == Some(accept));
        assert(provenance::some_says(cfg, dfg, more, great, found, accept));
    }
}

/// No plan proves anything without at least one yes.
pub open spec fn needs_a_yes(cfg: CfgQueryEngine) -> bool {
    forall|condition: u32, polarity: bool|
        (#[trigger] cfg.spec_plan(condition, polarity)) matches Some(plan) ==> !plan.outcome(
            never(),
        )
}

/// The answers that are always no.
pub open spec fn never() -> spec_fn(u32, bool) -> bool {
    |node_id: u32, target: bool| false
}

/// No node of the graph calls an authentication function.
pub open spec fn calls_none(dfg: LocalDataflowGraph, auth: Set<GlobalNodeId>) -> bool {
    forall|n: int|
        0 <= n < dfg.nodes@.len() ==> !provenance::is_auth_call(#[trigger] dfg.nodes@[n], auth)
}

/// Where no authentication function is called, no block is guarded by
/// authentication.
pub proof fn law_nothing_is_guarded_without_calls(
    cfg: CfgQueryEngine,
    dfg: LocalDataflowGraph,
    auth: Set<GlobalNodeId>,
    block: usize,
    rounds: nat,
)
    requires
        needs_a_yes(cfg),
        calls_none(dfg, auth),
    ensures
        !auth_guard::guarded(cfg, dfg, auth, block, rounds),
    decreases rounds,
{
    if rounds > 0 {
        let trusted = auth_guard::trusted_blocks(cfg, dfg, auth, (rounds - 1) as nat);
        assert forall|other: usize| !#[trigger] trusted(other) by {
            law_nothing_is_guarded_without_calls(cfg, dfg, auth, other, (rounds - 1) as nat);
        }
        assert forall|id: DataflowNodeId|
            #[trigger] provenance::own_verdict(cfg, dfg, auth, trusted, id) != Some(
                PaProvenanceVerdict::Accept,
            ) by {
            lemma_first_named_is_a_node(dfg.nodes@, id);
        }
        assert(auth_guard::leaf_answers(cfg, dfg, auth, trusted) =~= never());
    }
}

proof fn lemma_first_named_is_a_node(nodes: Seq<DataflowNode>, id: DataflowNodeId)
    ensures
        graph::first_named(nodes, id) matches Some(node) ==> exists|n: int|
            0 <= n < nodes.len() && #[trigger] nodes[n] == node,
    decreases nodes.len(),
{
    if nodes.len() > 0 && nodes[0].id != id {
        let rest = nodes.skip(1);
        lemma_first_named_is_a_node(rest, id);
        if let Some(node) = graph::first_named(nodes, id) {
            let n = choose|n: int| 0 <= n < rest.len() && #[trigger] rest[n] == node;
            assert(nodes[n + 1] == node);
        }
    }
}

/// The conditions of a block itself do not guard it: a block without another
/// dominator is guarded by neither check.
pub proof fn law_own_condition_is_no_guard(
    check: Check,
    cfg: CfgQueryEngine,
    dfg: LocalDataflowGraph,
    block: usize,
)
    requires
        forall|d: int|
            0 <= d < cfg.spec_dominators(block).len() ==> #[trigger] cfg.spec_dominators(block)[d]
                == block,
    ensures
        !check.guards(cfg, dfg, block),
{
}

/// Which way a comparison with the owner came out, and how conditions are
/// decided, does not bear on whether a block is guarded by such a comparison.
pub proof fn law_ownership_ignores_outcomes(
    a: CfgQueryEngine,
    b: CfgQueryEngine,
    dfg: LocalDataflowGraph,
    block: usize,
)
    requires
        a.spec_dominators(block) == b.spec_dominators(block),
        forall|other: usize| #[trigger] a.spec_condition(other) == b.spec_condition(other),
    ensures
        ownership::ownership_guarded(a, dfg, block) == ownership::ownership_guarded(b, dfg, block),
{
    let dominators = a.spec_dominators(block);
    assert forall|other: usize|
        ownership::dominator_checks_owner(a, dfg, other, block)
            == ownership::dominator_checks_owner(b, dfg, other, block) by {}
    if ownership::ownership_guarded(a, dfg, block) {
        let d = choose|d: int|
            0 <= d < dominators.len() && ownership::dominator_checks_owner(
                a,
                dfg,
                #[trigger] dominators[d],
                block,
            );
        assert(ownership::dominator_checks_owner(b, dfg, b.spec_dominators(block)[d], block));
    }
    if ownership::ownership_guarded(b, dfg, block) {
        let d = choose|d: int|
            0 <= d < b.spec_dominators(block).len() && ownership::dominator_checks_owner(
                b,
                dfg,
                #[trigger] b.spec_dominators(block)[d],
                block,
            );
        assert(ownership::dominator_checks_owner(a, dfg, dominators[d], block));
    }
}

/// A path has fewer names than the nodes that were followed, so a traced path
/// has at most `MAX_DEPTH` names.
pub proof fn law_paths_are_short(dfg: LocalDataflowGraph, id: DataflowNodeId, steps: nat)
    ensures
        ownership::property_path(dfg, id, steps) matches Some(path) ==> path.len() < steps,
    decreases steps,
{
    if steps > 0 {
        if let Some(edge) = ownership::first_origin(dfg.edges@, id) {
            law_paths_are_short(dfg, edge.source, (steps - 1) as nat);
        }
    }
}

/// Following a value further never changes a path that was found.
pub proof fn law_paths_are_stable(
    dfg: LocalDataflowGraph,
    id: DataflowNodeId,
    short: nat,
    long: nat,
)
    requires
        short <= long,
        ownership::property_path(dfg, id, short) is Some,
    ensures
        ownership::property_path(dfg, id, long) == ownership::property_path(dfg, id, short),
    decreases short,
{
    if !(id.kind is Parameter) {
        let edge = ownership::first_origin(dfg.edges@, id)->0;
        law_paths_are_stable(dfg, edge.source, (short - 1) as nat, (long - 1) as nat);
    }
}

/// It does not matter on which side of the comparison the session stands.
pub proof fn law_ownership_is_symmetric(a: Seq<Seq<char>>, b: Seq<Seq<char>>)
    ensures
        ownership::is_ownership_pair(a, b) == ownership::is_ownership_pair(b, a),
{
}

/// A comparison of a value with itself checks no ownership.
pub proof fn law_self_comparison_checks_nothing(a: Seq<Seq<char>>)
    ensures
        !ownership::is_ownership_pair(a, a),
{
    reveal_strlit("params");
    reveal_strlit("session");
    assert("params"@.len() != "session"@.len());
}

/// A condition with any other number of operands than two, or with an operand
/// that has no path, is not taken for an ownership check.
pub proof fn law_ownership_needs_two_traced_operands(
    dfg: LocalDataflowGraph,
    cond_nid: u32,
    comparison: DataflowNodeId,
)
    requires
        ownership::first_comparison(dfg.nodes@, cond_nid) == Some(comparison),
        ({
            let sources = ownership::operands(dfg.edges@, comparison);
            sources.len() != 2 || exists|o: int|
                0 <= o < sources.len() && ownership::traced_path(
                    dfg,
                    #[trigger] sources[o],
                ) is None
        }),
    ensures
        !ownership::is_ownership_check(dfg, cond_nid),
{
}

/// The finding tells of node `j` of entry `i`.
pub open spec fn tells_of(
    check: Check,
    memo: Seq<MemoEntry>,
    sinks: Seq<Seq<bool>>,
    finding: AuthBypassFinding,
    i: int,
    j: int,
) -> bool {
    &&& 0 <= i < memo.len()
    &&& findings::is_examined(memo[i])
    &&& 0 <= j < findings::graph_of(memo[i])->0.nodes@.len()
    &&& sinks[i][j]
    &&& findings::is_exposed(
        check,
        memo[i].cfg->0,
        findings::graph_of(memo[i])->0,
        findings::graph_of(memo[i])->0.nodes@[j],
    )
    &&& finding == findings::finding_of(memo[i].key, findings::graph_of(memo[i])->0.nodes@[j])
}

/// The findings are exactly the exposed sinks: each finding tells of one, and
/// each one has its finding.
pub proof fn law_findings_are_the_exposed_sinks(
    check: Check,
    memo: Seq<MemoEntry>,
    sinks: Seq<Seq<bool>>,
    finding: AuthBypassFinding,
)
    ensures
        findings::reports(check, memo, sinks, memo.len()).contains(finding) <==> exists|
            i: int,
            j: int,
        | tells_of(check, memo, sinks, finding, i, j),
{
    lemma_reports_members(check, memo, sinks, finding, memo.len());
}

proof fn lemma_reports_members(
    check: Check,
    memo: Seq<MemoEntry>,
    sinks: Seq<Seq<bool>>,
    finding: AuthBypassFinding,
    n: nat,
)
    requires
        n <= memo.len(),
    ensures
        findings::reports(check, memo, sinks, n).contains(finding) <==> exists|i: int, j: int|
            i < n && tells_of(check, memo, sinks, finding, i, j),
    decreases n,
{
    if n > 0 {
        let last = n - 1;
        let before = findings::reports(check, memo, sinks, last as nat);
        let added = findings::entry_reports(check, memo[last], sinks[last]);
        let all = findings::reports(check, memo, sinks, n);
        lemma_reports_members(check, memo, sinks, finding, last as nat);
        if findings::is_examined(memo[last]) {
            let dfg = findings::graph_of(memo[last])->0;
            lemma_node_reports_members(
                check,
                memo[last].cfg->0,
                dfg,
                memo[last].key,
                sinks[last],
                finding,
                dfg.nodes@.len(),
            );
        }
        if all.contains(finding) {
            let k = all.index_of(finding);
            if k < before.len() {
                assert(before[k] == finding);
            } else {
                assert(added[k - before.len()] == finding);
                let dfg = findings::graph_of(memo[last])->0;
                let j = choose|j: int|
                    0 <= j < dfg.nodes@.len() && reported(
                        check,
                        memo[last].cfg->0,
                        dfg,
                        memo[last].key,
                        sinks[last],
                        finding,
                        j,
                    );
                assert(tells_of(check, memo, sinks, finding, last, j));
            }
        }
        if exists|i: int, j: int| i < n && tells_of(check, memo, sinks, finding, i, j) {
            let (i, j) = choose|i: int, j: int|
                i < n && tells_of(check, memo, sinks, finding, i, j);
            if i < last {
                let k = before.index_of(finding);
                assert(all[k] == finding);
            } else {
                assert(reported(
                    check,
                    memo[last].cfg->0,
                    findings::graph_of(memo[last])->0,
                    memo[last].key,
                    sinks[last],
                    finding,
                    j,
                ));
                let k = added.index_of(finding);
                assert(all[before.len() + k] == finding);
            }
        }
    }
}

spec fn reported(
    check: Check,
    cfg: CfgQueryEngine,
    dfg: LocalDataflowGraph,
    key: MemoKey,
    sinks: Seq<bool>,
    finding: AuthBypassFinding,
    j: int,
) -> bool {
    sinks[j] && findings::is_exposed(check, cfg, dfg, dfg.nodes@[j]) && finding
        == findings::finding_of(key, dfg.nodes@[j])
}

proof fn lemma_node_reports_members(
    check: Check,
    cfg: CfgQueryEngine,
    dfg: LocalDataflowGraph,
    key: MemoKey,
    sinks: Seq<bool>,
    finding: AuthBypassFinding,
    n: nat,
)
    ensures
        findings::node_reports(check, cfg, dfg, key, sinks, n).contains(finding) <==> exists|
            j: int,
        | 0 <= j < n && reported(check, cfg, dfg, key, sinks, finding, j),
    decreases n,
{
    if n > 0 {
        let last = n - 1;
        let before = findings::node_reports(check, cfg, dfg, key, sinks, last as nat);
        let all = findings::node_reports(check, cfg, dfg, key, sinks, n);
        lemma_node_reports_members(check, cfg, dfg, key, sinks, finding, last as nat);
        if all.contains(finding) {
            let k = all.index_of(finding);
            if k < before.len() {
                assert(before[k] == finding);
            } else {
                assert(reported(check, cfg, dfg, key, sinks, finding, last));
            }
        }
        if exists|j: int| 0 <= j < n && reported(check, cfg, dfg, key, sinks, finding, j) {
            let j = choose|j: int|
                0 <= j < n && reported(check, cfg, dfg, key, sinks, finding, j);
            if j < last {
                let k = before.index_of(finding);
                assert(all[k] == finding);
            } else {
                assert(all[before.len() as int] == finding);
            }
        }
    }
}

/// A test for sinks that always says the same of the same node leaves no choice:
/// it fixes the findings.
pub proof fn law_findings_are_determined<F: Fn(&DataflowNode) -> bool>(
    check: Check,
    memo: Seq<MemoEntry>,
    is_sink: F,
    sink: spec_fn(DataflowNode) -> bool,
    first: Seq<Seq<bool>>,
    second: Seq<Seq<bool>>,
)
    requires
        forall|node: DataflowNode, said: bool| #[trigger]
            call_ensures(is_sink, (&node,), said) ==> said == sink(node),
        findings::judges_all(is_sink, memo, first),
        findings::judges_all(is_sink, memo, second),
    ensures
        findings::reports(check, memo, first, memo.len()) == findings::reports(
            check,
            memo,
            second,
            memo.len(),
        ),
{
    assert forall|i: int| 0 <= i < memo.len() implies findings::entry_reports(
        check,
        memo[i],
        #[trigger] first[i],
    ) == findings::entry_reports(check, memo[i], second[i]) by {
        assert(findings::judges(is_sink, memo[i], first[i]));
        assert(findings::judges(is_sink, memo[i], second[i]));
        if findings::is_examined(memo[i]) {
            let dfg = findings::graph_of(memo[i])->0;
            assert forall|j: int| 0 <= j < dfg.nodes@.len() implies first[i][j]
                == second[i][j] by {
                assert(call_ensures(is_sink, (&dfg.nodes@[j],), first[i][j]));
                assert(call_ensures(is_sink, (&dfg.nodes@[j],), second[i][j]));
            }
            assert(first[i] =~= second[i]);
        }
    }
    lemma_same_entries_same_reports(check, memo, first, second, memo.len());
}

proof fn lemma_same_entries_same_reports(
    check: Check,
    memo: Seq<MemoEntry>,
    first: Seq<Seq<bool>>,
    second: Seq<Seq<bool>>,
    n: nat,
)
    requires
        n <= memo.len(),
        forall|i: int|
            0 <= i < memo.len() ==> findings::entry_reports(check, memo[i], #[trigger] first[i])
                == findings::entry_reports(check, memo[i], second[i]),
    ensures
        findings::reports(check, memo, first, n) == findings::reports(check, memo, second, n),
    decreases n,
{
    if n > 0 {
        lemma_same_entries_same_reports(check, memo, first, second, (n - 1) as nat);
        assert(findings::entry_reports(check, memo[n - 1], first[n - 1])
            == findings::entry_reports(check, memo[n - 1], second[n - 1]));
    }
}

/// The positions `at` pick the findings `some` out of `all`, in order.
pub open spec fn picks(
    some: Seq<AuthBypassFinding>,
    all: Seq<AuthBypassFinding>,
    at: Seq<int>,
) -> bool {
    &&& at.len() == some.len()
    &&& forall|k: int| 0 <= k < at.len() ==> 0 <= #[trigger] at[k] < all.len()
    &&& forall|k: int, l: int| 0 <= k < l < at.len() ==> at[k] < at[l]
    &&& forall|k: int| 0 <= k < at.len() ==> some[k] == all[#[trigger] at[k]]
}

/// The findings `some` are what is left of `all` when findings are left out.
pub open spec fn is_subsequence(
    some: Seq<AuthBypassFinding>,
    all: Seq<AuthBypassFinding>,
) -> bool {
    exists|at: Seq<int>| picks(some, all, at)
}

/// Counting more functions as authentication only leaves findings out: what
/// remains stands in the same order, and as often.
pub proof fn law_more_functions_only_leave_findings_out(
    memo: Seq<MemoEntry>,
    sinks: Seq<Seq<bool>>,
    fewer: Set<GlobalNodeId>,
    more: Set<GlobalNodeId>,
)
    requires
        forall|i: int|
            0 <= i < memo.len() && (#[trigger] memo[i]).cfg is Some ==> has_monotone_plans(
                memo[i].cfg->0,
            ),
        fewer.subset_of(more),
    ensures
        is_subsequence(
            findings::reports(Check::Authentication(more), memo, sinks, memo.len()),
            findings::reports(Check::Authentication(fewer), memo, sinks, memo.len()),
        ),
{
    lemma_reports_left_out(memo, sinks, fewer, more, memo.len());
}

proof fn lemma_reports_left_out(
    memo: Seq<MemoEntry>,
    sinks: Seq<Seq<bool>>,
    fewer: Set<GlobalNodeId>,
    more: Set<GlobalNodeId>,
    n: nat,
)
    requires
        forall|i: int|
            0 <= i < memo.len() && (#[trigger] memo[i]).cfg is Some ==> has_monotone_plans(
                memo[i].cfg->0,
            ),
        fewer.subset_of(more),
        n <= memo.len(),
    ensures
        is_subsequence(
            findings::reports(Check::Authentication(more), memo, sinks, n),
            findings::reports(Check::Authentication(fewer), memo, sinks, n),
        ),
    decreases n,
{
    let lax = Check::Authentication(more);
    let strict = Check::Authentication(fewer);
    if n == 0 {
        assert(picks(Seq::empty(), Seq::empty(), Seq::empty()));
    } else {
        let last = memo[n - 1];
        lemma_reports_left_out(memo, sinks, fewer, more, (n - 1) as nat);
        if findings::is_examined(last) {
            let dfg = findings::graph_of(last)->0;
            lemma_node_reports_left_out(
                last.cfg->0,
                dfg,
                last.key,
                sinks[n - 1],
                fewer,
                more,
                dfg.nodes@.len(),
            );
        } else {
            assert(picks(Seq::empty(), Seq::empty(), Seq::empty()));
        }
        lemma_subsequences_join(
            findings::reports(lax, memo, sinks, (n - 1) as nat),
            findings::reports(strict, memo, sinks, (n - 1) as nat),
            findings::entry_reports(lax, last, sinks[n - 1]),
            findings::entry_reports(strict, last, sinks[n - 1]),
        );
    }
}

proof fn lemma_node_reports_left_out(
    cfg: CfgQueryEngine,
    dfg: LocalDataflowGraph,
    key: MemoKey,
    sinks: Seq<bool>,
    fewer: Set<GlobalNodeId>,
    more: Set<GlobalNodeId>,
    n: nat,
)
    requires
        has_monotone_plans(cfg),
        fewer.subset_of(more),
    ensures
        is_subsequence(
            findings::node_reports(Check::Authentication(more), cfg, dfg, key, sinks, n),
            findings::node_reports(Check::Authentication(fewer), cfg, dfg, key, sinks, n),
        ),
    decreases n,
{
    let lax = Check::Authentication(more);
    let strict = Check::Authentication(fewer);
    if n == 0 {
        assert(picks(Seq::empty(), Seq::empty(), Seq::empty()));
    } else {
        let node = dfg.nodes@[n - 1];
        let some = findings::node_reports(lax, cfg, dfg, key, sinks, (n - 1) as nat);
        let all = findings::node_reports(strict, cfg, dfg, key, sinks, (n - 1) as nat);
        lemma_node_reports_left_out(cfg, dfg, key, sinks, fewer, more, (n - 1) as nat);
        if let Some(block) = cfg.spec_block(node.id.location) {
            let rounds = auth_guard::rounds_left(0);
            if auth_guard::guarded(cfg, dfg, fewer, block, rounds) {
                law_guards_are_monotone(cfg, dfg, fewer, more, block, rounds, rounds);
            }
        }
        let none = Seq::<AuthBypassFinding>::empty();
        let one = seq![findings::finding_of(key, node)];
        let some_added = if sinks[n - 1] && findings::is_exposed(lax, cfg, dfg, node) {
            one
        } else {
            none
        };
        let all_added = if sinks[n - 1] && findings::is_exposed(strict, cfg, dfg, node) {
            one
        } else {
            none
        };
        assert(some + one =~= some.push(one[0]) && some + none =~= some);
        assert(all + one =~= all.push(one[0]) && all + none =~= all);
        assert(picks(one, one, seq![0int]));
        assert(picks(none, one, Seq::empty()));
        assert(picks(none, none, Seq::empty()));
        lemma_subsequences_join(some, all, some_added, all_added);
    }
}

proof fn lemma_subsequences_join(
    some: Seq<AuthBypassFinding>,
    all: Seq<AuthBypassFinding>,
    some_next: Seq<AuthBypassFinding>,
    all_next: Seq<AuthBypassFinding>,
)
    requires
        is_subsequence(some, all),
        is_subsequence(some_next, all_next),
    ensures
        is_subsequence(some + some_next, all + all_next),
{
    let at = choose|at: Seq<int>| picks(some, all, at);
    let next = choose|at: Seq<int>| picks(some_next, all_next, at);
    let shifted = Seq::new(next.len(), |k: int| all.len() + next[k]);
    let joined = at + shifted;
    assert forall|k: int| 0 <= k < joined.len() implies {
        &&& 0 <= #[trigger] joined[k] < (all + all_next).len()
        &&& (some + some_next)[k] == (all + all_next)[joined[k]]
        &&& k < at.len() ==> joined[k] == at[k] && joined[k] < all.len()
        &&& k >= at.len() ==> joined[k] == all.len() + next[k - at.len()]
    } by {
        if k < at.len() {
            assert(joined[k] == at[k]);
        } else {
            assert(joined[k] == shifted[k - at.len()]);
            assert(0 <= next[k - at.len()] < all_next.len());
        }
    }
    assert forall|k: int, l: int| 0 <= k < l < joined.len() implies joined[k] < joined[l] by {
        if k < at.len() && l < at.len() {
            assert(at[k] < at[l]);
        } else if k >= at.len() {
            assert(next[k - at.len()] < next[l - at.len()]);
        } else {
            assert(joined[k] < all.len());
            assert(joined[l] == all.len() + next[l - at.len()]);
            assert(0 <= next[l - at.len()]);
        }
    }
    assert(picks(some + some_next, all + all_next, joined));
}

/// More names stand for more functions.
pub proof fn law_more_names_more_functions(
    functions: Seq<FunctionMetadata>,
    fewer: Seq<&str>,
    more: Seq<&str>,
)
    requires
        forall|k: int|
            0 <= k < fewer.len() ==> findings::is_listed((#[trigger] fewer[k])@, more),
    ensures
        findings::named_functions(functions, fewer).subset_of(
            findings::named_functions(functions, more),
        ),
{
    assert forall|function: FunctionMetadata| #[trigger]
        findings::is_named(function, fewer) implies findings::is_named(function, more) by {
        let name = function.name->0;
        let k = choose|k: int| 0 <= k < fewer.len() && (#[trigger] fewer[k])@ == name@;
        assert(findings::is_listed(fewer[k]@, more));
    }
}

/// Where no authentication function is called, every sink of an examined entry
/// that lies in a block is reported.
pub proof fn law_without_calls_every_sink_is_reported(
    memo: Seq<MemoEntry>,
    sinks: Seq<Seq<bool>>,
    auth: Set<GlobalNodeId>,
    i: int,
    j: int,
)
    requires
        0 <= i < memo.len(),
        findings::is_examined(memo[i]),
        needs_a_yes(memo[i].cfg->0),
        calls_none(findings::graph_of(memo[i])->0, auth),
        0 <= j < findings::graph_of(memo[i])->0.nodes@.len(),
        sinks[i][j],
        memo[i].cfg->0.spec_block(
            findings::graph_of(memo[i])->0.nodes@[j].id.location,
        ) is Some,
    ensures
        findings::reports(Check::Authentication(auth), memo, sinks, memo.len()).contains(
            findings::finding_of(memo[i].key, findings::graph_of(memo[i])->0.nodes@[j]),
        ),
{
    let check = Check::Authentication(auth);
    let cfg = memo[i].cfg->0;
    let dfg = findings::graph_of(memo[i])->0;
    let node = dfg.nodes@[j];
    let finding = findings::finding_of(memo[i].key, node);
    law_nothing_is_guarded_without_calls(
        cfg,
        dfg,
        auth,
        cfg.spec_block(node.id.location)->0,
        auth_guard::rounds_left(0),
    );
    assert(tells_of(check, memo, sinks, finding, i, j));
    law_findings_are_the_exposed_sinks(check, memo, sinks, finding);
}

/// Two entries that differ only in how their control flow is known report the
/// same where they place the same points and guard the same blocks.
pub proof fn law_same_guards_report_alike(
    check: Check,
    a: MemoEntry,
    b: MemoEntry,
    sinks: Seq<bool>,
)
    requires
        a.key == b.key,
        a.args@ == b.args@,
        findings::graph_of(a) == findings::graph_of(b),
        a.cfg is Some && b.cfg is Some,
        a.cfg->0.points@ == b.cfg->0.points@,
        findings::graph_of(a) matches Some(dfg) ==> forall|block: usize| #[trigger]
            check.guards(a.cfg->0, dfg, block) == check.guards(b.cfg->0, dfg, block),
    ensures
        findings::entry_reports(check, a, sinks) == findings::entry_reports(check, b, sinks),
{
    if findings::is_examined(a) {
        let dfg = findings::graph_of(a)->0;
        lemma_same_guards_report_alike(
            check,
            a.cfg->0,
            b.cfg->0,
            dfg,
            a.key,
            sinks,
            dfg.nodes@.len(),
        );
    }
}

proof fn lemma_same_guards_report_alike(
    check: Check,
    a: CfgQueryEngine,
    b: CfgQueryEngine,
    dfg: LocalDataflowGraph,
    key: MemoKey,
    sinks: Seq<bool>,
    n: nat,
)
    requires
        a.points@ == b.points@,
        forall|block: usize| #[trigger]
            check.guards(a, dfg, block) == check.guards(b, dfg, block),
    ensures
        findings::node_reports(check, a, dfg, key, sinks, n) == findings::node_reports(
            check,
            b,
            dfg,
            key,
            sinks,
            n,
        ),
    decreases n,
{
    if n > 0 {
        lemma_same_guards_report_alike(check, a, b, dfg, key, sinks, (n - 1) as nat);
        let node = dfg.nodes@[n - 1];
        if let Some(block) = a.spec_block(node.id.location) {
            assert(check.guards(a, dfg, block) == check.guards(b, dfg, block));
        }
    }
}

/// An entry that was only analysed for a call without its further arguments
/// reports nothing.
pub proof fn law_uncalled_entries_report_nothing(
    check: Check,
    entry: MemoEntry,
    sinks: Seq<bool>,
)
    requires
        entry.args@.len() >= 2,
        forall|a: int| 1 <= a < entry.args@.len() ==> (#[trigger] entry.args@[a]).bottom,
    ensures
        findings::entry_reports(check, entry, sinks).len() == 0,
{
}

} // verus!

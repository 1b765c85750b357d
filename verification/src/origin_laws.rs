//! What a verdict on a value's origins means, told by the nodes and edges of the
//! graph.

use vstd::prelude::*;

use crate::auth_guard;
use crate::auth_guard::{pa_identifier_provenance_is_auth, pa_provenance_verdict};
use crate::control_flow::CfgQueryEngine;
use crate::fact_laws;
use crate::graph::{DataflowEdgeKind, LocalDataflowGraph, NodeOperation};
use crate::id_set::{FunctionSet, NodeSet};
use crate::ids::{DataflowNodeId, GlobalNodeId};
use crate::provenance;
use crate::provenance::PaProvenanceVerdict;
use crate::value;
use crate::value::{AbstractValue, PrimitiveValue, Type};

verus! {

/// Edge number `e` brings a value to `target` by direct flow or by a write.
pub open spec fn brings(dfg: LocalDataflowGraph, e: int, target: DataflowNodeId) -> bool {
    &&& 0 <= e < dfg.edges@.len()
    &&& dfg.edges@[e].target == target
    &&& dfg.edges@[e].kind == DataflowEdgeKind::DirectFlow || dfg.edges@[e].kind
        == DataflowEdgeKind::Store
}

/// Nothing is listed, or something other than `false`, zero, `null` and
/// `undefined` is.
pub open spec fn lists_a_truthy_value(value: AbstractValue) -> bool {
    value.values@.len() == 0 || exists|i: int|
        0 <= i < value.values@.len() && {
            &&& #[trigger] value.values@[i] != Type::Primitive(PrimitiveValue::Boolean(false))
            &&& value.values@[i] != Type::Primitive(PrimitiveValue::Number(0))
            &&& value.values@[i] != Type::Primitive(PrimitiveValue::Number(0x8000_0000_0000_0000))
            &&& value.values@[i] != Type::Primitive(PrimitiveValue::Null)
            &&& value.values@[i] != Type::Primitive(PrimitiveValue::Undefined)
        }
}

/// The name stands for no call, and for no value that only lists falsy ones.
pub open spec fn is_open(dfg: LocalDataflowGraph, id: DataflowNodeId) -> bool {
    forall|n: int| #[trigger]
        fact_laws::is_first_node(dfg, n, id) ==> !(dfg.nodes@[n].operation is Call)
            && lists_a_truthy_value(dfg.nodes@[n].abstract_value)
}

/// The nodes lead back from the first to the last: edge number `via[k]` brings a
/// value from each to the one before it, each but the last is open, and none is
/// among the nodes to avoid.
pub open spec fn is_way_back(
    dfg: LocalDataflowGraph,
    avoid: Set<DataflowNodeId>,
    ids: Seq<DataflowNodeId>,
    via: Seq<int>,
) -> bool {
    &&& ids.len() == via.len() + 1
    &&& forall|k: int| 0 <= k < ids.len() ==> !avoid.contains(#[trigger] ids[k])
    &&& forall|k: int|
        0 <= k < via.len() ==> brings(dfg, #[trigger] via[k], ids[k]) && dfg.edges@[via[k]].source
            == ids[k + 1] && is_open(dfg, ids[k])
}

/// The name stands for a call of none of the functions.
pub open spec fn calls_another(
    dfg: LocalDataflowGraph,
    functions: Set<GlobalNodeId>,
    id: DataflowNodeId,
) -> bool {
    exists|n: int| #[trigger]
        fact_laws::is_first_node(dfg, n, id) && (
        dfg.nodes@[n].operation matches NodeOperation::Call { callees, .. } && forall|c: int|
            0 <= c < callees@.len() ==> !functions.contains(#[trigger] callees@[c]))
}

/// The name stands for a call that may be of one of the functions.
pub open spec fn calls_one(
    dfg: LocalDataflowGraph,
    functions: Set<GlobalNodeId>,
    id: DataflowNodeId,
) -> bool {
    exists|n: int| #[trigger]
        fact_laws::is_first_node(dfg, n, id) && (
        dfg.nodes@[n].operation matches NodeOperation::Call { callees, .. } && exists|c: int|
            0 <= c < callees@.len() && functions.contains(#[trigger] callees@[c]))
}

/// A value that is open and that nothing is brought to.
pub open spec fn is_an_origin(dfg: LocalDataflowGraph, id: DataflowNodeId) -> bool {
    is_open(dfg, id) && forall|e: int| !#[trigger] brings(dfg, e, id)
}

/// The name lies in a block of which `trusted` holds.
pub open spec fn lies_in_trust(
    cfg: CfgQueryEngine,
    trusted: spec_fn(usize) -> bool,
    id: DataflowNodeId,
) -> bool {
    exists|k: int| #[trigger]
        fact_laws::is_first_place(cfg, k, id.location) && trusted(cfg.points@[k].block)
}

proof fn lemma_open(dfg: LocalDataflowGraph, id: DataflowNodeId)
    ensures
        is_open(dfg, id) <==> (dfg.spec_node(id) matches Some(node) ==> !(node.operation is Call)
            && value::could_be_truthy(node.abstract_value)),
{
    fact_laws::law_names_stand_for_nodes(dfg, id);
    if let Some(node) = dfg.spec_node(id) {
        let n = choose|n: int| fact_laws::is_first_node(dfg, n, id);
        assert(dfg.nodes@[n] == node);
        lemma_truthy(node.abstract_value);
        assert forall|m: int| #[trigger] fact_laws::is_first_node(dfg, m, id) implies dfg.nodes@[m]
            == node by {}
    }
}

proof fn lemma_truthy(value: AbstractValue)
    ensures
        lists_a_truthy_value(value) == value::could_be_truthy(value),
{
    if lists_a_truthy_value(value) {
        if value.values@.len() == 0 {
            fact_laws::law_unknown_values_can_pass(value);
        } else {
            let i = choose|i: int|
                0 <= i < value.values@.len() && {
                    &&& #[trigger] value.values@[i] != Type::Primitive(
                        PrimitiveValue::Boolean(false),
                    )
                    &&& value.values@[i] != Type::Primitive(PrimitiveValue::Number(0))
                    &&& value.values@[i] != Type::Primitive(
                        PrimitiveValue::Number(0x8000_0000_0000_0000),
                    )
                    &&& value.values@[i] != Type::Primitive(PrimitiveValue::Null)
                    &&& value.values@[i] != Type::Primitive(PrimitiveValue::Undefined)
                };
            fact_laws::law_one_passing_value_is_enough(value, i);
        }
    } else {
        fact_laws::law_falsy_values_do_not_pass(value);
    }
}

proof fn lemma_brought(dfg: LocalDataflowGraph, id: DataflowNodeId)
    ensures
        provenance::has_source(dfg, id) <==> exists|e: int| brings(dfg, e, id),
{
    if exists|e: int| brings(dfg, e, id) {
        let e = choose|e: int| brings(dfg, e, id);
        assert(provenance::carries(dfg, e, dfg.edges@[e].source, id));
        assert(provenance::feeds(dfg, dfg.edges@[e].source, id));
    }
    if provenance::has_source(dfg, id) {
        let source = choose|source: DataflowNodeId| provenance::feeds(dfg, source, id);
        let e = choose|e: int| provenance::carries(dfg, e, source, id);
        assert(brings(dfg, e, id));
    }
}

proof fn lemma_way_is_trail(
    dfg: LocalDataflowGraph,
    avoid: Set<DataflowNodeId>,
    ids: Seq<DataflowNodeId>,
    via: Seq<int>,
)
    requires
        is_way_back(dfg, avoid, ids, via),
    ensures
        provenance::is_trail(dfg, avoid, ids),
{
    assert forall|i: int, j: int|
        #![trigger ids[i], ids[j]]
        0 <= i < ids.len() - 1 && j == i + 1 implies provenance::steps(dfg, ids[i], ids[j]) by {
        assert(brings(dfg, via[i], ids[i]));
        lemma_open(dfg, ids[i]);
        lemma_brought(dfg, ids[i]);
        assert(provenance::carries(dfg, via[i], ids[j], ids[i]));
    }
}

/// An edge that carries a value from `source` to `target`.
spec fn carrier(dfg: LocalDataflowGraph, source: DataflowNodeId, target: DataflowNodeId) -> int {
    choose|e: int| provenance::carries(dfg, e, source, target)
}

proof fn lemma_trail_is_way(
    dfg: LocalDataflowGraph,
    avoid: Set<DataflowNodeId>,
    ids: Seq<DataflowNodeId>,
) -> (via: Seq<int>)
    requires
        provenance::is_trail(dfg, avoid, ids),
    ensures
        is_way_back(dfg, avoid, ids, via),
{
    let via = Seq::new(
        (ids.len() - 1) as nat,
        |k: int| carrier(dfg, ids[k + 1], ids[k]),
    );
    assert forall|k: int| 0 <= k < via.len() implies brings(dfg, #[trigger] via[k], ids[k])
        && dfg.edges@[via[k]].source == ids[k + 1] && is_open(dfg, ids[k]) by {
        let next = ids[k + 1];
        assert(provenance::steps(dfg, ids[k], next));
        lemma_open(dfg, ids[k]);
        assert(provenance::carries(dfg, via[k], ids[k + 1], ids[k]));
    }
    via
}

/// What a walk visits is what ways back that keep clear of the nodes to avoid
/// lead to.
pub proof fn law_walks_visit_what_ways_lead_to(
    dfg: LocalDataflowGraph,
    avoid: Set<DataflowNodeId>,
    start: DataflowNodeId,
    id: DataflowNodeId,
)
    ensures
        provenance::reached(dfg, avoid, start).contains(id) <==> exists|
            ids: Seq<DataflowNodeId>,
            via: Seq<int>,
        | #[trigger]
            is_way_back(dfg, avoid, ids, via) && ids[0] == start && ids.last() == id,
{
    if provenance::reached(dfg, avoid, start).contains(id) {
        let ids = choose|trail: Seq<DataflowNodeId>| #[trigger]
            provenance::is_trail(dfg, avoid, trail) && trail[0] == start && trail.last() == id;
        let via = lemma_trail_is_way(dfg, avoid, ids);
        assert(is_way_back(dfg, avoid, ids, via));
    }
    if exists|ids: Seq<DataflowNodeId>, via: Seq<int>| #[trigger]
        is_way_back(dfg, avoid, ids, via) && ids[0] == start && ids.last() == id {
        let (ids, via) = choose|ids: Seq<DataflowNodeId>, via: Seq<int>| #[trigger]
            is_way_back(dfg, avoid, ids, via) && ids[0] == start && ids.last() == id;
        lemma_way_is_trail(dfg, avoid, ids, via);
        assert(provenance::leads_to(dfg, avoid, start, id));
    }
}

proof fn lemma_node_of(dfg: LocalDataflowGraph, functions: Set<GlobalNodeId>, id: DataflowNodeId)
    ensures
        calls_one(dfg, functions, id) <==> (dfg.spec_node(id) matches Some(node)
            && provenance::is_auth_call(node, functions)),
        calls_another(dfg, functions, id) <==> (dfg.spec_node(id) matches Some(node)
            && node.operation is Call && !provenance::is_auth_call(node, functions)),
{
    fact_laws::law_names_stand_for_nodes(dfg, id);
    if let Some(node) = dfg.spec_node(id) {
        let n = choose|n: int| fact_laws::is_first_node(dfg, n, id);
        assert(dfg.nodes@[n] == node);
        if provenance::is_auth_call(node, functions) {
            assert(calls_one(dfg, functions, id));
        } else if node.operation is Call {
            assert(calls_another(dfg, functions, id));
        }
    }
}

proof fn lemma_own_verdict(
    cfg: CfgQueryEngine,
    dfg: LocalDataflowGraph,
    auth: Set<GlobalNodeId>,
    trusted: spec_fn(usize) -> bool,
    id: DataflowNodeId,
)
    ensures
        provenance::own_verdict(cfg, dfg, auth, trusted, id) == Some(PaProvenanceVerdict::Reject)
            <==> calls_another(dfg, auth, id) || is_an_origin(dfg, id) && !lies_in_trust(
            cfg,
            trusted,
            id,
        ),
        provenance::own_verdict(cfg, dfg, auth, trusted, id) == Some(PaProvenanceVerdict::Accept)
            <==> calls_one(dfg, auth, id) || is_an_origin(dfg, id) && lies_in_trust(
            cfg,
            trusted,
            id,
        ),
{
    lemma_node_of(dfg, auth, id);
    lemma_open(dfg, id);
    lemma_brought(dfg, id);
    fact_laws::law_points_lie_in_blocks(cfg, id.location);
    assert(is_an_origin(dfg, id) <==> is_open(dfg, id) && !provenance::has_source(dfg, id));
    if let Some(block) = cfg.spec_block(id.location) {
        let k = choose|k: int| fact_laws::is_first_place(cfg, k, id.location);
        assert(cfg.points@[k].block == block);
        assert(lies_in_trust(cfg, trusted, id) <==> trusted(block));
    }
}

/// A way back objects: it ends at a call of something other than the functions,
/// or at an origin outside the trusted blocks.
pub open spec fn objects(
    cfg: CfgQueryEngine,
    dfg: LocalDataflowGraph,
    auth: Set<GlobalNodeId>,
    trusted: spec_fn(usize) -> bool,
    ids: Seq<DataflowNodeId>,
) -> bool {
    calls_another(dfg, auth, ids.last()) || is_an_origin(dfg, ids.last()) && !lies_in_trust(
        cfg,
        trusted,
        ids.last(),
    )
}

/// A way back agrees: it ends at a call of one of the functions, or at an origin
/// inside a trusted block.
pub open spec fn agrees(
    cfg: CfgQueryEngine,
    dfg: LocalDataflowGraph,
    auth: Set<GlobalNodeId>,
    trusted: spec_fn(usize) -> bool,
    ids: Seq<DataflowNodeId>,
) -> bool {
    calls_one(dfg, auth, ids.last()) || is_an_origin(dfg, ids.last()) && lies_in_trust(
        cfg,
        trusted,
        ids.last(),
    )
}

/// A value is rejected exactly if some way back objects, and accepted exactly if
/// none does and some way back agrees.
pub proof fn law_verdicts_are_those_of_the_ways(
    cfg: CfgQueryEngine,
    dfg: LocalDataflowGraph,
    auth: Set<GlobalNodeId>,
    trusted: spec_fn(usize) -> bool,
    avoid: Set<DataflowNodeId>,
    start: DataflowNodeId,
)
    ensures
        provenance::provenance(cfg, dfg, auth, trusted, avoid, start)
            == PaProvenanceVerdict::Reject <==> exists|
            ids: Seq<DataflowNodeId>,
            via: Seq<int>,
        | #[trigger]
            is_way_back(dfg, avoid, ids, via) && ids[0] == start && objects(
                cfg,
                dfg,
                auth,
                trusted,
                ids,
            ),
        provenance::provenance(cfg, dfg, auth, trusted, avoid, start)
            == PaProvenanceVerdict::Accept <==> (forall|
            ids: Seq<DataflowNodeId>,
            via: Seq<int>,
        | #[trigger]
            is_way_back(dfg, avoid, ids, via) && ids[0] == start ==> !objects(
                cfg,
                dfg,
                auth,
                trusted,
                ids,
            )) && exists|ids: Seq<DataflowNodeId>, via: Seq<int>| #[trigger]
            is_way_back(dfg, avoid, ids, via) && ids[0] == start && agrees(
                cfg,
                dfg,
                auth,
                trusted,
                ids,
            ),
{
    let ids = provenance::reached(dfg, avoid, start);
    assert forall|id: DataflowNodeId| #[trigger] ids.contains(id) implies exists|
        way: Seq<DataflowNodeId>,
        via: Seq<int>,
    | #[trigger] is_way_back(dfg, avoid, way, via) && way[0] == start && way.last() == id by {
        law_walks_visit_what_ways_lead_to(dfg, avoid, start, id);
    }
    assert forall|way: Seq<DataflowNodeId>, via: Seq<int>| #[trigger]
        is_way_back(dfg, avoid, way, via) && way[0] == start implies ids.contains(
        way.last(),
    ) by {
        law_walks_visit_what_ways_lead_to(dfg, avoid, start, way.last());
    }
    assert forall|id: DataflowNodeId| #[trigger] ids.contains(id) implies (provenance::own_verdict(
        cfg,
        dfg,
        auth,
        trusted,
        id,
    ) == Some(PaProvenanceVerdict::Reject) <==> calls_another(dfg, auth, id) || is_an_origin(
        dfg,
        id,
    ) && !lies_in_trust(cfg, trusted, id)) && (provenance::own_verdict(
        cfg,
        dfg,
        auth,
        trusted,
        id,
    ) == Some(PaProvenanceVerdict::Accept) <==> calls_one(dfg, auth, id) || is_an_origin(dfg, id)
        && lies_in_trust(cfg, trusted, id)) by {
        lemma_own_verdict(cfg, dfg, auth, trusted, id);
    }
}

/// One way back to a call of something other than the functions, and the value is
/// rejected, whatever else feeds it.
pub proof fn law_other_calls_are_rejected(
    cfg: CfgQueryEngine,
    dfg: LocalDataflowGraph,
    auth: Set<GlobalNodeId>,
    trusted: spec_fn(usize) -> bool,
    avoid: Set<DataflowNodeId>,
    ids: Seq<DataflowNodeId>,
    via: Seq<int>,
    n: int,
)
    requires
        is_way_back(dfg, avoid, ids, via),
        fact_laws::is_first_node(dfg, n, ids.last()),
        dfg.nodes@[n].operation is Call,
        forall|c: int|
            0 <= c < dfg.nodes@[n].operation->callees@.len() ==> !auth.contains(
                #[trigger] dfg.nodes@[n].operation->callees@[c],
            ),
    ensures
        provenance::provenance(cfg, dfg, auth, trusted, avoid, ids[0])
            == PaProvenanceVerdict::Reject,
{
    assert(calls_another(dfg, auth, ids.last()));
    law_verdicts_are_those_of_the_ways(cfg, dfg, auth, trusted, avoid, ids[0]);
}

/// One way back to an origin outside the trusted blocks, and the value is
/// rejected, whatever else feeds it.
pub proof fn law_untrusted_origins_are_rejected(
    cfg: CfgQueryEngine,
    dfg: LocalDataflowGraph,
    auth: Set<GlobalNodeId>,
    trusted: spec_fn(usize) -> bool,
    avoid: Set<DataflowNodeId>,
    ids: Seq<DataflowNodeId>,
    via: Seq<int>,
)
    requires
        is_way_back(dfg, avoid, ids, via),
        is_open(dfg, ids.last()),
        forall|e: int| !#[trigger] brings(dfg, e, ids.last()),
        forall|k: int|
            0 <= k < cfg.points@.len() && (#[trigger] cfg.points@[k]).point == ids.last().location
                ==> !trusted(cfg.points@[k].block),
    ensures
        provenance::provenance(cfg, dfg, auth, trusted, avoid, ids[0])
            == PaProvenanceVerdict::Reject,
{
    assert(!lies_in_trust(cfg, trusted, ids.last()));
    law_verdicts_are_those_of_the_ways(cfg, dfg, auth, trusted, avoid, ids[0]);
}

/// A value whose only way back leads to a call that may be of one of the
/// functions is accepted.
pub proof fn law_a_single_way_to_a_call_is_accepted(
    cfg: CfgQueryEngine,
    dfg: LocalDataflowGraph,
    auth: Set<GlobalNodeId>,
    trusted: spec_fn(usize) -> bool,
    ids: Seq<DataflowNodeId>,
    via: Seq<int>,
    n: int,
    c: int,
)
    requires
        is_way_back(dfg, Set::empty(), ids, via),
        forall|k: int, e: int|
            0 <= k < via.len() && #[trigger] brings(dfg, e, #[trigger] ids[k])
                ==> dfg.edges@[e].source == ids[k + 1],
        fact_laws::is_first_node(dfg, n, ids.last()),
        dfg.nodes@[n].operation is Call,
        0 <= c < dfg.nodes@[n].operation->callees@.len(),
        auth.contains(dfg.nodes@[n].operation->callees@[c]),
    ensures
        provenance::provenance(cfg, dfg, auth, trusted, Set::empty(), ids[0])
            == PaProvenanceVerdict::Accept,
{
    assert(calls_one(dfg, auth, ids.last())) by {
        assert(fact_laws::is_first_node(dfg, n, ids.last()));
        let callees = dfg.nodes@[n].operation->callees;
        assert(auth.contains(callees@[c]));
    }
    assert(agrees(cfg, dfg, auth, trusted, ids));
    assert forall|way: Seq<DataflowNodeId>, by: Seq<int>| #[trigger]
        is_way_back(dfg, Set::empty(), way, by) && way[0] == ids[0] implies !objects(
        cfg,
        dfg,
        auth,
        trusted,
        way,
    ) by {
        lemma_ways_agree(dfg, ids, via, n, way, by, by.len() as int);
        let k = by.len() as int;
        assert(way.last() == ids[k]);
        lemma_node_of(dfg, auth, ids[k]);
        lemma_node_of(dfg, auth, ids.last());
        if k < via.len() {
            assert(brings(dfg, via[k], ids[k]));
            lemma_open(dfg, ids[k]);
        } else {
            fact_laws::law_names_stand_for_nodes(dfg, ids.last());
            assert(!is_open(dfg, ids.last()));
        }
    }
    law_verdicts_are_those_of_the_ways(cfg, dfg, auth, trusted, Set::empty(), ids[0]);
}

/// Where each node has one source, a way back is a part of the one that ends at a
/// call.
proof fn lemma_ways_agree(
    dfg: LocalDataflowGraph,
    ids: Seq<DataflowNodeId>,
    via: Seq<int>,
    n: int,
    way: Seq<DataflowNodeId>,
    by: Seq<int>,
    k: int,
)
    requires
        is_way_back(dfg, Set::empty(), ids, via),
        forall|k: int, e: int|
            0 <= k < via.len() && #[trigger] brings(dfg, e, #[trigger] ids[k])
                ==> dfg.edges@[e].source == ids[k + 1],
        fact_laws::is_first_node(dfg, n, ids.last()),
        dfg.nodes@[n].operation is Call,
        is_way_back(dfg, Set::empty(), way, by),
        way[0] == ids[0],
        0 <= k <= by.len(),
    ensures
        k <= via.len(),
        way[k] == ids[k],
    decreases k,
{
    if k > 0 {
        lemma_ways_agree(dfg, ids, via, n, way, by, k - 1);
        assert(brings(dfg, by[k - 1], way[k - 1]));
        assert(is_open(dfg, way[k - 1]));
        if k - 1 == via.len() {
            assert(fact_laws::is_first_node(dfg, n, way[k - 1]));
        } else {
            assert(brings(dfg, by[k - 1], ids[k - 1]));
        }
    }
}

/// A value that lists only falsy ones, and is no call, is neither accepted nor
/// rejected, whatever feeds it.
pub proof fn law_falsy_values_are_skipped(
    cfg: CfgQueryEngine,
    dfg: LocalDataflowGraph,
    auth: Set<GlobalNodeId>,
    trusted: spec_fn(usize) -> bool,
    start: DataflowNodeId,
    n: int,
)
    requires
        fact_laws::is_first_node(dfg, n, start),
        !(dfg.nodes@[n].operation is Call),
        !lists_a_truthy_value(dfg.nodes@[n].abstract_value),
    ensures
        provenance::provenance(cfg, dfg, auth, trusted, Set::empty(), start)
            == PaProvenanceVerdict::SkipIncompatible,
{
    law_verdicts_are_those_of_the_ways(cfg, dfg, auth, trusted, Set::empty(), start);
    assert(!is_open(dfg, start));
    lemma_node_of(dfg, auth, start);
    fact_laws::law_names_stand_for_nodes(dfg, start);
    assert forall|ids: Seq<DataflowNodeId>, via: Seq<int>| #[trigger]
        is_way_back(dfg, Set::empty(), ids, via) && ids[0] == start implies ids.last()
        == start by {
        if via.len() > 0 {
            assert(brings(dfg, via[0], ids[0]));
        }
    }
}

/// The blocks that are guarded one level below the given depth: within eight rounds
/// at first, one less with each level.
pub open spec fn blocks_guarded_below(
    cfg: CfgQueryEngine,
    dfg: LocalDataflowGraph,
    functions: Set<GlobalNodeId>,
    depth: u32,
) -> spec_fn(usize) -> bool {
    |block: usize|
        auth_guard::guarded(
            cfg,
            dfg,
            functions,
            block,
            if depth < 8 {
                (8 - depth) as nat
            } else {
                0
            },
        )
}

/// A value that is read vouches for an authentication exactly if some way back
/// from it agrees and none objects, where the trusted blocks are those guarded one
/// level deeper.
pub proof fn law_reads_vouch_by_their_ways(
    cfg: CfgQueryEngine,
    dfg: LocalDataflowGraph,
    start: DataflowNodeId,
    auth_fn_ids: FunctionSet,
    depth: u32,
    is_auth: bool,
)
    requires
        depth < u32::MAX,
        call_ensures(
            pa_identifier_provenance_is_auth,
            (&cfg, &dfg, &start, &auth_fn_ids, depth),
            is_auth,
        ),
    ensures
        ({
            let trusted = blocks_guarded_below(cfg, dfg, auth_fn_ids@, depth);
            is_auth <==> (forall|ids: Seq<DataflowNodeId>, via: Seq<int>| #[trigger]
                is_way_back(dfg, Set::empty(), ids, via) && ids[0] == start ==> !objects(
                    cfg,
                    dfg,
                    auth_fn_ids@,
                    trusted,
                    ids,
                )) && exists|ids: Seq<DataflowNodeId>, via: Seq<int>| #[trigger]
                is_way_back(dfg, Set::empty(), ids, via) && ids[0] == start && agrees(
                    cfg,
                    dfg,
                    auth_fn_ids@,
                    trusted,
                    ids,
                )
        }),
{
    let trusted = blocks_guarded_below(cfg, dfg, auth_fn_ids@, depth);
    assert(trusted =~= auth_guard::trusted_at(cfg, dfg, auth_fn_ids@, depth));
    law_verdicts_are_those_of_the_ways(cfg, dfg, auth_fn_ids@, trusted, Set::empty(), start);
}

/// A walk rejects a value exactly if some way back from it that keeps clear of what
/// was visited before objects, and accepts it exactly if none does and some agrees.
/// What it has visited afterwards is what was visited before and what such ways lead
/// to.
pub proof fn law_walks_judge_by_the_ways(
    cfg: CfgQueryEngine,
    dfg: LocalDataflowGraph,
    start: DataflowNodeId,
    auth_fn_ids: FunctionSet,
    visited: &mut NodeSet,
    depth: u32,
    verdict: PaProvenanceVerdict,
    id: DataflowNodeId,
)
    requires
        depth < u32::MAX,
        call_ensures(
            pa_provenance_verdict,
            (&cfg, &dfg, &start, &auth_fn_ids, visited, depth),
            verdict,
        ),
    ensures
        verdict == PaProvenanceVerdict::Reject <==> exists|
            ids: Seq<DataflowNodeId>,
            via: Seq<int>,
        | #[trigger]
            is_way_back(dfg, old(visited)@, ids, via) && ids[0] == start && objects(
                cfg,
                dfg,
                auth_fn_ids@,
                blocks_guarded_below(cfg, dfg, auth_fn_ids@, depth),
                ids,
            ),
        verdict == PaProvenanceVerdict::Accept <==> (forall|
            ids: Seq<DataflowNodeId>,
            via: Seq<int>,
        | #[trigger]
            is_way_back(dfg, old(visited)@, ids, via) && ids[0] == start ==> !objects(
                cfg,
                dfg,
                auth_fn_ids@,
                blocks_guarded_below(cfg, dfg, auth_fn_ids@, depth),
                ids,
            )) && exists|ids: Seq<DataflowNodeId>, via: Seq<int>| #[trigger]
            is_way_back(dfg, old(visited)@, ids, via) && ids[0] == start && agrees(
                cfg,
                dfg,
                auth_fn_ids@,
                blocks_guarded_below(cfg, dfg, auth_fn_ids@, depth),
                ids,
            ),
        final(visited)@.contains(id) <==> old(visited)@.contains(id) || exists|
            ids: Seq<DataflowNodeId>,
            via: Seq<int>,
        | #[trigger]
            is_way_back(dfg, old(visited)@, ids, via) && ids[0] == start && ids.last() == id,
{
    let trusted = blocks_guarded_below(cfg, dfg, auth_fn_ids@, depth);
    assert(trusted =~= auth_guard::trusted_at(cfg, dfg, auth_fn_ids@, depth));
    law_verdicts_are_those_of_the_ways(
        cfg,
        dfg,
        auth_fn_ids@,
        trusted,
        old(visited)@,
        start,
    );
    law_walks_visit_what_ways_lead_to(dfg, old(visited)@, start, id);
}

/// A walk that has visited nothing before rejects a value that may come from a call
/// of something other than the functions: each of `ids` is fed by the next, by direct
/// flow or by a write, none before the last is a call or lists only falsy values, and
/// the last is such a call.
pub proof fn law_walks_reject_other_calls(
    cfg: CfgQueryEngine,
    dfg: LocalDataflowGraph,
    auth_fn_ids: FunctionSet,
    visited: &mut NodeSet,
    depth: u32,
    verdict: PaProvenanceVerdict,
    ids: Seq<DataflowNodeId>,
    n: int,
)
    requires
        depth < u32::MAX,
        old(visited)@ == Set::<DataflowNodeId>::empty(),
        ids.len() > 0,
        forall|k: int, l: int|
            #![trigger ids[k], ids[l]]
            0 <= k < ids.len() - 1 && l == k + 1 ==> exists|e: int|
                0 <= e < dfg.edges@.len() && (#[trigger] dfg.edges@[e]).source == ids[l]
                    && dfg.edges@[e].target == ids[k] && (dfg.edges@[e].kind is DirectFlow
                    || dfg.edges@[e].kind is Store),
        forall|k: int, m: int|
            #![trigger ids[k], dfg.nodes@[m]]
            0 <= k < ids.len() - 1 && 0 <= m < dfg.nodes@.len() && dfg.nodes@[m].id == ids[k] ==> !(
            dfg.nodes@[m].operation is Call) && lists_a_truthy_value(dfg.nodes@[m].abstract_value),
        fact_laws::is_first_node(dfg, n, ids.last()),
        dfg.nodes@[n].operation is Call,
        forall|c: int|
            0 <= c < dfg.nodes@[n].operation->callees@.len() ==> !auth_fn_ids@.contains(
                #[trigger] dfg.nodes@[n].operation->callees@[c],
            ),
        call_ensures(
            pa_provenance_verdict,
            (&cfg, &dfg, &ids[0], &auth_fn_ids, visited, depth),
            verdict,
        ),
    ensures
        verdict == PaProvenanceVerdict::Reject,
{
    let via = Seq::new(
        (ids.len() - 1) as nat,
        |k: int| carrier(dfg, ids[k + 1], ids[k]),
    );
    assert forall|k: int| 0 <= k < via.len() implies brings(dfg, #[trigger] via[k], ids[k])
        && dfg.edges@[via[k]].source == ids[k + 1] && is_open(dfg, ids[k]) by {
        let next = ids[k + 1];
        let e = choose|e: int|
            0 <= e < dfg.edges@.len() && (#[trigger] dfg.edges@[e]).source == next
                && dfg.edges@[e].target == ids[k] && (dfg.edges@[e].kind is DirectFlow
                || dfg.edges@[e].kind is Store);
        assert(provenance::carries(dfg, e, next, ids[k]));
        assert(provenance::carries(dfg, via[k], next, ids[k]));
    }
    law_other_calls_are_rejected(
        cfg,
        dfg,
        auth_fn_ids@,
        auth_guard::trusted_at(cfg, dfg, auth_fn_ids@, depth),
        Set::empty(),
        ids,
        via,
        n,
    );
}

} // verus!

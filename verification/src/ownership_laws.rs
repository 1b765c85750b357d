//! What it means that a value comes from the request or the session, and that a
//! block only runs for the owner, told by the nodes and edges of the graph.

use vstd::prelude::*;

use crate::control_flow::CfgQueryEngine;
use crate::fact_laws;
use crate::graph::{DataflowEdgeKind, DataflowNode, LocalDataflowGraph};
use crate::ids::{DataflowNodeId, NodeOperationKind};
use crate::ownership;
use crate::ownership::{
    block_is_ownership_guarded, condition_is_ownership_check, trace_property_path, MAX_DEPTH,
};

verus! {

/// Edge number `e` is the first into `id` by direct flow or by a read.
pub open spec fn is_first_origin(dfg: LocalDataflowGraph, e: int, id: DataflowNodeId) -> bool {
    &&& 0 <= e < dfg.edges@.len()
    &&& dfg.edges@[e].target == id
    &&& dfg.edges@[e].kind is DirectFlow || dfg.edges@[e].kind is Load
    &&& forall|f: int|
        0 <= f < e && (#[trigger] dfg.edges@[f]).target == id ==> !(dfg.edges@[f].kind
            is DirectFlow) && !(dfg.edges@[f].kind is Load)
}

/// Some node has the name.
pub open spec fn is_present(dfg: LocalDataflowGraph, id: DataflowNodeId) -> bool {
    exists|n: int| 0 <= n < dfg.nodes@.len() && (#[trigger] dfg.nodes@[n]).id == id
}

/// The names follow one another to a parameter: edge number `edges[k]` is the first
/// origin of `ids[k]` and comes from `ids[k + 1]`, all names are present, and only
/// the last is a parameter's.
pub open spec fn is_chain(
    dfg: LocalDataflowGraph,
    ids: Seq<DataflowNodeId>,
    edges: Seq<int>,
) -> bool {
    &&& ids.len() == edges.len() + 1
    &&& ids.last().kind == NodeOperationKind::Parameter
    &&& forall|k: int| 0 <= k < ids.len() ==> is_present(dfg, #[trigger] ids[k])
    &&& forall|k: int|
        0 <= k < edges.len() ==> ids[k].kind != NodeOperationKind::Parameter && is_first_origin(
            dfg,
            #[trigger] edges[k],
            ids[k],
        ) && dfg.edges@[edges[k]].source == ids[k + 1]
}

/// The reads among the edges, in order.
pub open spec fn reads_among(dfg: LocalDataflowGraph, edges: Seq<int>) -> Seq<int> {
    edges.filter(|e: int| dfg.edges@[e].kind is Load)
}

/// The names of the properties that the edges read, from the last edge to the
/// first.
pub open spec fn names_read(dfg: LocalDataflowGraph, edges: Seq<int>) -> Seq<Seq<char>> {
    let reads = reads_among(dfg, edges);
    Seq::new(reads.len(), |k: int| dfg.edges@[reads[reads.len() - 1 - k]].kind->property@)
}

proof fn lemma_origin(dfg: LocalDataflowGraph, id: DataflowNodeId, from: int)
    requires
        0 <= from <= dfg.edges@.len(),
        forall|f: int|
            0 <= f < from && (#[trigger] dfg.edges@[f]).target == id ==> !(dfg.edges@[f].kind
                is DirectFlow) && !(dfg.edges@[f].kind is Load),
    ensures
        match ownership::first_origin(dfg.edges@.skip(from), id) {
            Some(edge) => exists|e: int| #[trigger]
                is_first_origin(dfg, e, id) && dfg.edges@[e] == edge,
            None => forall|e: int| !#[trigger] is_first_origin(dfg, e, id),
        },
    decreases dfg.edges@.len() - from,
{
    let rest = dfg.edges@.skip(from);
    if from < dfg.edges@.len() {
        assert(rest[0] == dfg.edges@[from]);
        assert(rest.skip(1) =~= dfg.edges@.skip(from + 1));
        if ownership::tells_origin(rest[0], id) {
            assert(is_first_origin(dfg, from, id));
        } else {
            lemma_origin(dfg, id, from + 1);
        }
    }
}

proof fn lemma_first_origin_is(dfg: LocalDataflowGraph, id: DataflowNodeId, e: int)
    requires
        is_first_origin(dfg, e, id),
    ensures
        ownership::first_origin(dfg.edges@, id) == Some(dfg.edges@[e]),
{
    assert(dfg.edges@.skip(0) =~= dfg.edges@);
    lemma_origin(dfg, id, 0);
    let f = choose|f: int| #[trigger]
        is_first_origin(dfg, f, id) && Some(dfg.edges@[f]) == ownership::first_origin(
            dfg.edges@,
            id,
        );
    if f < e {
        assert(dfg.edges@[f].target == id);
    }
    if e < f {
        assert(dfg.edges@[e].target == id);
    }
}

proof fn lemma_present(dfg: LocalDataflowGraph, id: DataflowNodeId)
    ensures
        is_present(dfg, id) == dfg.spec_node(id) is Some,
{
    fact_laws::law_names_stand_for_nodes(dfg, id);
}

proof fn lemma_names_read_step(dfg: LocalDataflowGraph, edges: Seq<int>)
    requires
        edges.len() > 0,
    ensures
        names_read(dfg, edges) == match dfg.edges@[edges[0]].kind {
            DataflowEdgeKind::Load { property } => names_read(dfg, edges.skip(1)).push(property@),
            _ => names_read(dfg, edges.skip(1)),
        },
{
    let is_load = |e: int| dfg.edges@[e].kind is Load;
    let first = seq![edges[0]];
    let rest = edges.skip(1);
    assert(edges =~= first + rest);
    Seq::filter_distributes_over_add(first, rest, is_load);
    reveal(Seq::filter);
    assert(first.drop_last() =~= Seq::<int>::empty());
    assert(first.drop_last().filter(is_load) =~= Seq::<int>::empty());
    let reads = reads_among(dfg, edges);
    let later = reads_among(dfg, rest);
    if dfg.edges@[edges[0]].kind is Load {
        assert(first.filter(is_load) =~= first);
        assert(reads =~= first + later);
        assert(names_read(dfg, edges) =~= names_read(dfg, rest).push(
            dfg.edges@[edges[0]].kind->property@,
        )) by {
            assert forall|k: int| 0 <= k < reads.len() implies names_read(dfg, edges)[k] == names_read(
                dfg,
                rest,
            ).push(dfg.edges@[edges[0]].kind->property@)[k] by {
                if k < later.len() {
                    assert(reads[reads.len() - 1 - k] == later[later.len() - 1 - k]);
                } else {
                    assert(reads[0] == edges[0]);
                }
            }
        }
    } else {
        assert(first.filter(is_load) =~= Seq::<int>::empty());
        assert(reads =~= later);
    }
}

proof fn lemma_chain_path(
    dfg: LocalDataflowGraph,
    ids: Seq<DataflowNodeId>,
    edges: Seq<int>,
    steps: nat,
)
    requires
        is_chain(dfg, ids, edges),
        edges.len() < steps,
    ensures
        ownership::property_path(dfg, ids[0], steps) == Some(names_read(dfg, edges)),
    decreases edges.len(),
{
    assert(is_present(dfg, ids[0]));
    lemma_present(dfg, ids[0]);
    if edges.len() == 0 {
        reveal(Seq::filter);
        assert(edges.filter(|e: int| dfg.edges@[e].kind is Load) =~= Seq::<int>::empty());
        assert(names_read(dfg, edges) =~= Seq::<Seq<char>>::empty());
    } else {
        let rest_ids = ids.skip(1);
        let rest = edges.skip(1);
        assert(is_chain(dfg, rest_ids, rest)) by {
            assert(rest_ids.last() == ids.last());
            assert forall|k: int| 0 <= k < rest_ids.len() implies is_present(
                dfg,
                #[trigger] rest_ids[k],
            ) by {
                assert(rest_ids[k] == ids[k + 1]);
            }
            assert forall|k: int| 0 <= k < rest.len() implies rest_ids[k].kind
                != NodeOperationKind::Parameter && is_first_origin(
                dfg,
                #[trigger] rest[k],
                rest_ids[k],
            ) && dfg.edges@[rest[k]].source == rest_ids[k + 1] by {
                assert(rest[k] == edges[k + 1] && rest_ids[k] == ids[k + 1] && rest_ids[k + 1]
                    == ids[k + 2]);
            }
        }
        assert(is_first_origin(dfg, edges[0], ids[0]));
        lemma_first_origin_is(dfg, ids[0], edges[0]);
        assert(rest_ids[0] == ids[1]);
        lemma_chain_path(dfg, rest_ids, rest, (steps - 1) as nat);
        lemma_names_read_step(dfg, edges);
    }
}

proof fn lemma_path_chain(dfg: LocalDataflowGraph, id: DataflowNodeId, steps: nat) -> (chain: (
    Seq<DataflowNodeId>,
    Seq<int>,
))
    requires
        ownership::property_path(dfg, id, steps) is Some,
    ensures
        is_chain(dfg, chain.0, chain.1),
        chain.0[0] == id,
        chain.1.len() < steps,
    decreases steps,
{
    lemma_present(dfg, id);
    if id.kind is Parameter {
        (seq![id], Seq::empty())
    } else {
        assert(dfg.edges@.skip(0) =~= dfg.edges@);
        lemma_origin(dfg, id, 0);
        let edge = ownership::first_origin(dfg.edges@, id)->0;
        let e = choose|e: int| #[trigger] is_first_origin(dfg, e, id) && dfg.edges@[e] == edge;
        let (rest_ids, rest) = lemma_path_chain(dfg, edge.source, (steps - 1) as nat);
        let ids = seq![id] + rest_ids;
        let edges = seq![e] + rest;
        assert(ids.last() == rest_ids.last());
        assert forall|k: int| 0 <= k < ids.len() implies is_present(dfg, #[trigger] ids[k]) by {
            if k > 0 {
                assert(ids[k] == rest_ids[k - 1]);
            }
        }
        assert forall|k: int| 0 <= k < edges.len() implies ids[k].kind
            != NodeOperationKind::Parameter && is_first_origin(dfg, #[trigger] edges[k], ids[k])
            && dfg.edges@[edges[k]].source == ids[k + 1] by {
            assert(ids[k + 1] == rest_ids[k]);
            if k > 0 {
                assert(edges[k] == rest[k - 1] && ids[k] == rest_ids[k - 1]);
            }
        }
        (ids, edges)
    }
}

/// A value that is followed to a parameter over at most eight edges has a path:
/// the names of the properties read on the way, one for each read and no other,
/// from the parameter on.
pub proof fn law_paths_name_each_read(
    dfg: LocalDataflowGraph,
    ids: Seq<DataflowNodeId>,
    edges: Seq<int>,
)
    requires
        is_chain(dfg, ids, edges),
        edges.len() <= 8,
    ensures
        ownership::traced_path(dfg, ids[0]) == Some(names_read(dfg, edges)),
        names_read(dfg, edges).len() == reads_among(dfg, edges).len(),
        forall|result: Option<Vec<String>>| #[trigger]
            call_ensures(trace_property_path, (&dfg, &ids[0]), result) ==> result is Some
                && result->0@.len() == reads_among(dfg, edges).len() && forall|k: int|
                0 <= k < result->0@.len() ==> (#[trigger] result->0@[k])@
                    == dfg.edges@[reads_among(dfg, edges)[result->0@.len() - 1
                    - k]].kind->property@,
{
    lemma_chain_path(dfg, ids, edges, 9);
    assert forall|result: Option<Vec<String>>| #[trigger]
        call_ensures(trace_property_path, (&dfg, &ids[0]), result) implies result is Some
        && result->0@.len() == reads_among(dfg, edges).len() && forall|k: int|
        0 <= k < result->0@.len() ==> (#[trigger] result->0@[k])@ == dfg.edges@[reads_among(
            dfg,
            edges,
        )[result->0@.len() - 1 - k]].kind->property@ by {
        let path = result->0;
        assert(ownership::texts(path@) == names_read(dfg, edges));
        assert forall|k: int| 0 <= k < path@.len() implies (#[trigger] path@[k])@
            == dfg.edges@[reads_among(dfg, edges)[path@.len() - 1 - k]].kind->property@ by {
            assert(ownership::texts(path@)[k] == names_read(dfg, edges)[k]);
        }
    }
}

/// A value that cannot be followed to a parameter over at most eight edges has no
/// path.
pub proof fn law_paths_end_at_parameters(dfg: LocalDataflowGraph, id: DataflowNodeId)
    requires
        forall|ids: Seq<DataflowNodeId>, edges: Seq<int>| #[trigger]
            is_chain(dfg, ids, edges) && ids[0] == id ==> edges.len() > 8,
    ensures
        ownership::traced_path(dfg, id) is None,
        forall|result: Option<Vec<String>>| #[trigger]
            call_ensures(trace_property_path, (&dfg, &id), result) ==> result is None,
        MAX_DEPTH == 8,
{
    if ownership::traced_path(dfg, id) is Some {
        let (ids, edges) = lemma_path_chain(dfg, id, 9);
        assert(is_chain(dfg, ids, edges));
    }
}

/// Strings stand for their characters, one for one.
pub proof fn law_texts_are_those_of_the_strings(strings: Seq<String>, i: int)
    requires
        0 <= i < strings.len(),
    ensures
        ownership::texts(strings).len() == strings.len(),
        ownership::texts(strings)[i] == strings[i]@,
{
}

/// A path through the request's parameters and one through the session are a pair
/// exactly if they end at properties of the same name, however long they are and
/// whatever lies between.
pub proof fn law_pairs_end_alike(
    p: Seq<Seq<char>>,
    x: Seq<char>,
    s: Seq<Seq<char>>,
    y: Seq<char>,
)
    ensures
        ownership::is_ownership_pair(seq!["params"@] + p + seq![x], seq!["session"@] + s + seq![y])
            <==> x == y,
        ownership::is_ownership_pair(seq!["session"@] + s + seq![y], seq!["params"@] + p + seq![x])
            <==> x == y,
{
    let a = seq!["params"@] + p + seq![x];
    let b = seq!["session"@] + s + seq![y];
    assert(a[0] == "params"@ && a.last() == x);
    assert(b[0] == "session"@ && b.last() == y);
    reveal_strlit("params");
    reveal_strlit("session");
    assert("params"@.len() != "session"@.len());
}

/// No other two paths are a pair: one starts at the request's parameters, the
/// other at the session, and they end alike.
pub proof fn law_pairs_start_apart(a: Seq<Seq<char>>, b: Seq<Seq<char>>)
    requires
        ownership::is_ownership_pair(a, b),
    ensures
        a.len() > 0,
        b.len() > 0,
        a[0] == "params"@ && b[0] == "session"@ || a[0] == "session"@ && b[0] == "params"@,
        a[a.len() - 1] == b[b.len() - 1],
{
}

/// Node number `n` is the first binary operation at the syntax node.
pub open spec fn is_first_operation(dfg: LocalDataflowGraph, n: int, cond_nid: u32) -> bool {
    &&& 0 <= n < dfg.nodes@.len()
    &&& dfg.nodes@[n].id.location.node_id == cond_nid
    &&& dfg.nodes@[n].id.kind == NodeOperationKind::BinaryOp
    &&& forall|m: int|
        0 <= m < n && (#[trigger] dfg.nodes@[m]).id.location.node_id == cond_nid
            ==> dfg.nodes@[m].id.kind != NodeOperationKind::BinaryOp
}

/// Edge number `e` leads from an operand to `id`.
pub open spec fn is_operand(dfg: LocalDataflowGraph, e: int, id: DataflowNodeId) -> bool {
    &&& 0 <= e < dfg.edges@.len()
    &&& dfg.edges@[e].target == id
    &&& dfg.edges@[e].kind == DataflowEdgeKind::Derivation
}

proof fn lemma_first_operation(nodes: Seq<DataflowNode>, cond_nid: u32, n: int)
    requires
        0 <= n < nodes.len(),
        nodes[n].id.location.node_id == cond_nid,
        nodes[n].id.kind == NodeOperationKind::BinaryOp,
        forall|m: int|
            0 <= m < n && (#[trigger] nodes[m]).id.location.node_id == cond_nid ==> nodes[m].id.kind
                != NodeOperationKind::BinaryOp,
    ensures
        ownership::first_comparison(nodes, cond_nid) == Some(nodes[n].id),
    decreases nodes.len(),
{
    if n > 0 {
        assert(nodes[0].id.location.node_id == cond_nid ==> nodes[0].id.kind
            != NodeOperationKind::BinaryOp);
        let rest = nodes.skip(1);
        assert(rest[n - 1] == nodes[n]);
        assert forall|m: int|
            0 <= m < n - 1 && (#[trigger] rest[m]).id.location.node_id
                == cond_nid implies rest[m].id.kind != NodeOperationKind::BinaryOp by {
            assert(rest[m] == nodes[m + 1]);
        }
        lemma_first_operation(rest, cond_nid, n - 1);
    }
}

proof fn lemma_no_operation(nodes: Seq<DataflowNode>, cond_nid: u32)
    requires
        forall|m: int|
            0 <= m < nodes.len() && (#[trigger] nodes[m]).id.location.node_id == cond_nid
                ==> nodes[m].id.kind != NodeOperationKind::BinaryOp,
    ensures
        ownership::first_comparison(nodes, cond_nid) is None,
    decreases nodes.len(),
{
    if nodes.len() > 0 {
        assert(nodes[0].id.location.node_id == cond_nid ==> nodes[0].id.kind
            != NodeOperationKind::BinaryOp);
        let rest = nodes.skip(1);
        assert forall|m: int|
            0 <= m < rest.len() && (#[trigger] rest[m]).id.location.node_id
                == cond_nid implies rest[m].id.kind != NodeOperationKind::BinaryOp by {
            assert(rest[m] == nodes[m + 1]);
        }
        lemma_no_operation(rest, cond_nid);
    }
}

/// How many operands come before edge number `n`.
spec fn operand_count(dfg: LocalDataflowGraph, id: DataflowNodeId, n: int) -> nat
    decreases n,
{
    if n <= 0 {
        0
    } else if is_operand(dfg, n - 1, id) {
        operand_count(dfg, id, n - 1) + 1
    } else {
        operand_count(dfg, id, n - 1)
    }
}

proof fn lemma_operand_at(dfg: LocalDataflowGraph, id: DataflowNodeId, n: int)
    requires
        0 <= n <= dfg.edges@.len(),
    ensures
        ownership::operands(dfg.edges@.take(n), id).len() == operand_count(dfg, id, n),
        forall|e: int|
            0 <= e < n && #[trigger] is_operand(dfg, e, id) ==> operand_count(dfg, id, e)
                < operand_count(dfg, id, n) && ownership::operands(
                dfg.edges@.take(n),
                id,
            )[operand_count(dfg, id, e) as int] == dfg.edges@[e].source,
    decreases n,
{
    if n > 0 {
        assert(dfg.edges@.take(n).drop_last() =~= dfg.edges@.take(n - 1));
        assert(dfg.edges@.take(n).last() == dfg.edges@[n - 1]);
        lemma_operand_at(dfg, id, n - 1);
        assert(is_operand(dfg, n - 1, id) <==> dfg.edges@[n - 1].target == id && dfg.edges@[n
            - 1].kind is Derivation);
        let before = ownership::operands(dfg.edges@.take(n - 1), id);
        assert(ownership::operands(dfg.edges@.take(n), id) == if is_operand(dfg, n - 1, id) {
            before.push(dfg.edges@[n - 1].source)
        } else {
            before
        });
    }
}

/// The operand counts of two stretches differ by the operands between them.
proof fn lemma_operand_count(
    dfg: LocalDataflowGraph,
    id: DataflowNodeId,
    from: int,
    to: int,
)
    requires
        0 <= from <= to,
        forall|e: int| from <= e < to ==> !#[trigger] is_operand(dfg, e, id),
    ensures
        operand_count(dfg, id, to) == operand_count(dfg, id, from),
    decreases to - from,
{
    if from < to {
        assert(!is_operand(dfg, to - 1, id));
        lemma_operand_count(dfg, id, from, to - 1);
    }
}

proof fn lemma_operand_count_grows(
    dfg: LocalDataflowGraph,
    id: DataflowNodeId,
    from: int,
    to: int,
)
    requires
        0 <= from <= to,
    ensures
        operand_count(dfg, id, from) <= operand_count(dfg, id, to),
    decreases to - from,
{
    if from < to {
        lemma_operand_count_grows(dfg, id, from, to - 1);
    }
}

proof fn lemma_two_operands(dfg: LocalDataflowGraph, id: DataflowNodeId, e: int, f: int)
    requires
        e < f,
        is_operand(dfg, e, id),
        is_operand(dfg, f, id),
        forall|g: int| #[trigger] is_operand(dfg, g, id) ==> g == e || g == f,
    ensures
        ownership::operands(dfg.edges@, id) == seq![dfg.edges@[e].source, dfg.edges@[f].source],
{
    let all = dfg.edges@.len() as int;
    lemma_operand_count(dfg, id, 0, e);
    lemma_operand_count(dfg, id, e + 1, f);
    lemma_operand_count(dfg, id, f + 1, all);
    assert(operand_count(dfg, id, e + 1) == 1);
    assert(operand_count(dfg, id, f + 1) == 2);
    lemma_operand_at(dfg, id, all);
    assert(dfg.edges@.take(all) =~= dfg.edges@);
    let found = ownership::operands(dfg.edges@, id);
    assert(found[0] == dfg.edges@[e].source);
    assert(found[1] == dfg.edges@[f].source);
    assert(found =~= seq![dfg.edges@[e].source, dfg.edges@[f].source]);
}

/// A binary operation with two operands is an ownership check exactly if both
/// operands have a path, one from the request's parameters, the other from the
/// session, and the paths end alike.
pub proof fn law_comparisons_check_owners_by_their_paths(
    dfg: LocalDataflowGraph,
    cond_nid: u32,
    n: int,
    e: int,
    f: int,
)
    requires
        is_first_operation(dfg, n, cond_nid),
        e < f,
        is_operand(dfg, e, dfg.nodes@[n].id),
        is_operand(dfg, f, dfg.nodes@[n].id),
        forall|g: int| #[trigger] is_operand(dfg, g, dfg.nodes@[n].id) ==> g == e || g == f,
    ensures
        ownership::is_ownership_check(dfg, cond_nid) <==> {
            &&& ownership::traced_path(dfg, dfg.edges@[e].source) matches Some(a)
            &&& ownership::traced_path(dfg, dfg.edges@[f].source) matches Some(b)
            &&& a.len() > 0
            &&& b.len() > 0
            &&& a[0] == "params"@ && b[0] == "session"@ || a[0] == "session"@ && b[0] == "params"@
            &&& a[a.len() - 1] == b[b.len() - 1]
        },
{
    lemma_first_operation(dfg.nodes@, cond_nid, n);
    lemma_two_operands(dfg, dfg.nodes@[n].id, e, f);
}

/// A condition that compares a value read from the request's parameters with one
/// read from the session, in either order, is an ownership check exactly if the
/// last properties read have the same name.
pub proof fn law_owners_are_compared_by_the_last_name(
    dfg: LocalDataflowGraph,
    cond_nid: u32,
    n: int,
    e: int,
    f: int,
    a: (Seq<DataflowNodeId>, Seq<int>),
    b: (Seq<DataflowNodeId>, Seq<int>),
    is_check: bool,
)
    requires
        is_first_operation(dfg, n, cond_nid),
        e != f,
        is_operand(dfg, e, dfg.nodes@[n].id),
        is_operand(dfg, f, dfg.nodes@[n].id),
        forall|g: int| #[trigger] is_operand(dfg, g, dfg.nodes@[n].id) ==> g == e || g == f,
        is_chain(dfg, a.0, a.1),
        is_chain(dfg, b.0, b.1),
        a.0[0] == dfg.edges@[e].source,
        b.0[0] == dfg.edges@[f].source,
        a.1.len() <= 8,
        b.1.len() <= 8,
        reads_among(dfg, a.1).len() > 0,
        reads_among(dfg, b.1).len() > 0,
        dfg.edges@[reads_among(dfg, a.1).last()].kind->property@ == "params"@,
        dfg.edges@[reads_among(dfg, b.1).last()].kind->property@ == "session"@,
        call_ensures(condition_is_ownership_check, (&dfg, cond_nid), is_check),
    ensures
        is_check <==> dfg.edges@[reads_among(dfg, a.1)[0]].kind->property@
            == dfg.edges@[reads_among(dfg, b.1)[0]].kind->property@,
{
    law_paths_name_each_read(dfg, a.0, a.1);
    law_paths_name_each_read(dfg, b.0, b.1);
    if e < f {
        law_comparisons_check_owners_by_their_paths(dfg, cond_nid, n, e, f);
    } else {
        law_comparisons_check_owners_by_their_paths(dfg, cond_nid, n, f, e);
    }
    reveal_strlit("params");
    reveal_strlit("session");
    assert("params"@.len() != "session"@.len());
}

/// A condition without a binary operation is no ownership check.
pub proof fn law_only_operations_check_owners(dfg: LocalDataflowGraph, cond_nid: u32)
    requires
        forall|n: int|
            0 <= n < dfg.nodes@.len() && (#[trigger] dfg.nodes@[n]).id.location.node_id == cond_nid
                ==> dfg.nodes@[n].id.kind != NodeOperationKind::BinaryOp,
    ensures
        !ownership::is_ownership_check(dfg, cond_nid),
        forall|is_check: bool| #[trigger]
            call_ensures(condition_is_ownership_check, (&dfg, cond_nid), is_check) ==> !is_check,
{
    lemma_no_operation(dfg.nodes@, cond_nid);
}

/// An operation with more than two operands is no ownership check.
pub proof fn law_three_operands_check_nothing(
    dfg: LocalDataflowGraph,
    cond_nid: u32,
    n: int,
    e: int,
    f: int,
    g: int,
)
    requires
        is_first_operation(dfg, n, cond_nid),
        e < f < g,
        is_operand(dfg, e, dfg.nodes@[n].id),
        is_operand(dfg, f, dfg.nodes@[n].id),
        is_operand(dfg, g, dfg.nodes@[n].id),
    ensures
        !ownership::is_ownership_check(dfg, cond_nid),
        forall|is_check: bool| #[trigger]
            call_ensures(condition_is_ownership_check, (&dfg, cond_nid), is_check) ==> !is_check,
{
    let id = dfg.nodes@[n].id;
    let all = dfg.edges@.len() as int;
    lemma_first_operation(dfg.nodes@, cond_nid, n);
    lemma_operand_at(dfg, id, all);
    lemma_operand_at(dfg, id, g);
    lemma_operand_at(dfg, id, f);
    assert(dfg.edges@.take(all) =~= dfg.edges@);
    assert(operand_count(dfg, id, e) < operand_count(dfg, id, f));
    assert(operand_count(dfg, id, f) < operand_count(dfg, id, g));
    assert(operand_count(dfg, id, g) < operand_count(dfg, id, all));
}

/// An operation with fewer than two operands is no ownership check.
pub proof fn law_one_operand_checks_nothing(dfg: LocalDataflowGraph, cond_nid: u32, n: int, e: int)
    requires
        is_first_operation(dfg, n, cond_nid),
        forall|g: int| #[trigger] is_operand(dfg, g, dfg.nodes@[n].id) ==> g == e,
    ensures
        !ownership::is_ownership_check(dfg, cond_nid),
        forall|is_check: bool| #[trigger]
            call_ensures(condition_is_ownership_check, (&dfg, cond_nid), is_check) ==> !is_check,
{
    let id = dfg.nodes@[n].id;
    let all = dfg.edges@.len() as int;
    lemma_first_operation(dfg.nodes@, cond_nid, n);
    lemma_operand_at(dfg, id, all);
    assert(dfg.edges@.take(all) =~= dfg.edges@);
    if is_operand(dfg, e, id) {
        lemma_operand_count(dfg, id, 0, e);
        lemma_operand_count(dfg, id, e + 1, all);
    } else {
        lemma_operand_count(dfg, id, 0, all);
    }
}

/// A block is found to be guarded exactly if one of its dominators, another block,
/// ends in an ownership check. Which way the check came out does not matter.
pub proof fn law_owners_are_checked_in_dominators(
    cfg: CfgQueryEngine,
    dfg: LocalDataflowGraph,
    block: usize,
)
    ensures
        ownership::ownership_guarded(cfg, dfg, block) <==> exists|d: int|
            #[trigger] checks_owner_at(cfg, dfg, block, d),
        forall|is_guarded: bool| #[trigger]
            call_ensures(block_is_ownership_guarded, (&cfg, &dfg, block), is_guarded) ==> (
            is_guarded <==> exists|d: int| #[trigger] checks_owner_at(cfg, dfg, block, d)),
{
    if ownership::ownership_guarded(cfg, dfg, block) {
        let d = choose|d: int|
            0 <= d < cfg.spec_dominators(block).len() && ownership::dominator_checks_owner(
                cfg,
                dfg,
                #[trigger] cfg.spec_dominators(block)[d],
                block,
            );
        assert(checks_owner_at(cfg, dfg, block, d));
    }
    if exists|d: int| #[trigger] checks_owner_at(cfg, dfg, block, d) {
        let d = choose|d: int| #[trigger] checks_owner_at(cfg, dfg, block, d);
        assert(ownership::dominator_checks_owner(
            cfg,
            dfg,
            cfg.spec_dominators(block)[d],
            block,
        ));
    }
}

/// The dominator number `d` of the block is another block, and ends in an ownership
/// check.
pub open spec fn checks_owner_at(
    cfg: CfgQueryEngine,
    dfg: LocalDataflowGraph,
    block: usize,
    d: int,
) -> bool {
    &&& block < cfg.blocks@.len()
    &&& 0 <= d < cfg.blocks@[block as int].dominators@.len()
    &&& cfg.blocks@[block as int].dominators@[d] != block
    &&& cfg.blocks@[block as int].dominators@[d] < cfg.blocks@.len()
    &&& cfg.blocks@[cfg.blocks@[block as int].dominators@[d] as int].condition matches Some(
        condition,
    )
    &&& ownership::is_ownership_check(dfg, condition)
}

} // verus!

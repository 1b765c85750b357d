//! Whether a block only runs for the owner of the requested resource.

use vstd::prelude::*;

use crate::control_flow::CfgQueryEngine;
use crate::graph::{DataflowEdge, DataflowEdgeKind, DataflowNode, LocalDataflowGraph};
use crate::id_set::NodeSet;
use crate::ids::{DataflowNodeId, NodeOperationKind};
use crate::value::text_is;

verus! {

/// How many steps a path is followed before it is given up.
pub const MAX_DEPTH: u32 = 8;

/// The characters of each string.
pub open spec fn texts(strings: Seq<String>) -> Seq<Seq<char>> {
    Seq::new(strings.len(), |i: int| strings[i]@)
}

/// The edge tells where the value of `id` comes from: the value flows in, or it
/// is read from a property.
pub open spec fn tells_origin(edge: DataflowEdge, id: DataflowNodeId) -> bool {
    edge.target == id && (edge.kind is DirectFlow || edge.kind is Load)
}

/// The first edge that tells where the value of `id` comes from.
pub open spec fn first_origin(edges: Seq<DataflowEdge>, id: DataflowNodeId) -> Option<DataflowEdge>
    decreases edges.len(),
{
    if edges.len() == 0 {
        None
    } else if tells_origin(edges[0], id) {
        Some(edges[0])
    } else {
        first_origin(edges.skip(1), id)
    }
}

/// The names of the properties through which a value is reached from a
/// parameter, from the parameter on. There are none where the walk ends before a
/// parameter, or where `steps` nodes do not lead to one.
pub open spec fn property_path(dfg: LocalDataflowGraph, id: DataflowNodeId, steps: nat) -> Option<
    Seq<Seq<char>>,
>
    decreases steps,
{
    if steps == 0 || dfg.spec_node(id) is None {
        None
    } else if id.kind is Parameter {
        Some(Seq::empty())
    } else {
        match first_origin(dfg.edges@, id) {
            None => None,
            Some(edge) => match property_path(dfg, edge.source, (steps - 1) as nat) {
                None => None,
                Some(path) => match edge.kind {
                    DataflowEdgeKind::Load { property } => Some(path.push(property@)),
                    _ => Some(path),
                },
            },
        }
    }
}

/// The path of a value, within the number of steps that a path is followed.
pub open spec fn traced_path(dfg: LocalDataflowGraph, id: DataflowNodeId) -> Option<
    Seq<Seq<char>>,
> {
    property_path(dfg, id, (MAX_DEPTH + 1) as nat)
}

/// A walk goes on from one node to the other.
pub open spec fn follows(
    dfg: LocalDataflowGraph,
    from: DataflowNodeId,
    to: DataflowNodeId,
) -> bool {
    &&& dfg.spec_node(from) is Some
    &&& !(from.kind is Parameter)
    &&& first_origin(dfg.edges@, from) matches Some(edge)
    &&& edge.source == to
}

/// The nodes lie on a ring: a walk goes on from each to the next, and from the
/// last to the first.
pub open spec fn is_ring(dfg: LocalDataflowGraph, ring: Seq<DataflowNodeId>) -> bool {
    &&& ring.len() > 0
    &&& forall|i: int, j: int|
        #![trigger ring[i], ring[j]]
        0 <= i < ring.len() - 1 && j == i + 1 ==> follows(dfg, ring[i], ring[j])
    &&& follows(dfg, ring.last(), ring[0])
}

/// A value that flows round in a ring has no path, however far it is followed.
pub proof fn law_ring_has_no_path(
    dfg: LocalDataflowGraph,
    ring: Seq<DataflowNodeId>,
    i: int,
    steps: nat,
)
    requires
        is_ring(dfg, ring),
        0 <= i < ring.len(),
    ensures
        property_path(dfg, ring[i], steps) is None,
    decreases steps,
{
    if steps > 0 {
        if i < ring.len() - 1 {
            assert(follows(dfg, ring[i], ring[i + 1]));
            law_ring_has_no_path(dfg, ring, i + 1, (steps - 1) as nat);
        } else {
            law_ring_has_no_path(dfg, ring, 0, (steps - 1) as nat);
        }
    }
}

proof fn lemma_first_origin(edges: Seq<DataflowEdge>, id: DataflowNodeId, e: int)
    requires
        0 <= e < edges.len(),
        tells_origin(edges[e], id),
        forall|f: int| 0 <= f < e ==> !tells_origin(#[trigger] edges[f], id),
    ensures
        first_origin(edges, id) == Some(edges[e]),
    decreases edges.len(),
{
    if e > 0 {
        let rest = edges.skip(1);
        assert forall|f: int| 0 <= f < e - 1 implies !tells_origin(#[trigger] rest[f], id) by {
            assert(rest[f] == edges[f + 1]);
        }
        assert(rest[e - 1] == edges[e]);
        lemma_first_origin(rest, id, e - 1);
    }
}

proof fn lemma_no_origin(edges: Seq<DataflowEdge>, id: DataflowNodeId)
    requires
        forall|f: int| 0 <= f < edges.len() ==> !tells_origin(#[trigger] edges[f], id),
    ensures
        first_origin(edges, id) is None,
    decreases edges.len(),
{
    if edges.len() > 0 {
        let rest = edges.skip(1);
        assert forall|f: int| 0 <= f < rest.len() implies !tells_origin(#[trigger] rest[f], id) by {
            assert(rest[f] == edges[f + 1]);
        }
        lemma_no_origin(rest, id);
    }
}

/// Finds the first edge that tells where a value comes from.
fn origin_of<'a>(dfg: &'a LocalDataflowGraph, id: &DataflowNodeId) -> (origin: Option<
    &'a DataflowEdge,
>)
    ensures
        origin is Some == first_origin(dfg.edges@, *id) is Some,
        origin matches Some(edge) ==> first_origin(dfg.edges@, *id) == Some(*edge),
{
    let reverse_edges = dfg.get_reverse_edges(id);
    let mut i: usize = 0;
    while i < reverse_edges.len()
        invariant
            i <= reverse_edges@.len(),
            forall|k: int|
                0 <= k < reverse_edges@.len() ==> #[trigger] reverse_edges@[k] < dfg.edges@.len()
                    && dfg.edges@[reverse_edges@[k] as int].target == *id,
            forall|k: int, l: int|
                0 <= k < l < reverse_edges@.len() ==> reverse_edges@[k] < reverse_edges@[l],
            forall|e: int|
                0 <= e < dfg.edges@.len() && (#[trigger] dfg.edges@[e]).target == *id
                    ==> exists|k: int|
                    0 <= k < reverse_edges@.len() && #[trigger] reverse_edges@[k] == e,
            forall|k: int|
                0 <= k < i ==> !tells_origin(
                    dfg.edges@[#[trigger] reverse_edges@[k] as int],
                    *id,
                ),
        decreases reverse_edges@.len() - i,
    {
        let edge = dfg.get_edge(reverse_edges[i]);
        let tells = match &edge.kind {
            DataflowEdgeKind::DirectFlow => true,
            DataflowEdgeKind::Load { .. } => true,
            _ => false,
        };
        if tells {
            proof {
                let e = reverse_edges@[i as int] as int;
                assert forall|f: int| 0 <= f < e implies !tells_origin(
                    #[trigger] dfg.edges@[f],
                    *id,
                ) by {
                    if dfg.edges@[f].target == *id {
                        let k = choose|k: int|
                            0 <= k < reverse_edges@.len() && #[trigger] reverse_edges@[k] == f;
                        if k > i {
                            assert(reverse_edges@[i as int] < reverse_edges@[k]);
                        }
                    }
                }
                lemma_first_origin(dfg.edges@, *id, e);
            }
            return Some(edge);
        }
        i += 1;
    }
    proof {
        assert forall|f: int| 0 <= f < dfg.edges@.len() implies !tells_origin(
            #[trigger] dfg.edges@[f],
            *id,
        ) by {
            if dfg.edges@[f].target == *id {
                let k = choose|k: int|
                    0 <= k < reverse_edges@.len() && #[trigger] reverse_edges@[k] == f;
                assert(!tells_origin(dfg.edges@[reverse_edges@[k] as int], *id));
            }
        }
        lemma_no_origin(dfg.edges@, *id);
    }
    None
}

/// Turns a list of strings round.
fn reversed(strings: Vec<String>) -> (result: Vec<String>)
    ensures
        result@ == strings@.reverse(),
{
    let mut rest = strings;
    let mut result: Vec<String> = Vec::new();
    while rest.len() > 0
        invariant
            rest@.len() + result@.len() == strings@.len(),
            rest@ == strings@.take(rest@.len() as int),
            forall|i: int|
                0 <= i < result@.len() ==> #[trigger] result@[i] == strings@[strings@.len() - 1
                    - i],
        decreases rest@.len(),
    {
        if let Some(last) = rest.pop() {
            result.push(last);
        }
    }
    result
}

/// The path of a node, given the rest of the path, and the names collected on
/// the way from the node to where the rest begins.
spec fn extended(rest: Option<Seq<Seq<char>>>, collected: Seq<String>) -> Option<Seq<Seq<char>>> {
    match rest {
        None => None,
        Some(path) => Some(path + texts(collected).reverse()),
    }
}

/// Follows a value back to a parameter, and gives the names of the properties on
/// the way, from the parameter on.
pub fn trace_property_path(dfg: &LocalDataflowGraph, start: &DataflowNodeId) -> (result: Option<
    Vec<String>,
>)
    ensures
        result is Some == traced_path(*dfg, *start) is Some,
        result matches Some(path) ==> traced_path(*dfg, *start) == Some(texts(path@)),
{
    let mut path: Vec<String> = Vec::new();
    let mut current: DataflowNodeId = *start;
    let mut visited = NodeSet::new();
    let mut depth: u32 = 0;
    let ghost mut chain: Seq<DataflowNodeId> = Seq::empty();
    proof {
        if let Some(whole) = traced_path(*dfg, *start) {
            assert(whole + texts(path@).reverse() =~= whole);
        }
    }
    loop
        invariant
            depth <= MAX_DEPTH + 1,
            chain.len() == depth,
            forall|id: DataflowNodeId| #[trigger]
                visited@.contains(id) <==> exists|i: int|
                    0 <= i < chain.len() && #[trigger] chain[i] == id,
            forall|i: int, j: int|
                #![trigger chain[i], chain[j]]
                0 <= i < chain.len() - 1 && j == i + 1 ==> follows(*dfg, chain[i], chain[j]),
            chain.len() > 0 ==> follows(*dfg, chain.last(), current),
            traced_path(*dfg, *start) == extended(
                property_path(*dfg, current, (MAX_DEPTH + 1 - depth) as nat),
                path@,
            ),
        decreases MAX_DEPTH + 1 - depth,
    {
        if depth > MAX_DEPTH {
            return None;
        }
        depth += 1;
        if !visited.insert(current) {
            proof {
                let first = choose|i: int| 0 <= i < chain.len() && #[trigger] chain[i] == current;
                let ring = chain.skip(first);
                assert forall|i: int, j: int|
                    #![trigger ring[i], ring[j]]
                    0 <= i < ring.len() - 1 && j == i + 1 implies follows(
                    *dfg,
                    ring[i],
                    ring[j],
                ) by {
                    assert(ring[i] == chain[first + i] && ring[j] == chain[first + j]);
                }
                assert(ring.last() == chain.last());
                law_ring_has_no_path(*dfg, ring, 0, (MAX_DEPTH + 2 - depth) as nat);
            }
            return None;
        }
        if dfg.get_node(&current).is_none() {
            return None;
        }
        if let NodeOperationKind::Parameter = current.kind {
            assert(Seq::<Seq<char>>::empty() + texts(path@).reverse() =~= texts(
                path@.reverse(),
            ));
            return Some(reversed(path));
        }
        let edge = match origin_of(dfg, &current) {
            Some(edge) => edge,
            None => return None,
        };
        let ghost before = path@;
        if let DataflowEdgeKind::Load { property } = &edge.kind {
            path.push(property.clone());
        }
        proof {
            let old_chain = chain;
            chain = chain.push(current);
            assert forall|id: DataflowNodeId| #[trigger]
                visited@.contains(id) <==> exists|i: int|
                    0 <= i < chain.len() && #[trigger] chain[i] == id by {
                if id == current {
                    assert(chain[old_chain.len() as int] == id);
                } else if exists|i: int| 0 <= i < old_chain.len() && #[trigger] old_chain[i] == id {
                    let i = choose|i: int|
                        0 <= i < old_chain.len() && #[trigger] old_chain[i] == id;
                    assert(chain[i] == id);
                }
            }
            let rest = property_path(*dfg, edge.source, (MAX_DEPTH + 1 - depth) as nat);
            if let Some(names) = rest {
                if let DataflowEdgeKind::Load { property } = &edge.kind {
                    assert(names.push(property@) + texts(before).reverse() =~= names + texts(
                        path@,
                    ).reverse());
                }
            }
        }
        current = edge.source;
    }
}

/// The first binary operation at the syntax node.
pub open spec fn first_comparison(nodes: Seq<DataflowNode>, cond_nid: u32) -> Option<
    DataflowNodeId,
>
    decreases nodes.len(),
{
    if nodes.len() == 0 {
        None
    } else if nodes[0].id.location.node_id == cond_nid && nodes[0].id.kind is BinaryOp {
        Some(nodes[0].id)
    } else {
        first_comparison(nodes.skip(1), cond_nid)
    }
}

/// The operands of `id`: where the edges come from by which its value is
/// derived, in the order of the edges.
pub open spec fn operands(edges: Seq<DataflowEdge>, id: DataflowNodeId) -> Seq<DataflowNodeId>
    decreases edges.len(),
{
    if edges.len() == 0 {
        Seq::empty()
    } else if edges.last().target == id && edges.last().kind is Derivation {
        operands(edges.drop_last(), id).push(edges.last().source)
    } else {
        operands(edges.drop_last(), id)
    }
}

/// The path starts at the given property.
pub open spec fn is_rooted_at(path: Seq<Seq<char>>, root: Seq<char>) -> bool {
    path.len() > 0 && path[0] == root
}

/// One path leads through the request's parameters, the other through the
/// session, and both end at a property of the same name.
pub open spec fn is_ownership_pair(a: Seq<Seq<char>>, b: Seq<Seq<char>>) -> bool {
    &&& {
        ||| is_rooted_at(a, "params"@) && is_rooted_at(b, "session"@)
        ||| is_rooted_at(a, "session"@) && is_rooted_at(b, "params"@)
    }
    &&& a.last() == b.last()
}

/// The condition compares the requested resource with the session's owner: it has
/// exactly two operands, both have a path, and the paths are an ownership pair.
pub open spec fn is_ownership_check(dfg: LocalDataflowGraph, cond_nid: u32) -> bool {
    match first_comparison(dfg.nodes@, cond_nid) {
        None => false,
        Some(id) => {
            let sources = operands(dfg.edges@, id);
            &&& sources.len() == 2
            &&& traced_path(dfg, sources[0]) matches Some(a)
            &&& traced_path(dfg, sources[1]) matches Some(b)
            &&& is_ownership_pair(a, b)
        },
    }
}

/// The dominator, another block, ends in a comparison of the requested resource
/// with the session's owner.
pub open spec fn dominator_checks_owner(
    cfg: CfgQueryEngine,
    dfg: LocalDataflowGraph,
    dominator: usize,
    target: usize,
) -> bool {
    &&& dominator != target
    &&& cfg.spec_condition(dominator) matches Some(condition)
    &&& is_ownership_check(dfg, condition)
}

/// Every path to the block goes through such a comparison. Which way the
/// comparison came out does not matter.
pub open spec fn ownership_guarded(
    cfg: CfgQueryEngine,
    dfg: LocalDataflowGraph,
    block: usize,
) -> bool {
    exists|d: int|
        0 <= d < cfg.spec_dominators(block).len() && dominator_checks_owner(
            cfg,
            dfg,
            #[trigger] cfg.spec_dominators(block)[d],
            block,
        )
}

/// Edges that lead elsewhere add no operand.
proof fn lemma_operands_skip(edges: Seq<DataflowEdge>, id: DataflowNodeId, from: int, to: int)
    requires
        0 <= from <= to <= edges.len(),
        forall|e: int| from <= e < to ==> (#[trigger] edges[e]).target != id,
    ensures
        operands(edges.take(to), id) == operands(edges.take(from), id),
    decreases to - from,
{
    if from < to {
        assert(edges.take(to).drop_last() =~= edges.take(to - 1));
        assert(edges.take(to).last() == edges[to - 1]);
        lemma_operands_skip(edges, id, from, to - 1);
    }
}

/// Says whether a path starts at the given property.
fn starts_at(path: &Vec<String>, root: &str) -> (starts: bool)
    ensures
        starts == is_rooted_at(texts(path@), root@),
{
    path.len() > 0 && text_is(&path[0], root)
}

/// Finds the first binary operation at a syntax node.
fn comparison_at(dfg: &LocalDataflowGraph, cond_nid: u32) -> (id: Option<DataflowNodeId>)
    ensures
        id == first_comparison(dfg.nodes@, cond_nid),
{
    assert(dfg.nodes@.skip(0) =~= dfg.nodes@);
    let mut n: usize = 0;
    while n < dfg.nodes.len()
        invariant
            n <= dfg.nodes@.len(),
            first_comparison(dfg.nodes@, cond_nid) == first_comparison(
                dfg.nodes@.skip(n as int),
                cond_nid,
            ),
        decreases dfg.nodes@.len() - n,
    {
        assert(dfg.nodes@.skip(n as int).skip(1) =~= dfg.nodes@.skip(n + 1));
        let id = dfg.nodes[n].id;
        if id.location.node_id == cond_nid && id.kind == NodeOperationKind::BinaryOp {
            return Some(id);
        }
        n += 1;
    }
    None
}

/// Lists the operands of a node.
fn operands_of(dfg: &LocalDataflowGraph, id: &DataflowNodeId) -> (sources: Vec<DataflowNodeId>)
    ensures
        sources@ == operands(dfg.edges@, *id),
{
    let mut sources: Vec<DataflowNodeId> = Vec::new();
    let reverse_edges = dfg.get_reverse_edges(id);
    let ghost mut done: int = 0;
    let mut i: usize = 0;
    while i < reverse_edges.len()
        invariant
            i <= reverse_edges@.len(),
            forall|k: int|
                0 <= k < reverse_edges@.len() ==> #[trigger] reverse_edges@[k] < dfg.edges@.len()
                    && dfg.edges@[reverse_edges@[k] as int].target == *id,
            forall|k: int, l: int|
                0 <= k < l < reverse_edges@.len() ==> reverse_edges@[k] < reverse_edges@[l],
            forall|e: int|
                0 <= e < dfg.edges@.len() && (#[trigger] dfg.edges@[e]).target == *id
                    ==> exists|k: int|
                    0 <= k < reverse_edges@.len() && #[trigger] reverse_edges@[k] == e,
            0 <= done <= dfg.edges@.len(),
            forall|k: int| 0 <= k < i ==> #[trigger] reverse_edges@[k] < done,
            forall|k: int| i <= k < reverse_edges@.len() ==> done <= #[trigger] reverse_edges@[k],
            sources@ == operands(dfg.edges@.take(done), *id),
        decreases reverse_edges@.len() - i,
    {
        let edge = dfg.get_edge(reverse_edges[i]);
        proof {
            let e = reverse_edges@[i as int] as int;
            assert forall|f: int| done <= f < e implies (#[trigger] dfg.edges@[f]).target
                != *id by {
                if dfg.edges@[f].target == *id {
                    let k = choose|k: int|
                        0 <= k < reverse_edges@.len() && #[trigger] reverse_edges@[k] == f;
                    if k > i {
                        assert(reverse_edges@[i as int] < reverse_edges@[k]);
                    }
                }
            }
            lemma_operands_skip(dfg.edges@, *id, done, e);
            assert(dfg.edges@.take(e + 1).drop_last() =~= dfg.edges@.take(e));
            assert(dfg.edges@.take(e + 1).last() == dfg.edges@[e]);
            done = e + 1;
        }
        if let DataflowEdgeKind::Derivation = &edge.kind {
            sources.push(edge.source);
        }
        i += 1;
    }
    proof {
        assert forall|f: int| done <= f < dfg.edges@.len() implies (#[trigger] dfg.edges@[f]).target
            != *id by {
            if dfg.edges@[f].target == *id {
                let k = choose|k: int|
                    0 <= k < reverse_edges@.len() && #[trigger] reverse_edges@[k] == f;
                assert(reverse_edges@[k] < done);
            }
        }
        lemma_operands_skip(dfg.edges@, *id, done, dfg.edges@.len() as int);
        assert(dfg.edges@.take(dfg.edges@.len() as int) =~= dfg.edges@);
    }
    sources
}

/// Says whether a condition compares the requested resource with the session's
/// owner.
pub fn condition_is_ownership_check(dfg: &LocalDataflowGraph, cond_nid: u32) -> (is_check: bool)
    ensures
        is_check == is_ownership_check(*dfg, cond_nid),
{
    let binop_id = match comparison_at(dfg, cond_nid) {
        Some(id) => id,
        None => return false,
    };
    let sources = operands_of(dfg, &binop_id);
    if sources.len() != 2 {
        return false;
    }
    let a = match trace_property_path(dfg, &sources[0]) {
        Some(path) => path,
        None => return false,
    };
    let b = match trace_property_path(dfg, &sources[1]) {
        Some(path) => path,
        None => return false,
    };
    let is_params_session_pair = (starts_at(&a, "params") && starts_at(&b, "session")) || (
    starts_at(&a, "session") && starts_at(&b, "params"));
    is_params_session_pair && a[a.len() - 1] == b[b.len() - 1]
}

/// Says whether every path to a block goes through a comparison of the requested
/// resource with the session's owner.
pub fn block_is_ownership_guarded(
    cfg: &CfgQueryEngine,
    dfg: &LocalDataflowGraph,
    target_block: usize,
) -> (is_guarded: bool)
    ensures
        is_guarded == ownership_guarded(*cfg, *dfg, target_block),
{
    let dominators = cfg.dominators_of(target_block);
    let mut d: usize = 0;
    while d < dominators.len()
        invariant
            dominators@ == cfg.spec_dominators(target_block),
            d <= dominators@.len(),
            forall|k: int|
                0 <= k < d ==> !dominator_checks_owner(
                    *cfg,
                    *dfg,
                    #[trigger] dominators@[k],
                    target_block,
                ),
        decreases dominators@.len() - d,
    {
        let dom_block: usize = dominators[d];
        d += 1;
        if dom_block == target_block {
            continue;
        }
        let cond_nid: u32 = match cfg.condition_of_block(dom_block) {
            Some(condition) => condition,
            None => continue,
        };
        if condition_is_ownership_check(dfg, cond_nid) {
            assert(dominator_checks_owner(
                *cfg,
                *dfg,
                cfg.spec_dominators(target_block)[d - 1],
                target_block,
            ));
            return true;
        }
    }
    false
}

} // verus!

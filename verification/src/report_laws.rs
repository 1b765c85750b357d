//! What the queries report, told by the entries, the nodes and the arguments.

use vstd::prelude::*;

use crate::auth_guard;
use crate::control_flow::CfgQueryEngine;
use crate::fact_laws;
use crate::findings;
use crate::findings::{
    args_are_passed, functions_named, idor_findings, pa_auth_bypass_findings, AuthBypassFinding,
    Check, FunctionMetadata, MemoEntry, Snapshot,
};
use crate::graph::{DataflowNode, LocalDataflowGraph, NodeOperation};
use crate::id_set::FunctionSet;
use crate::ids::GlobalNodeId;
use crate::ownership;
use crate::value::AbstractValue;

verus! {

/// Authentication is looked for nine guards deep; ownership in the dominators.
pub proof fn law_checks_guard(
    functions: Set<GlobalNodeId>,
    cfg: CfgQueryEngine,
    dfg: LocalDataflowGraph,
    block: usize,
)
    ensures
        Check::Authentication(functions).guards(cfg, dfg, block) == auth_guard::guarded(
            cfg,
            dfg,
            functions,
            block,
            9,
        ),
        Check::Ownership.guards(cfg, dfg, block) == ownership::ownership_guarded(cfg, dfg, block),
{
}

/// The arguments of an entry stand for a call if one after the first can arise,
/// whichever it is, or if there are no two.
pub proof fn law_one_argument_is_enough(args: Vec<AbstractValue>, a: int)
    requires
        args@.len() < 2 || 1 <= a < args@.len() && !args@[a].bottom,
    ensures
        findings::are_passed(args@),
        forall|passed: bool| #[trigger] call_ensures(args_are_passed, (&args,), passed) ==> passed,
{
}

/// The arguments of an entry stand for no call if there are two or more and none
/// after the first can arise.
pub proof fn law_bottom_arguments_are_not_passed(args: Vec<AbstractValue>)
    requires
        args@.len() >= 2,
        forall|a: int| 1 <= a < args@.len() ==> (#[trigger] args@[a]).bottom,
    ensures
        !findings::are_passed(args@),
        forall|passed: bool| #[trigger] call_ensures(args_are_passed, (&args,), passed) ==> !passed,
{
}

/// Function number `i` bears name number `k`.
pub open spec fn bears(
    functions: Seq<FunctionMetadata>,
    names: Seq<&str>,
    i: int,
    k: int,
) -> bool {
    &&& 0 <= i < functions.len()
    &&& 0 <= k < names.len()
    &&& functions[i].name matches Some(name)
    &&& name@ == names[k]@
}

/// The functions found are exactly those that bear one of the names.
pub proof fn law_functions_are_found_by_name(
    functions: Vec<FunctionMetadata>,
    names: &[&str],
    id: GlobalNodeId,
)
    ensures
        findings::named_functions(functions@, names@).contains(id) <==> exists|i: int, k: int|
            #[trigger] bears(functions@, names@, i, k) && functions@[i].id == id,
        forall|found: FunctionSet| #[trigger]
            call_ensures(functions_named, (&functions, names), found) ==> (found@.contains(id)
                <==> exists|i: int, k: int| #[trigger]
                bears(functions@, names@, i, k) && functions@[i].id == id),
{
    if findings::named_functions(functions@, names@).contains(id) {
        let i = choose|i: int|
            0 <= i < functions@.len() && (#[trigger] functions@[i]).id == id && findings::is_named(
                functions@[i],
                names@,
            );
        let text = functions@[i].name->0@;
        let k = choose|k: int| 0 <= k < names@.len() && (#[trigger] names@[k])@ == text;
        assert(bears(functions@, names@, i, k));
    }
    if exists|i: int, k: int| #[trigger]
        bears(functions@, names@, i, k) && functions@[i].id == id {
        let (i, k) = choose|i: int, k: int| #[trigger]
            bears(functions@, names@, i, k) && functions@[i].id == id;
        assert(names@[k]@ == functions@[i].name->0@);
        assert(findings::is_named(functions@[i], names@));
    }
}

/// Node number `j` of entry number `i` is a sink that is to be reported: the
/// entry's arguments stand for a call, its control flow and its dataflow are known,
/// and the node lies in a block that the check does not guard. The marks tell which
/// nodes are sinks.
pub open spec fn is_due(
    check: Check,
    memo: Seq<MemoEntry>,
    marks: spec_fn(int, int) -> bool,
    i: int,
    j: int,
) -> bool {
    &&& 0 <= i < memo.len()
    &&& memo[i].args@.len() < 2 || exists|a: int|
        1 <= a < memo[i].args@.len() && !(#[trigger] memo[i].args@[a]).bottom
    &&& memo[i].cfg matches Some(cfg)
    &&& memo[i].summary matches Some(summary)
    &&& summary.dataflow_graph matches Some(dfg)
    &&& 0 <= j < dfg.nodes@.len()
    &&& marks(i, j)
    &&& exists|k: int| #[trigger]
        fact_laws::is_first_place(cfg, k, dfg.nodes@[j].id.location) && !check.guards(
            cfg,
            dfg,
            cfg.points@[k].block,
        )
}

/// The finding tells of node number `j` of entry number `i`: where it is, what it
/// calls, and which entry shows it.
pub open spec fn tells(finding: AuthBypassFinding, memo: Seq<MemoEntry>, i: int, j: int) -> bool {
    let node = memo[i].summary->0.dataflow_graph->0.nodes@[j];
    &&& finding.sink_pp == node.id.location
    &&& finding.memo_key == memo[i].key
    &&& node.operation matches NodeOperation::Call { function_name, .. } ==> finding.sink_name
        == function_name
    &&& node.operation is Other ==> finding.sink_name is None
}

/// One place comes before another: in an earlier entry, or earlier in the same.
pub open spec fn comes_before(a: (int, int), b: (int, int)) -> bool {
    a.0 < b.0 || a.0 == b.0 && a.1 < b.1
}

/// The findings tell of the places, one for one.
pub open spec fn tell_of_places(
    found: Seq<AuthBypassFinding>,
    memo: Seq<MemoEntry>,
    places: Seq<(int, int)>,
) -> bool {
    &&& found.len() == places.len()
    &&& forall|r: int|
        0 <= r < places.len() ==> tells(found[r], memo, (#[trigger] places[r]).0, places[r].1)
}

/// The places are those of the first `n` entries, and of the first `m` nodes of the
/// next, that are due, each once and in order.
pub open spec fn are_the_due(
    check: Check,
    memo: Seq<MemoEntry>,
    marks: spec_fn(int, int) -> bool,
    n: int,
    m: int,
    places: Seq<(int, int)>,
) -> bool {
    &&& forall|r: int|
        0 <= r < places.len() ==> is_due(check, memo, marks, (#[trigger] places[r]).0, places[r].1)
            && comes_before(places[r], (n, m))
    &&& forall|r: int, s: int|
        0 <= r < s < places.len() ==> comes_before(#[trigger] places[r], #[trigger] places[s])
    &&& forall|i: int, j: int|
        #[trigger] is_due(check, memo, marks, i, j) && comes_before((i, j), (n, m))
            ==> places.contains((i, j))
}

/// The marks by entry and node.
pub open spec fn marked(sinks: Seq<Seq<bool>>) -> spec_fn(int, int) -> bool {
    |i: int, j: int| sinks[i][j]
}

proof fn lemma_due(
    check: Check,
    memo: Seq<MemoEntry>,
    sinks: Seq<Seq<bool>>,
    i: int,
    j: int,
)
    requires
        0 <= i < memo.len(),
    ensures
        is_due(check, memo, marked(sinks), i, j) <==> findings::is_examined(memo[i]) && {
            let dfg = findings::graph_of(memo[i])->0;
            &&& 0 <= j < dfg.nodes@.len()
            &&& sinks[i][j]
            &&& findings::is_exposed(check, memo[i].cfg->0, dfg, dfg.nodes@[j])
        },
{
    assert(marked(sinks)(i, j) == sinks[i][j]);
    if findings::is_examined(memo[i]) {
        let cfg = memo[i].cfg->0;
        let dfg = findings::graph_of(memo[i])->0;
        if 0 <= j < dfg.nodes@.len() {
            fact_laws::law_points_lie_in_blocks(cfg, dfg.nodes@[j].id.location);
        }
    }
}

/// One more node: it is reported exactly if it is due.
proof fn lemma_nodes_in_order(
    check: Check,
    memo: Seq<MemoEntry>,
    sinks: Seq<Seq<bool>>,
    n: int,
    m: nat,
    before: Seq<AuthBypassFinding>,
    places: Seq<(int, int)>,
) -> (more: Seq<(int, int)>)
    requires
        0 <= n < memo.len(),
        findings::is_examined(memo[n]),
        m <= findings::graph_of(memo[n])->0.nodes@.len(),
        are_the_due(check, memo, marked(sinks), n, 0, places),
        tell_of_places(before, memo, places),
    ensures
        are_the_due(check, memo, marked(sinks), n, m as int, more),
        tell_of_places(
            before + findings::node_reports(
                check,
                memo[n].cfg->0,
                findings::graph_of(memo[n])->0,
                memo[n].key,
                sinks[n],
                m,
            ),
            memo,
            more,
        ),
    decreases m,
{
    let cfg = memo[n].cfg->0;
    let dfg = findings::graph_of(memo[n])->0;
    let key = memo[n].key;
    let found = before + findings::node_reports(check, cfg, dfg, key, sinks[n], m);
    if m == 0 {
        assert(found =~= before);
        places
    } else {
        let j = (m - 1) as int;
        let less = lemma_nodes_in_order(check, memo, sinks, n, j as nat, before, places);
        let earlier = before + findings::node_reports(check, cfg, dfg, key, sinks[n], j as nat);
        lemma_due(check, memo, sinks, n, j);
        let node = dfg.nodes@[j];
        if is_due(check, memo, marked(sinks), n, j) {
            let more = less.push((n, j));
            assert(found =~= earlier.push(findings::finding_of(key, node)));
            lemma_one_more(check, memo, marked(sinks), n, j, less);
            assert forall|r: int| 0 <= r < more.len() implies tells(
                found[r],
                memo,
                (#[trigger] more[r]).0,
                more[r].1,
            ) by {
                if r < less.len() {
                    assert(more[r] == less[r]);
                    assert(found[r] == earlier[r]);
                }
            }
            more
        } else {
            assert(found =~= earlier);
            assert forall|i: int, k: int| #[trigger]
                is_due(check, memo, marked(sinks), i, k) && comes_before(
                    (i, k),
                    (n, m as int),
                ) implies less.contains((i, k)) by {
                assert(comes_before((i, k), (n, j)));
            }
            less
        }
    }
}

proof fn lemma_one_more(
    check: Check,
    memo: Seq<MemoEntry>,
    marks: spec_fn(int, int) -> bool,
    n: int,
    j: int,
    less: Seq<(int, int)>,
)
    requires
        are_the_due(check, memo, marks, n, j, less),
        is_due(check, memo, marks, n, j),
    ensures
        are_the_due(check, memo, marks, n, j + 1, less.push((n, j))),
{
    let more = less.push((n, j));
    assert forall|r: int| 0 <= r < more.len() implies is_due(
        check,
        memo,
        marks,
        (#[trigger] more[r]).0,
        more[r].1,
    ) && comes_before(more[r], (n, j + 1)) by {
        if r < less.len() {
            assert(more[r] == less[r]);
        }
    }
    assert forall|r: int, s: int| 0 <= r < s < more.len() implies comes_before(
        #[trigger] more[r],
        #[trigger] more[s],
    ) by {
        assert(more[r] == less[r]);
        if s < less.len() {
            assert(more[s] == less[s]);
        }
    }
    assert forall|i: int, k: int| #[trigger]
        is_due(check, memo, marks, i, k) && comes_before(
            (i, k),
            (n, j + 1),
        ) implies more.contains((i, k)) by {
        if comes_before((i, k), (n, j)) {
            let r = choose|r: int| 0 <= r < less.len() && less[r] == (i, k);
            assert(more[r] == (i, k));
        } else {
            assert(more[less.len() as int] == (i, k));
        }
    }
}

proof fn lemma_reports_in_order(
    check: Check,
    memo: Seq<MemoEntry>,
    sinks: Seq<Seq<bool>>,
    n: nat,
) -> (places: Seq<(int, int)>)
    requires
        n <= memo.len(),
    ensures
        are_the_due(check, memo, marked(sinks), n as int, 0, places),
        tell_of_places(findings::reports(check, memo, sinks, n), memo, places),
    decreases n,
{
    if n == 0 {
        Seq::empty()
    } else {
        let i = (n - 1) as int;
        let places = lemma_reports_in_order(check, memo, sinks, i as nat);
        let before = findings::reports(check, memo, sinks, i as nat);
        let more = if findings::is_examined(memo[i]) {
            let dfg = findings::graph_of(memo[i])->0;
            let more = lemma_nodes_in_order(
                check,
                memo,
                sinks,
                i,
                dfg.nodes@.len(),
                before,
                places,
            );
            assert forall|a: int, b: int| #[trigger]
                is_due(check, memo, marked(sinks), a, b) && comes_before(
                    (a, b),
                    (n as int, 0),
                ) implies more.contains((a, b)) by {
                lemma_due(check, memo, sinks, a, b);
            }
            more
        } else {
            assert(findings::reports(check, memo, sinks, n) =~= before);
            assert forall|a: int, b: int| #[trigger]
                is_due(check, memo, marked(sinks), a, b) && comes_before(
                    (a, b),
                    (n as int, 0),
                ) implies places.contains((a, b)) by {
                lemma_due(check, memo, sinks, a, b);
            }
            places
        };
        assert forall|r: int| 0 <= r < more.len() implies is_due(
            check,
            memo,
            marked(sinks),
            (#[trigger] more[r]).0,
            more[r].1,
        ) && comes_before(more[r], (n as int, 0)) by {}
        more
    }
}

/// The reports tell of the sinks that are due, of each once, in the order of the
/// entries and, within an entry, of its nodes.
pub proof fn law_reports_tell_of_the_due(
    check: Check,
    memo: Seq<MemoEntry>,
    sinks: Seq<Seq<bool>>,
)
    ensures
        exists|places: Seq<(int, int)>| #[trigger]
            are_the_due(check, memo, marked(sinks), memo.len() as int, 0, places)
                && tell_of_places(
                findings::reports(check, memo, sinks, memo.len()),
                memo,
                places,
            ),
{
    let places = lemma_reports_in_order(check, memo, sinks, memo.len());
    assert(are_the_due(check, memo, marked(sinks), memo.len() as int, 0, places));
}

/// An entry whose control flow and dataflow are known reports each of its sinks
/// that lies in an unguarded block, if one of its arguments after the first can
/// arise, whichever it is, or if it has no two.
pub proof fn law_called_entries_report_their_sinks(
    check: Check,
    memo: Seq<MemoEntry>,
    sinks: Seq<Seq<bool>>,
    i: int,
    a: int,
    j: int,
    k: int,
)
    requires
        0 <= i < memo.len(),
        memo[i].args@.len() < 2 || 1 <= a < memo[i].args@.len() && !memo[i].args@[a].bottom,
        memo[i].cfg is Some,
        memo[i].summary is Some,
        memo[i].summary->0.dataflow_graph is Some,
        0 <= j < memo[i].summary->0.dataflow_graph->0.nodes@.len(),
        sinks[i][j],
        fact_laws::is_first_place(
            memo[i].cfg->0,
            k,
            memo[i].summary->0.dataflow_graph->0.nodes@[j].id.location,
        ),
        !check.guards(
            memo[i].cfg->0,
            memo[i].summary->0.dataflow_graph->0,
            memo[i].cfg->0.points@[k].block,
        ),
    ensures
        exists|r: int|
            0 <= r < findings::reports(check, memo, sinks, memo.len()).len() && tells(
                #[trigger] findings::reports(check, memo, sinks, memo.len())[r],
                memo,
                i,
                j,
            ),
{
    let found = findings::reports(check, memo, sinks, memo.len());
    assert(marked(sinks)(i, j));
    assert(is_due(check, memo, marked(sinks), i, j));
    let places = lemma_reports_in_order(check, memo, sinks, memo.len());
    assert(comes_before((i, j), (memo.len() as int, 0)));
    let r = choose|r: int| 0 <= r < places.len() && places[r] == (i, j);
    assert(tells(found[r], memo, places[r].0, places[r].1));
}

/// `sink` says what the test for sinks says.
pub open spec fn tests_for<F: Fn(&DataflowNode) -> bool>(
    is_sink: F,
    sink: spec_fn(DataflowNode) -> bool,
) -> bool {
    forall|node: DataflowNode, said: bool| #[trigger]
        call_ensures(is_sink, (&node,), said) ==> said == sink(node)
}

/// The marks that `sink` gives to the entries' nodes.
pub open spec fn marks_of(
    memo: Seq<MemoEntry>,
    sink: spec_fn(DataflowNode) -> bool,
) -> spec_fn(int, int) -> bool {
    |i: int, j: int| sink(memo[i].summary->0.dataflow_graph->0.nodes@[j])
}

proof fn lemma_marks<F: Fn(&DataflowNode) -> bool>(
    check: Check,
    memo: Seq<MemoEntry>,
    is_sink: F,
    sink: spec_fn(DataflowNode) -> bool,
    sinks: Seq<Seq<bool>>,
)
    requires
        tests_for(is_sink, sink),
        findings::judges_all(is_sink, memo, sinks),
    ensures
        exists|places: Seq<(int, int)>| #[trigger]
            are_the_due(check, memo, marks_of(memo, sink), memo.len() as int, 0, places)
                && tell_of_places(
                findings::reports(check, memo, sinks, memo.len()),
                memo,
                places,
            ),
{
    let places = lemma_reports_in_order(check, memo, sinks, memo.len());
    assert forall|i: int, j: int|
        is_due(check, memo, marked(sinks), i, j) == #[trigger] is_due(
            check,
            memo,
            marks_of(memo, sink),
            i,
            j,
        ) by {
        if 0 <= i < memo.len() && findings::is_examined(memo[i]) {
            assert(findings::judges(is_sink, memo[i], sinks[i]));
            let dfg = findings::graph_of(memo[i])->0;
            if 0 <= j < dfg.nodes@.len() {
                assert(call_ensures(is_sink, (&dfg.nodes@[j],), sinks[i][j]));
                assert(marked(sinks)(i, j) == marks_of(memo, sink)(i, j));
            }
        }
    }
    assert forall|r: int| 0 <= r < places.len() implies is_due(
        check,
        memo,
        marks_of(memo, sink),
        (#[trigger] places[r]).0,
        places[r].1,
    ) by {
        assert(is_due(check, memo, marked(sinks), places[r].0, places[r].1));
    }
    assert forall|i: int, j: int| #[trigger]
        is_due(check, memo, marks_of(memo, sink), i, j) && comes_before(
            (i, j),
            (memo.len() as int, 0),
        ) implies places.contains((i, j)) by {
        assert(is_due(check, memo, marked(sinks), i, j));
    }
    assert(are_the_due(check, memo, marks_of(memo, sink), memo.len() as int, 0, places));
}

/// The ownership query tells of exactly the sinks that may run without an ownership
/// check, of each once and in order.
pub proof fn law_ownership_query_tells_of_the_due<F: Fn(&DataflowNode) -> bool>(
    snapshot: Snapshot,
    is_sink: F,
    sink: spec_fn(DataflowNode) -> bool,
    found: Vec<AuthBypassFinding>,
)
    requires
        tests_for(is_sink, sink),
        call_ensures(idor_findings::<F>, (&snapshot, is_sink), found),
    ensures
        exists|places: Seq<(int, int)>| #[trigger]
            are_the_due(
                Check::Ownership,
                snapshot.memo@,
                marks_of(snapshot.memo@, sink),
                snapshot.memo@.len() as int,
                0,
                places,
            ) && tell_of_places(found@, snapshot.memo@, places),
{
    let sinks = choose|sinks: Seq<Seq<bool>>| #[trigger]
        findings::judges_all(is_sink, snapshot.memo@, sinks) && found@ == findings::reports(
            Check::Ownership,
            snapshot.memo@,
            sinks,
            snapshot.memo@.len(),
        );
    lemma_marks(Check::Ownership, snapshot.memo@, is_sink, sink, sinks);
}

/// The authentication query tells of exactly the sinks that may run without a
/// successful call of a function that bears one of the names, of each once and in
/// order.
pub proof fn law_authentication_query_tells_of_the_due<F: Fn(&DataflowNode) -> bool>(
    snapshot: Snapshot,
    is_sink: F,
    sink: spec_fn(DataflowNode) -> bool,
    names: &[&str],
    functions: Set<GlobalNodeId>,
    found: Vec<AuthBypassFinding>,
)
    requires
        tests_for(is_sink, sink),
        forall|id: GlobalNodeId| #[trigger]
            functions.contains(id) <==> exists|i: int, k: int| #[trigger]
                bears(snapshot.functions@, names@, i, k) && snapshot.functions@[i].id == id,
        call_ensures(pa_auth_bypass_findings::<F>, (&snapshot, is_sink, names), found),
    ensures
        exists|places: Seq<(int, int)>| #[trigger]
            are_the_due(
                Check::Authentication(functions),
                snapshot.memo@,
                marks_of(snapshot.memo@, sink),
                snapshot.memo@.len() as int,
                0,
                places,
            ) && tell_of_places(found@, snapshot.memo@, places),
{
    assert forall|id: GlobalNodeId| #[trigger] functions.contains(id) == findings::named_functions(
        snapshot.functions@,
        names@,
    ).contains(id) by {
        law_functions_are_found_by_name(snapshot.functions, names, id);
    }
    assert(functions =~= findings::named_functions(snapshot.functions@, names@));
    let check = Check::Authentication(functions);
    let sinks = choose|sinks: Seq<Seq<bool>>| #[trigger]
        findings::judges_all(is_sink, snapshot.memo@, sinks) && found@ == findings::reports(
            check,
            snapshot.memo@,
            sinks,
            snapshot.memo@.len(),
        );
    lemma_marks(check, snapshot.memo@, is_sink, sink, sinks);
}

/// Both queries can be put wherever the test for sinks can be put to each node.
pub proof fn law_queries_can_be_put<F: Fn(&DataflowNode) -> bool>(
    snapshot: Snapshot,
    is_sink: F,
    names: &[&str],
)
    requires
        forall|i: int, j: int|
            0 <= i < snapshot.memo@.len() && snapshot.memo@[i].summary is Some
                && snapshot.memo@[i].summary->0.dataflow_graph is Some && 0 <= j
                < snapshot.memo@[i].summary->0.dataflow_graph->0.nodes@.len() ==> call_requires(
                is_sink,
                (&#[trigger] snapshot.memo@[i].summary->0.dataflow_graph->0.nodes@[j],),
            ),
    ensures
        call_requires(idor_findings::<F>, (&snapshot, is_sink)),
        call_requires(pa_auth_bypass_findings::<F>, (&snapshot, is_sink, names)),
{
    assert forall|i: int| 0 <= i < snapshot.memo@.len() implies findings::can_judge(
        is_sink,
        #[trigger] snapshot.memo@[i],
    ) by {
        let entry = snapshot.memo@[i];
        if findings::is_examined(entry) {
            let dfg = findings::graph_of(entry)->0;
            assert(dfg == snapshot.memo@[i].summary->0.dataflow_graph->0);
            assert forall|j: int| 0 <= j < dfg.nodes@.len() implies call_requires(
                is_sink,
                (&#[trigger] dfg.nodes@[j],),
            ) by {
                assert(dfg.nodes@[j] == snapshot.memo@[i].summary->0.dataflow_graph->0.nodes@[j]);
            }
        }
    }
}

} // verus!

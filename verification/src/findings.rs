//! The queries: which sinks run without the check that should come first.

use vstd::prelude::*;

use crate::auth_guard;
use crate::auth_guard::pa_block_is_auth_guarded;
use crate::control_flow::CfgQueryEngine;
use crate::graph::{DataflowNode, LocalDataflowGraph, NodeOperation};
use crate::id_set::FunctionSet;
use crate::ids::{GlobalNodeId, MemoKey, ProgramPoint};
use crate::ownership;
use crate::ownership::block_is_ownership_guarded;
use crate::value::{text_is, AbstractValue};

verus! {

/// A function of the program.
#[derive(Debug, PartialEq, Eq)]
pub struct FunctionMetadata {
    /// The function.
    pub id: GlobalNodeId,
    /// Its name, where it has one.
    pub name: Option<String>,
}

/// What the analysis of a function for one argument shape came to.
#[derive(Debug, PartialEq, Eq)]
pub struct Summary {
    /// The function's dataflow graph, where one was kept.
    pub dataflow_graph: Option<LocalDataflowGraph>,
}

/// An entry of the analysis's memo table.
#[derive(Debug, PartialEq, Eq)]
pub struct MemoEntry {
    /// The function and the argument shape.
    pub key: MemoKey,
    /// The arguments of that shape.
    pub args: Vec<AbstractValue>,
    /// The function's control flow, where it is known.
    pub cfg: Option<CfgQueryEngine>,
    /// The summary, where the table holds one.
    pub summary: Option<Summary>,
}

/// What an analysis of a program left behind.
#[derive(Debug, PartialEq, Eq)]
pub struct Snapshot {
    /// The program's functions.
    pub functions: Vec<FunctionMetadata>,
    /// The memo table.
    pub memo: Vec<MemoEntry>,
}

/// A sink that runs without the check that should come first.
#[derive(Debug, PartialEq, Eq)]
pub struct AuthBypassFinding {
    /// Where the sink is.
    pub sink_pp: ProgramPoint,
    /// The name of the function that the sink calls, where it has one.
    pub sink_name: Option<String>,
    /// The summary that shows it.
    pub memo_key: MemoKey,
}

/// The check that should come before a sink.
pub enum Check {
    /// A successful call of one of the functions.
    Authentication(Set<GlobalNodeId>),
    /// A comparison of the requested resource with the session's owner.
    Ownership,
}

impl Check {
    /// The block only runs after the check.
    pub open spec fn guards(
        self,
        cfg: CfgQueryEngine,
        dfg: LocalDataflowGraph,
        block: usize,
    ) -> bool {
        match self {
            Check::Authentication(functions) => auth_guard::guarded(
                cfg,
                dfg,
                functions,
                block,
                auth_guard::rounds_left(0),
            ),
            Check::Ownership => ownership::ownership_guarded(cfg, dfg, block),
        }
    }
}

/// A check to look for.
enum GuardRule {
    Authentication(FunctionSet),
    Ownership,
}

impl View for GuardRule {
    type V = Check;

    closed spec fn view(&self) -> Check {
        match self {
            GuardRule::Authentication(functions) => Check::Authentication(functions@),
            GuardRule::Ownership => Check::Ownership,
        }
    }
}

impl GuardRule {
    /// Says whether a block only runs after the check.
    fn guards(&self, cfg: &CfgQueryEngine, dfg: &LocalDataflowGraph, block: usize) -> (r: bool)
        ensures
            r == self@.guards(*cfg, *dfg, block),
    {
        match self {
            GuardRule::Authentication(functions) => pa_block_is_auth_guarded(
                cfg,
                dfg,
                block,
                functions,
                0,
            ),
            GuardRule::Ownership => block_is_ownership_guarded(cfg, dfg, block),
        }
    }
}

/// The text is one of the names.
pub open spec fn is_listed(text: Seq<char>, names: Seq<&str>) -> bool {
    exists|k: int| 0 <= k < names.len() && (#[trigger] names[k])@ == text
}

/// The function bears one of the names.
pub open spec fn is_named(function: FunctionMetadata, names: Seq<&str>) -> bool {
    function.name matches Some(name) && is_listed(name@, names)
}

/// The functions that bear one of the names.
pub open spec fn named_functions(functions: Seq<FunctionMetadata>, names: Seq<&str>) -> Set<
    GlobalNodeId,
> {
    Set::new(
        |id: GlobalNodeId|
            exists|i: int|
                0 <= i < functions.len() && (#[trigger] functions[i]).id == id && is_named(
                    functions[i],
                    names,
                ),
    )
}

/// The arguments are those of a call that passes something beyond its first
/// argument, or that passes no more than one.
pub open spec fn are_passed(args: Seq<AbstractValue>) -> bool {
    args.len() < 2 || exists|a: int| 1 <= a < args.len() && !(#[trigger] args[a]).bottom
}

/// The entry's dataflow graph.
pub open spec fn graph_of(entry: MemoEntry) -> Option<LocalDataflowGraph> {
    match entry.summary {
        Some(summary) => summary.dataflow_graph,
        None => None,
    }
}

/// The entry is examined: it stands for a call, and both its control flow and
/// its dataflow are known.
pub open spec fn is_examined(entry: MemoEntry) -> bool {
    are_passed(entry.args@) && entry.cfg is Some && graph_of(entry) is Some
}

/// The name of the function that the node calls.
pub open spec fn called_name(node: DataflowNode) -> Option<String> {
    match node.operation {
        NodeOperation::Call { function_name, .. } => function_name,
        NodeOperation::Other => None,
    }
}

/// What is reported of a sink.
pub open spec fn finding_of(key: MemoKey, node: DataflowNode) -> AuthBypassFinding {
    AuthBypassFinding {
        sink_pp: node.id.location,
        sink_name: called_name(node),
        memo_key: key,
    }
}

/// The node lies in a block that may run without the check.
pub open spec fn is_exposed(
    check: Check,
    cfg: CfgQueryEngine,
    dfg: LocalDataflowGraph,
    node: DataflowNode,
) -> bool {
    cfg.spec_block(node.id.location) matches Some(block) && !check.guards(cfg, dfg, block)
}

/// What is reported of the first `n` nodes of an entry, where `sinks` tells
/// which nodes are sinks.
pub open spec fn node_reports(
    check: Check,
    cfg: CfgQueryEngine,
    dfg: LocalDataflowGraph,
    key: MemoKey,
    sinks: Seq<bool>,
    n: nat,
) -> Seq<AuthBypassFinding>
    decreases n,
{
    if n == 0 {
        Seq::empty()
    } else {
        let before = node_reports(check, cfg, dfg, key, sinks, (n - 1) as nat);
        let node = dfg.nodes@[n - 1];
        if sinks[n - 1] && is_exposed(check, cfg, dfg, node) {
            before.push(finding_of(key, node))
        } else {
            before
        }
    }
}

/// What is reported of an entry.
pub open spec fn entry_reports(check: Check, entry: MemoEntry, sinks: Seq<bool>) -> Seq<
    AuthBypassFinding,
> {
    if is_examined(entry) {
        let dfg = graph_of(entry)->0;
        node_reports(check, entry.cfg->0, dfg, entry.key, sinks, dfg.nodes@.len())
    } else {
        Seq::empty()
    }
}

/// What is reported of the first `n` entries.
pub open spec fn reports(
    check: Check,
    memo: Seq<MemoEntry>,
    sinks: Seq<Seq<bool>>,
    n: nat,
) -> Seq<AuthBypassFinding>
    decreases n,
{
    if n == 0 {
        Seq::empty()
    } else {
        reports(check, memo, sinks, (n - 1) as nat) + entry_reports(check, memo[n - 1], sinks[n - 1])
    }
}

/// The test for sinks can be put to each node of the entry.
pub open spec fn can_judge<F: Fn(&DataflowNode) -> bool>(is_sink: F, entry: MemoEntry) -> bool {
    is_examined(entry) ==> forall|j: int|
        0 <= j < graph_of(entry)->0.nodes@.len() ==> call_requires(
            is_sink,
            (&#[trigger] graph_of(entry)->0.nodes@[j],),
        )
}

/// The marks are what the test for sinks may say of the entry's nodes.
pub open spec fn judges<F: Fn(&DataflowNode) -> bool>(
    is_sink: F,
    entry: MemoEntry,
    sinks: Seq<bool>,
) -> bool {
    is_examined(entry) ==> sinks.len() == graph_of(entry)->0.nodes@.len() && forall|j: int|
        0 <= j < sinks.len() ==> call_ensures(
            is_sink,
            (&graph_of(entry)->0.nodes@[j],),
            #[trigger] sinks[j],
        )
}

/// The marks are what the test for sinks may say of all entries' nodes.
pub open spec fn judges_all<F: Fn(&DataflowNode) -> bool>(
    is_sink: F,
    memo: Seq<MemoEntry>,
    sinks: Seq<Seq<bool>>,
) -> bool {
    &&& sinks.len() == memo.len()
    &&& forall|i: int| 0 <= i < memo.len() ==> judges(is_sink, memo[i], #[trigger] sinks[i])
}

/// Finds the functions that bear one of the names.
pub fn functions_named(functions: &Vec<FunctionMetadata>, names: &[&str]) -> (found: FunctionSet)
    ensures
        found@ == named_functions(functions@, names@),
{
    let mut found = FunctionSet::new();
    let mut i: usize = 0;
    while i < functions.len()
        invariant
            i <= functions@.len(),
            found@ == named_functions(functions@.take(i as int), names@),
        decreases functions@.len() - i,
    {
        let mut named = false;
        if let Some(name) = &functions[i].name {
            let mut k: usize = 0;
            while k < names.len()
                invariant
                    k <= names@.len(),
                    named == is_listed(name@, names@.take(k as int)),
                decreases names@.len() - k,
            {
                let same = text_is(name, names[k]);
                proof {
                    let before = names@.take(k as int);
                    let after = names@.take(k + 1);
                    assert(after[k as int] == names@[k as int]);
                    assert forall|l: int| 0 <= l < k implies #[trigger] after[l] == before[l] by {}
                    if is_listed(name@, before) {
                        let l = choose|l: int|
                            0 <= l < before.len() && (#[trigger] before[l])@ == name@;
                        assert(after[l]@ == name@);
                    }
                }
                if same {
                    named = true;
                }
                k += 1;
            }
            assert(names@.take(names@.len() as int) =~= names@);
        }
        assert(named == is_named(functions@[i as int], names@));
        if named {
            found.insert(functions[i].id);
        }
        proof {
            let before = functions@.take(i as int);
            let after = functions@.take(i + 1);
            assert forall|j: int| 0 <= j < i implies #[trigger] after[j] == before[j] by {}
            assert(after[i as int] == functions@[i as int]);
            assert forall|id: GlobalNodeId|
                named_functions(after, names@).contains(id) <==> named_functions(
                    before,
                    names@,
                ).contains(id) || (named && functions@[i as int].id == id) by {
                if named_functions(before, names@).contains(id) {
                    let j = choose|j: int|
                        0 <= j < before.len() && (#[trigger] before[j]).id == id && is_named(
                            before[j],
                            names@,
                        );
                    assert(after[j] == before[j]);
                }
            }
        }
        i += 1;
    }
    assert(functions@.take(functions@.len() as int) =~= functions@);
    found
}

/// Says whether the arguments are those of a call.
pub fn args_are_passed(args: &Vec<AbstractValue>) -> (passed: bool)
    ensures
        passed == are_passed(args@),
{
    if args.len() < 2 {
        return true;
    }
    let mut a: usize = 1;
    while a < args.len()
        invariant
            1 <= a <= args@.len(),
            forall|b: int| 1 <= b < a ==> (#[trigger] args@[b]).bottom,
        decreases args@.len() - a,
    {
        if !args[a].bottom {
            assert(!args@[a as int].bottom);
            return true;
        }
        a += 1;
    }
    false
}

/// Reports the exposed sinks of an entry.
fn report_entry<F: Fn(&DataflowNode) -> bool>(
    rule: &GuardRule,
    entry: &MemoEntry,
    is_sink: &F,
    findings: &mut Vec<AuthBypassFinding>,
)
    requires
        can_judge(*is_sink, *entry),
    ensures
        exists|sinks: Seq<bool>| #[trigger]
            judges(*is_sink, *entry, sinks) && final(findings)@ == old(findings)@ + entry_reports(
                rule@,
                *entry,
                sinks,
            ),
{
    let ghost before = findings@;
    let ghost mut sinks: Seq<bool> = Seq::empty();
    assert(before + Seq::<AuthBypassFinding>::empty() =~= before);
    if !args_are_passed(&entry.args) {
        assert(judges(*is_sink, *entry, sinks));
        return;
    }
    let cfg = match &entry.cfg {
        Some(cfg) => cfg,
        None => {
            assert(judges(*is_sink, *entry, sinks));
            return;
        },
    };
    let dfg = match &entry.summary {
        Some(Summary { dataflow_graph: Some(dfg) }) => dfg,
        _ => {
            assert(judges(*is_sink, *entry, sinks));
            return;
        },
    };
    let mut n: usize = 0;
    while n < dfg.nodes.len()
        invariant
            n <= dfg.nodes@.len(),
            is_examined(*entry),
            entry.cfg == Some(*cfg),
            graph_of(*entry) == Some(*dfg),
            can_judge(*is_sink, *entry),
            sinks.len() == n,
            forall|j: int|
                0 <= j < n ==> call_ensures(*is_sink, (&dfg.nodes@[j],), #[trigger] sinks[j]),
            findings@ == before + node_reports(rule@, *cfg, *dfg, entry.key, sinks, n as nat),
        decreases dfg.nodes@.len() - n,
    {
        let node = &dfg.nodes[n];
        assert(graph_of(*entry)->0.nodes@[n as int] == *node);
        let sink = is_sink(node);
        proof {
            lemma_node_reports_prefix(rule@, *cfg, *dfg, entry.key, sinks, sink, n as nat);
            sinks = sinks.push(sink);
        }
        n += 1;
        if !sink {
            continue;
        }
        let block: usize = match cfg.block_containing(&node.id.location) {
            Some(block) => block,
            None => continue,
        };
        if !rule.guards(cfg, dfg, block) {
            let sink_name: Option<String> = match &node.operation {
                NodeOperation::Call { function_name: Some(name), .. } => Some(name.clone()),
                _ => None,
            };
            findings.push(
                AuthBypassFinding { sink_pp: node.id.location, sink_name, memo_key: entry.key },
            );
        }
    }
    assert(judges(*is_sink, *entry, sinks));
}

/// Marks of later nodes do not change what is reported of earlier ones.
proof fn lemma_node_reports_prefix(
    check: Check,
    cfg: CfgQueryEngine,
    dfg: LocalDataflowGraph,
    key: MemoKey,
    sinks: Seq<bool>,
    next: bool,
    n: nat,
)
    requires
        n <= sinks.len(),
    ensures
        node_reports(check, cfg, dfg, key, sinks.push(next), n) == node_reports(
            check,
            cfg,
            dfg,
            key,
            sinks,
            n,
        ),
    decreases n,
{
    if n > 0 {
        lemma_node_reports_prefix(check, cfg, dfg, key, sinks, next, (n - 1) as nat);
    }
}

/// Marks of later entries do not change what is reported of earlier ones.
proof fn lemma_reports_prefix(
    check: Check,
    memo: Seq<MemoEntry>,
    sinks: Seq<Seq<bool>>,
    next: Seq<bool>,
    n: nat,
)
    requires
        n <= sinks.len(),
    ensures
        reports(check, memo, sinks.push(next), n) == reports(check, memo, sinks, n),
    decreases n,
{
    if n > 0 {
        lemma_reports_prefix(check, memo, sinks, next, (n - 1) as nat);
    }
}

/// Reports the exposed sinks of all entries.
fn report_all<F: Fn(&DataflowNode) -> bool>(
    rule: &GuardRule,
    memo: &Vec<MemoEntry>,
    is_sink: &F,
) -> (findings: Vec<AuthBypassFinding>)
    requires
        forall|i: int| 0 <= i < memo@.len() ==> can_judge(*is_sink, #[trigger] memo@[i]),
    ensures
        exists|sinks: Seq<Seq<bool>>| #[trigger]
            judges_all(*is_sink, memo@, sinks) && findings@ == reports(
                rule@,
                memo@,
                sinks,
                memo@.len(),
            ),
{
    let mut findings: Vec<AuthBypassFinding> = Vec::new();
    let ghost mut sinks: Seq<Seq<bool>> = Seq::empty();
    let mut i: usize = 0;
    while i < memo.len()
        invariant
            i <= memo@.len(),
            forall|k: int| 0 <= k < memo@.len() ==> can_judge(*is_sink, #[trigger] memo@[k]),
            sinks.len() == i,
            forall|k: int| 0 <= k < i ==> judges(*is_sink, memo@[k], #[trigger] sinks[k]),
            findings@ == reports(rule@, memo@, sinks, i as nat),
        decreases memo@.len() - i,
    {
        let ghost before = findings@;
        report_entry(rule, &memo[i], is_sink, &mut findings);
        proof {
            let marks = choose|marks: Seq<bool>| #[trigger]
                judges(*is_sink, memo@[i as int], marks) && findings@ == before + entry_reports(
                    rule@,
                    memo@[i as int],
                    marks,
                );
            lemma_reports_prefix(rule@, memo@, sinks, marks, i as nat);
            sinks = sinks.push(marks);
        }
        i += 1;
    }
    assert(judges_all(*is_sink, memo@, sinks));
    findings
}

/// Reports each sink that may run without a successful call of a function that
/// bears one of the given names.
pub fn pa_auth_bypass_findings<F: Fn(&DataflowNode) -> bool>(
    snapshot: &Snapshot,
    is_sink: F,
    auth_names: &[&str],
) -> (findings: Vec<AuthBypassFinding>)
    requires
        forall|i: int|
            0 <= i < snapshot.memo@.len() ==> can_judge(is_sink, #[trigger] snapshot.memo@[i]),
    ensures
        exists|sinks: Seq<Seq<bool>>| #[trigger]
            judges_all(is_sink, snapshot.memo@, sinks) && findings@ == reports(
                Check::Authentication(named_functions(snapshot.functions@, auth_names@)),
                snapshot.memo@,
                sinks,
                snapshot.memo@.len(),
            ),
{
    let auth_fn_ids = functions_named(&snapshot.functions, auth_names);
    let rule = GuardRule::Authentication(auth_fn_ids);
    report_all(&rule, &snapshot.memo, &is_sink)
}

/// Reports each sink that may run without a comparison of the requested resource
/// with the session's owner.
pub fn idor_findings<F: Fn(&DataflowNode) -> bool>(snapshot: &Snapshot, is_sink: F) -> (findings:
    Vec<AuthBypassFinding>)
    requires
        forall|i: int|
            0 <= i < snapshot.memo@.len() ==> can_judge(is_sink, #[trigger] snapshot.memo@[i]),
    ensures
        exists|sinks: Seq<Seq<bool>>| #[trigger]
            judges_all(is_sink, snapshot.memo@, sinks) && findings@ == reports(
                Check::Ownership,
                snapshot.memo@,
                sinks,
                snapshot.memo@.len(),
            ),
{
    report_all(&GuardRule::Ownership, &snapshot.memo, &is_sink)
}

} // verus!

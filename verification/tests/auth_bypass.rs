use guard_queries::auth_guard::{
    pa_block_is_auth_guarded, pa_condition_contains_auth_call_at_polarity,
    pa_identifier_provenance_is_auth, pa_leaf_is_auth, pa_provenance_verdict,
};
use guard_queries::control_flow::{
    BasicBlock, BranchPolarity, CfgQueryEngine, ConditionPlan, PlacedPoint, ProofPlan,
};
use guard_queries::findings::{
    functions_named, pa_auth_bypass_findings, AuthBypassFinding, FunctionMetadata, MemoEntry,
    Snapshot, Summary,
};
use guard_queries::graph::{
    DataflowEdge, DataflowEdgeKind, DataflowNode, LocalDataflowGraph, NodeOperation,
};
use guard_queries::id_set::{FunctionSet, NodeSet};
use guard_queries::ids::{
    DataflowNodeId, GlobalNodeId, MemoKey, NodeOperationKind, ProgramPoint,
};
use guard_queries::provenance::PaProvenanceVerdict;
use guard_queries::value::{AbstractValue, PrimitiveValue, Type};

const CALL: NodeOperationKind = NodeOperationKind::Other(1);
const WRITE: NodeOperationKind = NodeOperationKind::Other(2);
const LITERAL: NodeOperationKind = NodeOperationKind::Other(3);
const OBJECT: NodeOperationKind = NodeOperationKind::Other(4);

const AUTHENTICATE: GlobalNodeId = GlobalNodeId { node_id: 1, file: 0 };
const SAVE: GlobalNodeId = GlobalNodeId { node_id: 2, file: 0 };
const LOG: GlobalNodeId = GlobalNodeId { node_id: 3, file: 0 };

fn point(node_id: u32) -> ProgramPoint {
    ProgramPoint { node_id, position: 0 }
}

fn id(node_id: u32, kind: NodeOperationKind) -> DataflowNodeId {
    DataflowNodeId { location: point(node_id), kind }
}

fn unknown() -> AbstractValue {
    AbstractValue { bottom: false, values: vec![] }
}

fn boolean(value: bool) -> AbstractValue {
    AbstractValue {
        bottom: false,
        values: vec![Type::Primitive(PrimitiveValue::Boolean(value))],
    }
}

fn plain(node_id: u32, kind: NodeOperationKind) -> DataflowNode {
    DataflowNode {
        id: id(node_id, kind),
        operation: NodeOperation::Other,
        abstract_value: unknown(),
    }
}

fn literal(node_id: u32, value: bool) -> DataflowNode {
    DataflowNode {
        id: id(node_id, LITERAL),
        operation: NodeOperation::Other,
        abstract_value: boolean(value),
    }
}

fn call(node_id: u32, name: &str, callee: GlobalNodeId) -> DataflowNode {
    DataflowNode {
        id: id(node_id, CALL),
        operation: NodeOperation::Call {
            callees: vec![callee],
            function_name: Some(name.to_string()),
        },
        abstract_value: unknown(),
    }
}

fn edge(source: DataflowNodeId, target: DataflowNodeId, kind: DataflowEdgeKind) -> DataflowEdge {
    DataflowEdge { source, target, kind }
}

fn flow(source: DataflowNodeId, target: DataflowNodeId) -> DataflowEdge {
    edge(source, target, DataflowEdgeKind::DirectFlow)
}

fn store(source: DataflowNodeId, target: DataflowNodeId) -> DataflowEdge {
    edge(source, target, DataflowEdgeKind::Store)
}

fn load(source: DataflowNodeId, target: DataflowNodeId, property: &str) -> DataflowEdge {
    edge(source, target, DataflowEdgeKind::Load { property: property.to_string() })
}

fn decided(proved: bool) -> Box<ProofPlan> {
    Box::new(ProofPlan::Decided(proved))
}

fn ask(node_id: u32, target: bool, if_yes: Box<ProofPlan>, if_no: Box<ProofPlan>) -> ProofPlan {
    ProofPlan::Ask { node_id, target, if_yes, if_no }
}

/// The plans of a condition that is a single expression.
fn single(condition: u32) -> Vec<ConditionPlan> {
    vec![
        ConditionPlan {
            condition,
            polarity: true,
            plan: ask(condition, true, decided(true), decided(false)),
        },
        ConditionPlan {
            condition,
            polarity: false,
            plan: ask(condition, false, decided(true), decided(false)),
        },
    ]
}

fn block(dominators: Vec<usize>, condition: Option<u32>, then: Option<usize>) -> BasicBlock {
    BasicBlock {
        dominators,
        condition,
        branches: match then {
            Some(target) => vec![BranchPolarity { target, polarity: true }],
            None => vec![],
        },
    }
}

fn placed(node_ids: &[u32], block: usize) -> Vec<PlacedPoint> {
    node_ids.iter().map(|n| PlacedPoint { point: point(*n), block }).collect()
}

/// `if (condition) { save(); }`: block 0 holds the condition, block 1 the sink
/// at node 90.
fn guarded_by(condition: u32, in_entry: &[u32]) -> CfgQueryEngine {
    let mut points = placed(in_entry, 0);
    points.extend(placed(&[90], 1));
    CfgQueryEngine {
        blocks: vec![block(vec![0], Some(condition), Some(1)), block(vec![1, 0], None, None)],
        points,
        plans: single(condition),
    }
}

/// `state.authorized = authenticate(req); if (state.authorized) save();`
fn property_guard_graph() -> LocalDataflowGraph {
    let read = id(20, NodeOperationKind::PropertyRead);
    LocalDataflowGraph {
        nodes: vec![
            call(10, "authenticate", AUTHENTICATE),
            plain(11, WRITE),
            plain(20, NodeOperationKind::PropertyRead),
            call(90, "save", SAVE),
        ],
        edges: vec![
            store(id(10, CALL), id(11, WRITE)),
            load(id(5, NodeOperationKind::Identifier), read, "authorized"),
            load(id(4, OBJECT), read, "authorized"),
            flow(id(11, WRITE), read),
        ],
    }
}

/// `let ok = authenticate(req); if (ok) save();`
fn variable_guard_graph() -> LocalDataflowGraph {
    LocalDataflowGraph {
        nodes: vec![
            call(10, "authenticate", AUTHENTICATE),
            plain(20, NodeOperationKind::Identifier),
            call(90, "save", SAVE),
        ],
        edges: vec![flow(id(10, CALL), id(20, NodeOperationKind::Identifier))],
    }
}

/// As the property guard, but another branch writes `true` to the property.
fn property_bypass_graph() -> LocalDataflowGraph {
    let mut graph = property_guard_graph();
    graph.nodes.push(literal(15, true));
    graph.nodes.push(plain(16, WRITE));
    graph.edges.push(store(id(15, LITERAL), id(16, WRITE)));
    graph.edges.push(flow(id(16, WRITE), id(20, NodeOperationKind::PropertyRead)));
    graph
}

fn entry(function: u32, cfg: CfgQueryEngine, graph: LocalDataflowGraph) -> MemoEntry {
    MemoEntry {
        key: MemoKey {
            function_node_id: GlobalNodeId { node_id: function, file: 0 },
            arg_shape: 0,
        },
        args: vec![unknown(), unknown()],
        cfg: Some(cfg),
        summary: Some(Summary { dataflow_graph: Some(graph) }),
    }
}

fn function(id: GlobalNodeId, name: Option<&str>) -> FunctionMetadata {
    FunctionMetadata { id, name: name.map(|n| n.to_string()) }
}

fn controller(node_id: u32, name: &str) -> FunctionMetadata {
    function(GlobalNodeId { node_id, file: 0 }, Some(name))
}

fn common_functions() -> Vec<FunctionMetadata> {
    vec![
        function(AUTHENTICATE, Some("authenticate")),
        function(SAVE, Some("save")),
        function(LOG, None),
    ]
}

fn call_named(name: &'static str) -> impl Fn(&DataflowNode) -> bool {
    move |node| match &node.operation {
        NodeOperation::Call { function_name: Some(called), .. } => called == name,
        _ => false,
    }
}

fn auth_set() -> FunctionSet {
    let mut set = FunctionSet::new();
    set.insert(AUTHENTICATE);
    set
}

fn name_of(snapshot: &Snapshot, finding: &AuthBypassFinding) -> String {
    for f in &snapshot.functions {
        if f.id == finding.memo_key.function_node_id {
            return match &f.name {
                Some(name) => name.clone(),
                None => "<anon>".to_string(),
            };
        }
    }
    "<top-level>".to_string()
}

#[test]
fn property_guard_is_now_correctly_cleared() {
    let mut functions = common_functions();
    functions.push(controller(100, "propertyGuardController"));
    functions.push(controller(101, "variableGuardController"));
    let snapshot = Snapshot {
        functions,
        memo: vec![
            entry(100, guarded_by(20, &[4, 5, 10, 11, 20]), property_guard_graph()),
            entry(101, guarded_by(20, &[10, 20]), variable_guard_graph()),
        ],
    };
    let findings = pa_auth_bypass_findings(&snapshot, call_named("save"), &["authenticate"]);
    assert!(findings.is_empty());
}

#[test]
fn property_bypass_is_still_correctly_flagged() {
    let mut functions = common_functions();
    functions.push(controller(100, "propertyGuardController"));
    functions.push(controller(102, "propertyBypassController"));
    let snapshot = Snapshot {
        functions,
        memo: vec![
            entry(100, guarded_by(20, &[4, 5, 10, 11, 20]), property_guard_graph()),
            entry(102, guarded_by(20, &[4, 5, 10, 11, 15, 16, 20]), property_bypass_graph()),
        ],
    };
    let findings = pa_auth_bypass_findings(&snapshot, call_named("save"), &["authenticate"]);
    let functions_flagged: Vec<String> =
        findings.iter().map(|f| name_of(&snapshot, f)).collect();
    assert!(functions_flagged.iter().any(|f| f == "propertyBypassController"));
    assert!(!functions_flagged.iter().any(|f| f == "propertyGuardController"));
    assert_eq!(
        findings,
        vec![AuthBypassFinding {
            sink_pp: point(90),
            sink_name: Some("save".to_string()),
            memo_key: MemoKey {
                function_node_id: GlobalNodeId { node_id: 102, file: 0 },
                arg_shape: 0,
            },
        }]
    );
}

#[test]
fn benefits_js_exploration() {
    // A handler that updates without asking who is logged in.
    let graph = LocalDataflowGraph {
        nodes: vec![call(90, "updateBenefits", SAVE)],
        edges: vec![],
    };
    let cfg = CfgQueryEngine {
        blocks: vec![block(vec![0], None, None)],
        points: placed(&[90], 0),
        plans: vec![],
    };
    let snapshot = Snapshot {
        functions: vec![controller(100, "updateBenefits"), controller(7, "isAdmin")],
        memo: vec![entry(100, cfg, graph)],
    };
    let findings = pa_auth_bypass_findings(&snapshot, call_named("updateBenefits"), &["isAdmin"]);
    assert_eq!(findings.len(), 1);
    assert_eq!(findings[0].sink_pp, point(90));
}

#[test]
fn a_direct_call_in_the_condition_guards() {
    let graph = LocalDataflowGraph {
        nodes: vec![call(20, "authenticate", AUTHENTICATE), call(90, "save", SAVE)],
        edges: vec![],
    };
    let cfg = guarded_by(20, &[20]);
    assert!(pa_block_is_auth_guarded(&cfg, &graph, 1, &auth_set(), 0));
    assert!(!pa_block_is_auth_guarded(&cfg, &graph, 1, &FunctionSet::new(), 0));
    assert!(pa_leaf_is_auth(&cfg, &graph, 20, true, &auth_set(), 0));
    assert!(!pa_leaf_is_auth(&cfg, &graph, 20, false, &auth_set(), 0));
    assert!(!pa_leaf_is_auth(&cfg, &graph, 21, true, &auth_set(), 0));
}

#[test]
fn a_call_of_another_function_does_not_guard() {
    let graph = LocalDataflowGraph {
        nodes: vec![call(20, "log", LOG), call(90, "save", SAVE)],
        edges: vec![],
    };
    let cfg = guarded_by(20, &[20]);
    assert!(!pa_block_is_auth_guarded(&cfg, &graph, 1, &auth_set(), 0));
}

#[test]
fn one_of_several_callees_is_enough() {
    let graph = LocalDataflowGraph {
        nodes: vec![DataflowNode {
            id: id(20, CALL),
            operation: NodeOperation::Call {
                callees: vec![LOG, AUTHENTICATE],
                function_name: None,
            },
            abstract_value: unknown(),
        }],
        edges: vec![],
    };
    let cfg = guarded_by(20, &[20]);
    assert!(pa_block_is_auth_guarded(&cfg, &graph, 1, &auth_set(), 0));
}

#[test]
fn the_wrong_branch_is_not_guarded() {
    let graph = variable_guard_graph();
    let mut cfg = guarded_by(20, &[10, 20]);
    cfg.blocks[0].branches[0].polarity = false;
    assert!(!pa_block_is_auth_guarded(&cfg, &graph, 1, &auth_set(), 0));
    cfg.blocks[0].branches.clear();
    assert!(!pa_block_is_auth_guarded(&cfg, &graph, 1, &auth_set(), 0));
}

#[test]
fn conditions_are_decided_by_their_plans() {
    let graph = variable_guard_graph();
    let mut cfg = guarded_by(20, &[10, 20]);
    let set = auth_set();
    assert!(pa_condition_contains_auth_call_at_polarity(&cfg, &graph, 20, true, &set, 0));
    assert!(!pa_condition_contains_auth_call_at_polarity(&cfg, &graph, 20, false, &set, 0));
    assert!(!pa_condition_contains_auth_call_at_polarity(&cfg, &graph, 21, true, &set, 0));
    // `other && ok`: either conjunct is enough.
    cfg.plans.push(ConditionPlan {
        condition: 30,
        polarity: true,
        plan: ask(
            31,
            true,
            decided(true),
            Box::new(ask(20, true, decided(true), decided(false))),
        ),
    });
    assert!(pa_condition_contains_auth_call_at_polarity(&cfg, &graph, 30, true, &set, 0));
    // `other || ok`: both disjuncts are needed.
    cfg.plans.push(ConditionPlan {
        condition: 40,
        polarity: true,
        plan: ask(
            20,
            true,
            Box::new(ask(31, true, decided(true), decided(false))),
            decided(false),
        ),
    });
    assert!(!pa_condition_contains_auth_call_at_polarity(&cfg, &graph, 40, true, &set, 0));
    // `!ok` on the way where it is false.
    cfg.plans.push(ConditionPlan {
        condition: 50,
        polarity: false,
        plan: ask(20, true, decided(true), decided(false)),
    });
    assert!(pa_condition_contains_auth_call_at_polarity(&cfg, &graph, 50, false, &set, 0));
}

#[test]
fn reading_edges_do_not_bear_on_the_verdict() {
    let cfg = guarded_by(20, &[4, 5, 10, 11, 20]);
    let with = property_guard_graph();
    let mut without = property_guard_graph();
    without.edges.remove(2);
    without.edges.remove(1);
    assert!(pa_block_is_auth_guarded(&cfg, &with, 1, &auth_set(), 0));
    assert!(pa_block_is_auth_guarded(&cfg, &without, 1, &auth_set(), 0));
    without.edges.reverse();
    assert!(pa_block_is_auth_guarded(&cfg, &without, 1, &auth_set(), 0));
}

#[test]
fn properties_are_followed_like_variables() {
    let set = auth_set();
    // Without the write to the property, the read has no origin that vouches.
    let mut unwritten = property_guard_graph();
    unwritten.edges.remove(0);
    let cfg = guarded_by(20, &[4, 5, 10, 11, 20]);
    assert!(pa_block_is_auth_guarded(&cfg, &property_guard_graph(), 1, &set, 0));
    assert!(!pa_block_is_auth_guarded(&cfg, &unwritten, 1, &set, 0));
    // No property is written or asked about.
    let cfg = guarded_by(20, &[10, 20]);
    assert!(pa_block_is_auth_guarded(&cfg, &variable_guard_graph(), 1, &set, 0));
    let mut cut = variable_guard_graph();
    cut.edges.clear();
    assert!(!pa_block_is_auth_guarded(&cfg, &cut, 1, &set, 0));
}

#[test]
fn one_objection_outweighs_acceptances() {
    let start = id(20, NodeOperationKind::PropertyRead);
    let cfg = guarded_by(20, &[10, 11, 15, 16, 20]);
    let graph = property_bypass_graph();
    let mut visited = NodeSet::new();
    assert_eq!(
        pa_provenance_verdict(&cfg, &graph, &start, &auth_set(), &mut visited, 0),
        PaProvenanceVerdict::Reject
    );
    assert!(!pa_identifier_provenance_is_auth(&cfg, &graph, &start, &auth_set(), 0));
    for reached in [start, id(10, CALL), id(11, WRITE), id(15, LITERAL), id(16, WRITE)] {
        assert!(visited.contains(reached));
    }
    assert!(!visited.contains(id(90, CALL)));
    assert!(!visited.contains(id(20, NodeOperationKind::Identifier)));
    // A second walk finds everything visited.
    assert_eq!(
        pa_provenance_verdict(&cfg, &graph, &start, &auth_set(), &mut visited, 0),
        PaProvenanceVerdict::SkipIncompatible
    );
}

#[test]
fn a_value_that_cannot_pass_is_left_out() {
    // `let ok = false; if (x) ok = authenticate(req); if (ok) save();`
    let mut graph = variable_guard_graph();
    graph.nodes.push(literal(12, false));
    graph.edges.insert(0, flow(id(12, LITERAL), id(20, NodeOperationKind::Identifier)));
    let cfg = guarded_by(20, &[10, 12, 20]);
    assert!(pa_block_is_auth_guarded(&cfg, &graph, 1, &auth_set(), 0));
    let mut visited = NodeSet::new();
    assert_eq!(
        pa_provenance_verdict(&cfg, &graph, &id(12, LITERAL), &auth_set(), &mut visited, 0),
        PaProvenanceVerdict::SkipIncompatible
    );
}

#[test]
fn a_value_without_sources_is_as_good_as_its_block() {
    let cfg = guarded_by(20, &[10, 20]);
    let graph = variable_guard_graph();
    let set = auth_set();
    // In the guarded block, in the entry block, and nowhere.
    let mut cfg_with_points = guarded_by(20, &[10, 20, 61]);
    cfg_with_points.points.push(PlacedPoint { point: point(60), block: 1 });
    let verdict = |node_id: u32, cfg: &CfgQueryEngine| {
        pa_provenance_verdict(cfg, &graph, &id(node_id, LITERAL), &set, &mut NodeSet::new(), 0)
    };
    assert_eq!(verdict(60, &cfg_with_points), PaProvenanceVerdict::Accept);
    assert_eq!(verdict(61, &cfg_with_points), PaProvenanceVerdict::Reject);
    assert_eq!(verdict(60, &cfg), PaProvenanceVerdict::Reject);
}

#[test]
fn a_cycle_of_flows_says_nothing() {
    let a = id(20, NodeOperationKind::Identifier);
    let b = id(21, NodeOperationKind::Identifier);
    let graph = LocalDataflowGraph {
        nodes: vec![
            plain(20, NodeOperationKind::Identifier),
            plain(21, NodeOperationKind::Identifier),
        ],
        edges: vec![flow(b, a), flow(a, b)],
    };
    let cfg = guarded_by(20, &[20, 21]);
    let mut visited = NodeSet::new();
    assert_eq!(
        pa_provenance_verdict(&cfg, &graph, &a, &auth_set(), &mut visited, 0),
        PaProvenanceVerdict::SkipIncompatible
    );
    assert!(visited.contains(a) && visited.contains(b));
}

/// Block `i` is guarded by a value that arises in block `i - 1`; block 1 is
/// guarded by a call.
fn nested_guards(n: usize) -> (CfgQueryEngine, LocalDataflowGraph) {
    let mut blocks = vec![];
    let mut points = vec![];
    let mut plans = vec![];
    let mut nodes = vec![call(100, "authenticate", AUTHENTICATE)];
    for i in 0..=n {
        let condition = 100 + i as u32;
        blocks.push(block(
            if i == 0 { vec![0] } else { vec![i, i - 1] },
            Some(condition),
            Some(i + 1),
        ));
        points.extend(placed(&[condition], i));
        plans.extend(single(condition));
        if i > 0 {
            nodes.push(plain(condition, NodeOperationKind::Identifier));
        }
    }
    (CfgQueryEngine { blocks, points, plans }, LocalDataflowGraph { nodes, edges: vec![] })
}

#[test]
fn guards_rest_on_guards_up_to_the_limit() {
    let (cfg, graph) = nested_guards(12);
    let set = auth_set();
    assert!(!pa_block_is_auth_guarded(&cfg, &graph, 0, &set, 0));
    for target in 1..10 {
        assert!(pa_block_is_auth_guarded(&cfg, &graph, target, &set, 0));
    }
    assert!(!pa_block_is_auth_guarded(&cfg, &graph, 10, &set, 0));
    assert!(pa_block_is_auth_guarded(&cfg, &graph, 1, &set, 8));
    assert!(!pa_block_is_auth_guarded(&cfg, &graph, 1, &set, 9));
    assert!(!pa_block_is_auth_guarded(&cfg, &graph, 2, &set, 8));
    assert!(!pa_block_is_auth_guarded(&cfg, &graph, 99, &set, 0));
}

#[test]
fn a_block_does_not_guard_itself() {
    let graph = LocalDataflowGraph {
        nodes: vec![call(20, "authenticate", AUTHENTICATE)],
        edges: vec![],
    };
    let cfg = CfgQueryEngine {
        blocks: vec![block(vec![0], Some(20), Some(0))],
        points: placed(&[20], 0),
        plans: single(20),
    };
    assert!(!pa_block_is_auth_guarded(&cfg, &graph, 0, &auth_set(), 0));
}

fn bare_sink(function: u32) -> MemoEntry {
    let graph = LocalDataflowGraph { nodes: vec![call(90, "save", SAVE)], edges: vec![] };
    let cfg = CfgQueryEngine {
        blocks: vec![block(vec![0], None, None)],
        points: placed(&[90], 0),
        plans: vec![],
    };
    entry(function, cfg, graph)
}

fn bottom() -> AbstractValue {
    AbstractValue { bottom: true, values: vec![] }
}

#[test]
fn only_examined_entries_are_reported() {
    let mut uncalled = bare_sink(100);
    uncalled.args = vec![unknown(), bottom(), bottom()];
    let mut partly = bare_sink(101);
    partly.args = vec![bottom(), bottom(), unknown()];
    let mut one = bare_sink(102);
    one.args = vec![bottom()];
    let mut none = bare_sink(103);
    none.args = vec![];
    let mut no_cfg = bare_sink(104);
    no_cfg.cfg = None;
    let mut no_summary = bare_sink(105);
    no_summary.summary = None;
    let mut no_graph = bare_sink(106);
    no_graph.summary = Some(Summary { dataflow_graph: None });
    let mut unplaced = bare_sink(107);
    unplaced.cfg = Some(CfgQueryEngine { blocks: vec![], points: vec![], plans: vec![] });
    let snapshot = Snapshot {
        functions: vec![],
        memo: vec![uncalled, partly, one, none, no_cfg, no_summary, no_graph, unplaced],
    };
    let findings = pa_auth_bypass_findings(&snapshot, call_named("save"), &["authenticate"]);
    let flagged: Vec<u32> =
        findings.iter().map(|f| f.memo_key.function_node_id.node_id).collect();
    assert_eq!(flagged, vec![101, 102, 103]);
}

#[test]
fn a_sink_that_is_no_call_has_no_name() {
    let mut bare = bare_sink(100);
    bare.summary = Some(Summary {
        dataflow_graph: Some(LocalDataflowGraph {
            nodes: vec![plain(90, WRITE), call(90, "save", SAVE)],
            edges: vec![],
        }),
    });
    let snapshot = Snapshot { functions: vec![], memo: vec![bare] };
    let findings = pa_auth_bypass_findings(&snapshot, |_: &DataflowNode| true, &[]);
    assert_eq!(findings.len(), 2);
    assert_eq!(findings[0].sink_name, None);
    assert_eq!(findings[1].sink_name, Some("save".to_string()));
    let nothing = pa_auth_bypass_findings(&snapshot, |_: &DataflowNode| false, &[]);
    assert!(nothing.is_empty());
}

#[test]
fn functions_are_found_by_name() {
    let mut functions = common_functions();
    functions.push(function(GlobalNodeId { node_id: 1, file: 5 }, Some("authenticate")));
    functions.push(function(GlobalNodeId { node_id: 9, file: 5 }, Some("isAdmin")));
    let found = functions_named(&functions, &["isAdmin", "authenticate"]);
    assert!(found.contains(AUTHENTICATE));
    assert!(found.contains(GlobalNodeId { node_id: 1, file: 5 }));
    assert!(found.contains(GlobalNodeId { node_id: 9, file: 5 }));
    assert!(!found.contains(SAVE));
    assert!(!found.contains(LOG));
    let none = functions_named(&functions, &[]);
    assert!(!none.contains(AUTHENTICATE));
    let other = functions_named(&functions, &["Authenticate", "auth"]);
    assert!(!other.contains(AUTHENTICATE));
}

#[test]
fn more_names_add_no_finding() {
    let snapshot = Snapshot {
        functions: common_functions(),
        memo: vec![
            entry(101, guarded_by(20, &[10, 20]), variable_guard_graph()),
            bare_sink(100),
        ],
    };
    let none = pa_auth_bypass_findings(&snapshot, call_named("save"), &[]);
    let some = pa_auth_bypass_findings(&snapshot, call_named("save"), &["authenticate"]);
    assert_eq!(none.len(), 2);
    assert_eq!(some.len(), 1);
    assert!(none.contains(&some[0]));
}

#[test]
fn sets_tell_new_members_from_old_ones() {
    let mut nodes = NodeSet::new();
    assert!(nodes.insert(id(1, CALL)));
    assert!(!nodes.insert(id(1, CALL)));
    assert!(nodes.insert(id(1, WRITE)));
    assert!(nodes.insert(id(1, NodeOperationKind::Identifier)));
    assert!(nodes.insert(DataflowNodeId {
        location: ProgramPoint { node_id: 1, position: 1 },
        kind: CALL,
    }));
    assert!(nodes.contains(id(1, CALL)));
    assert!(!nodes.contains(id(2, CALL)));
    let mut functions = FunctionSet::new();
    assert!(functions.insert(SAVE));
    assert!(!functions.insert(SAVE));
    assert!(functions.contains(SAVE));
    assert!(!functions.contains(LOG));
}

use guard_queries::control_flow::{BasicBlock, BranchPolarity, CfgQueryEngine, PlacedPoint};
use guard_queries::findings::{
    idor_findings, FunctionMetadata, MemoEntry, Snapshot, Summary,
};
use guard_queries::graph::{
    DataflowEdge, DataflowEdgeKind, DataflowNode, LocalDataflowGraph, NodeOperation,
};
use guard_queries::ids::{
    DataflowNodeId, GlobalNodeId, MemoKey, NodeOperationKind, ProgramPoint,
};
use guard_queries::ownership::{
    block_is_ownership_guarded, condition_is_ownership_check, trace_property_path,
};
use guard_queries::value::AbstractValue;

const REQUEST: u32 = 1;
const COMPARISON: u32 = 50;
const SINK: u32 = 90;

fn spot(node_id: u32) -> ProgramPoint {
    ProgramPoint { node_id, position: 0 }
}

fn named(node_id: u32, kind: NodeOperationKind) -> DataflowNodeId {
    DataflowNodeId { location: spot(node_id), kind }
}

fn request() -> DataflowNodeId {
    named(REQUEST, NodeOperationKind::Parameter)
}

fn reading(node_id: u32) -> DataflowNodeId {
    named(node_id, NodeOperationKind::PropertyRead)
}

fn comparison() -> DataflowNodeId {
    named(COMPARISON, NodeOperationKind::BinaryOp)
}

fn node(id: DataflowNodeId) -> DataflowNode {
    DataflowNode {
        id,
        operation: NodeOperation::Other,
        abstract_value: AbstractValue { bottom: false, values: vec![] },
    }
}

fn link(source: DataflowNodeId, target: DataflowNodeId, kind: DataflowEdgeKind) -> DataflowEdge {
    DataflowEdge { source, target, kind }
}

fn reads(source: DataflowNodeId, target: DataflowNodeId, property: &str) -> DataflowEdge {
    link(source, target, DataflowEdgeKind::Load { property: property.to_string() })
}

fn moves(source: DataflowNodeId, target: DataflowNodeId) -> DataflowEdge {
    link(source, target, DataflowEdgeKind::DirectFlow)
}

fn derives(source: DataflowNodeId, target: DataflowNodeId) -> DataflowEdge {
    link(source, target, DataflowEdgeKind::Derivation)
}

fn sink() -> DataflowNode {
    DataflowNode {
        id: named(SINK, NodeOperationKind::Other(1)),
        operation: NodeOperation::Call {
            callees: vec![],
            function_name: Some("getResource".to_string()),
        },
        abstract_value: AbstractValue { bottom: false, values: vec![] },
    }
}

/// Adds `req.<first>.<second>`, read at nodes `at` and `at + 1`.
fn add_path(graph: &mut LocalDataflowGraph, at: u32, first: &str, second: &str) -> DataflowNodeId {
    graph.nodes.push(node(reading(at)));
    graph.nodes.push(node(reading(at + 1)));
    graph.edges.push(reads(request(), reading(at), first));
    graph.edges.push(reads(reading(at), reading(at + 1), second));
    reading(at + 1)
}

/// A graph that compares two paths from the request.
fn comparing(left: (&str, &str), right: (&str, &str)) -> LocalDataflowGraph {
    let mut graph = LocalDataflowGraph {
        nodes: vec![node(request()), sink(), node(comparison())],
        edges: vec![],
    };
    let a = add_path(&mut graph, 10, left.0, left.1);
    let b = add_path(&mut graph, 20, right.0, right.1);
    graph.edges.push(derives(a, comparison()));
    graph.edges.push(derives(b, comparison()));
    graph
}

fn straight() -> CfgQueryEngine {
    CfgQueryEngine {
        blocks: vec![BasicBlock { dominators: vec![0], condition: None, branches: vec![] }],
        points: vec![PlacedPoint { point: spot(SINK), block: 0 }],
        plans: vec![],
    }
}

fn behind_comparison() -> CfgQueryEngine {
    CfgQueryEngine {
        blocks: vec![
            BasicBlock { dominators: vec![0], condition: Some(COMPARISON), branches: vec![] },
            BasicBlock { dominators: vec![1, 0], condition: None, branches: vec![] },
        ],
        points: vec![PlacedPoint { point: spot(SINK), block: 1 }],
        plans: vec![],
    }
}

/// As `behind_comparison`, with a second condition between the comparison and
/// the sink that only one way to the sink goes through.
fn behind_comparison_or_role() -> CfgQueryEngine {
    CfgQueryEngine {
        blocks: vec![
            BasicBlock { dominators: vec![0], condition: Some(COMPARISON), branches: vec![] },
            BasicBlock { dominators: vec![1, 0], condition: Some(60), branches: vec![] },
            BasicBlock { dominators: vec![2, 0], condition: None, branches: vec![] },
        ],
        points: vec![PlacedPoint { point: spot(SINK), block: 2 }],
        plans: vec![],
    }
}

fn summary(function: u32, cfg: CfgQueryEngine, graph: LocalDataflowGraph) -> MemoEntry {
    MemoEntry {
        key: MemoKey {
            function_node_id: GlobalNodeId { node_id: function, file: 0 },
            arg_shape: function,
        },
        args: vec![],
        cfg: Some(cfg),
        summary: Some(Summary { dataflow_graph: Some(graph) }),
    }
}

fn calling(name: &'static str) -> impl Fn(&DataflowNode) -> bool {
    move |node| match &node.operation {
        NodeOperation::Call { function_name: Some(called), .. } => called == name,
        _ => false,
    }
}

#[test]
fn idor_probe_results() {
    let names = [
        "vulnerableIdorController",
        "comparisonIgnoredController",
        "wrongComparisonController",
        "safeOwnResourceController",
        "adminOverrideController",
    ];
    let functions = names
        .iter()
        .enumerate()
        .map(|(i, name)| FunctionMetadata {
            id: GlobalNodeId { node_id: i as u32, file: 0 },
            name: Some(name.to_string()),
        })
        .collect();
    let own = (("params", "userId"), ("session", "userId"));
    let snapshot = Snapshot {
        functions,
        memo: vec![
            summary(
                0,
                straight(),
                LocalDataflowGraph { nodes: vec![node(request()), sink()], edges: vec![] },
            ),
            summary(1, straight(), comparing(own.0, own.1)),
            summary(2, behind_comparison(), comparing(own.0, own.0)),
            summary(3, behind_comparison(), comparing(own.0, own.1)),
            summary(4, behind_comparison_or_role(), comparing(own.0, own.1)),
        ],
    };
    let findings = idor_findings(&snapshot, calling("getResource"));
    let flagged: Vec<String> = findings
        .iter()
        .map(|f| {
            let index = f.memo_key.function_node_id.node_id as usize;
            snapshot.functions[index].name.clone().unwrap()
        })
        .collect();
    assert_eq!(
        flagged,
        vec![
            "vulnerableIdorController",
            "comparisonIgnoredController",
            "wrongComparisonController",
        ]
    );
    assert_eq!(findings[0].sink_pp, spot(SINK));
    assert_eq!(findings[0].sink_name, Some("getResource".to_string()));
    assert_eq!(findings[1].memo_key, snapshot.memo[1].key);
}

#[test]
fn allocations_js_exploration() {
    // The requested user is taken from the request and never compared.
    let mut graph = LocalDataflowGraph { nodes: vec![node(request())], edges: vec![] };
    add_path(&mut graph, 10, "params", "userId");
    graph.nodes.push(DataflowNode {
        id: named(SINK, NodeOperationKind::Other(1)),
        operation: NodeOperation::Call {
            callees: vec![],
            function_name: Some("getByUserIdAndThreshold".to_string()),
        },
        abstract_value: AbstractValue { bottom: false, values: vec![] },
    });
    let snapshot = Snapshot { functions: vec![], memo: vec![summary(0, straight(), graph)] };
    let findings = idor_findings(&snapshot, calling("getByUserIdAndThreshold"));
    assert_eq!(findings.len(), 1);
}

#[test]
fn the_sides_of_the_comparison_may_be_swapped() {
    let check = |left, right| condition_is_ownership_check(&comparing(left, right), COMPARISON);
    assert!(check(("params", "userId"), ("session", "userId")));
    assert!(check(("session", "userId"), ("params", "userId")));
    assert!(!check(("params", "userId"), ("params", "userId")));
    assert!(!check(("session", "userId"), ("session", "userId")));
    assert!(!check(("params", "userId"), ("session", "role")));
    assert!(!check(("body", "userId"), ("session", "userId")));
    assert!(!check(("Params", "userId"), ("session", "userId")));
}

#[test]
fn only_a_comparison_of_two_traced_values_counts() {
    let own = (("params", "userId"), ("session", "userId"));
    let mut graph = comparing(own.0, own.1);
    assert!(!condition_is_ownership_check(&graph, COMPARISON + 1));
    assert!(condition_is_ownership_check(&graph, COMPARISON));
    // A third operand, without a path and with one.
    graph.nodes.push(node(reading(30)));
    graph.edges.push(derives(reading(30), comparison()));
    assert!(!condition_is_ownership_check(&graph, COMPARISON));
    graph.edges.pop();
    graph.edges.push(derives(request(), comparison()));
    assert!(!condition_is_ownership_check(&graph, COMPARISON));
    // Two operands, of which one has no path.
    let mut untraced = comparing(own.0, own.1);
    untraced.edges.pop();
    untraced.nodes.push(node(reading(30)));
    untraced.edges.push(derives(reading(30), comparison()));
    assert!(!condition_is_ownership_check(&untraced, COMPARISON));
    // A comparison with one operand only.
    let mut single = comparing(own.0, own.1);
    single.edges.pop();
    assert!(!condition_is_ownership_check(&single, COMPARISON));
    // Operands come in by derivation, not by direct flow.
    let mut other = comparing(own.0, own.1);
    for edge in &mut other.edges {
        if edge.target == comparison() {
            edge.kind = DataflowEdgeKind::DirectFlow;
        }
    }
    assert!(!condition_is_ownership_check(&other, COMPARISON));
    // Not a binary operation.
    let mut plain = comparing(own.0, own.1);
    plain.nodes[2] = node(reading(COMPARISON));
    assert!(!condition_is_ownership_check(&plain, COMPARISON));
}

#[test]
fn comparisons_guard_the_blocks_behind_them() {
    let graph = comparing(("params", "userId"), ("session", "userId"));
    let cfg = behind_comparison();
    assert!(block_is_ownership_guarded(&cfg, &graph, 1));
    assert!(!block_is_ownership_guarded(&cfg, &graph, 0));
    assert!(!block_is_ownership_guarded(&cfg, &graph, 2));
    let other = comparing(("params", "userId"), ("session", "role"));
    assert!(!block_is_ownership_guarded(&cfg, &other, 1));
}

#[test]
fn the_outcome_of_the_comparison_does_not_matter() {
    let graph = comparing(("params", "userId"), ("session", "userId"));
    for polarity in [true, false] {
        let mut cfg = behind_comparison();
        cfg.blocks[0].branches.push(BranchPolarity { target: 1, polarity });
        assert!(block_is_ownership_guarded(&cfg, &graph, 1));
    }
}

/// A parameter followed by `n` reads of properties `p0`, `p1`, and so on.
fn chain(n: u32) -> LocalDataflowGraph {
    let mut graph = LocalDataflowGraph { nodes: vec![node(request())], edges: vec![] };
    let mut last = request();
    for i in 0..n {
        let next = reading(100 + i);
        graph.nodes.push(node(next));
        graph.edges.push(reads(last, next, &format!("p{}", i)));
        last = next;
    }
    graph
}

#[test]
fn paths_are_given_from_the_parameter_on() {
    assert_eq!(trace_property_path(&chain(0), &request()), Some(vec![]));
    assert_eq!(
        trace_property_path(&chain(3), &reading(102)),
        Some(vec!["p0".to_string(), "p1".to_string(), "p2".to_string()])
    );
    let mut graph = chain(2);
    graph.nodes.push(node(named(200, NodeOperationKind::Identifier)));
    graph.edges.push(moves(reading(101), named(200, NodeOperationKind::Identifier)));
    assert_eq!(
        trace_property_path(&graph, &named(200, NodeOperationKind::Identifier)),
        Some(vec!["p0".to_string(), "p1".to_string()])
    );
}

#[test]
fn paths_are_followed_up_to_the_limit() {
    let found = trace_property_path(&chain(8), &reading(107));
    assert_eq!(found.map(|path| path.len()), Some(8));
    assert_eq!(trace_property_path(&chain(9), &reading(108)), None);
}

#[test]
fn the_first_origin_is_followed() {
    let mut graph = chain(1);
    graph.nodes.push(node(reading(300)));
    graph.edges.insert(0, derives(reading(300), reading(100)));
    graph.edges.push(moves(reading(300), reading(100)));
    assert_eq!(trace_property_path(&graph, &reading(100)), Some(vec!["p0".to_string()]));
    graph.edges.insert(0, moves(reading(300), reading(100)));
    assert_eq!(trace_property_path(&graph, &reading(100)), None);
}

#[test]
fn paths_that_end_elsewhere_are_given_up() {
    // An unknown node, a node without an origin, and a ring.
    assert_eq!(trace_property_path(&chain(1), &reading(999)), None);
    let mut graph = chain(0);
    graph.nodes.push(node(reading(10)));
    assert_eq!(trace_property_path(&graph, &reading(10)), None);
    graph.nodes.push(node(reading(11)));
    graph.edges.push(moves(reading(11), reading(10)));
    graph.edges.push(reads(reading(10), reading(11), "next"));
    assert_eq!(trace_property_path(&graph, &reading(10)), None);
    assert_eq!(trace_property_path(&graph, &reading(11)), None);
}

use guard_queries::control_flow::{
    BasicBlock, BranchPolarity, CfgQueryEngine, ConditionPlan, PlacedPoint, ProofPlan,
};
use guard_queries::graph::{
    DataflowEdge, DataflowEdgeKind, DataflowNode, LocalDataflowGraph, NodeOperation,
};
use guard_queries::ids::{DataflowNodeId, NodeOperationKind, ProgramPoint};
use guard_queries::value::{pa_value_could_be_truthy, AbstractValue, PrimitiveValue, Type};

fn of(values: Vec<Type>) -> AbstractValue {
    AbstractValue { bottom: false, values }
}

fn primitive(value: PrimitiveValue) -> Type {
    Type::Primitive(value)
}

#[test]
fn truthiness_of_single_values() {
    let truthy = |value| pa_value_could_be_truthy(&of(vec![primitive(value)]));
    assert!(!truthy(PrimitiveValue::Boolean(false)));
    assert!(truthy(PrimitiveValue::Boolean(true)));
    assert!(!truthy(PrimitiveValue::Null));
    assert!(!truthy(PrimitiveValue::Undefined));
    assert!(truthy(PrimitiveValue::String(String::new())));
    assert!(truthy(PrimitiveValue::String("yes".to_string())));
    assert!(truthy(PrimitiveValue::Other));
    assert!(pa_value_could_be_truthy(&of(vec![Type::Other])));
}

#[test]
fn truthiness_of_numbers_is_that_of_their_bits() {
    let truthy =
        |n: f64| pa_value_could_be_truthy(&of(vec![primitive(PrimitiveValue::Number(n.to_bits()))]));
    for n in [0.0, -0.0, 1.0, -1.0, f64::MIN_POSITIVE, 5e-324, f64::NAN, f64::INFINITY] {
        assert_eq!(truthy(n), !(n == 0.0));
    }
}

#[test]
fn truthiness_of_several_values() {
    assert!(pa_value_could_be_truthy(&of(vec![])));
    assert!(!pa_value_could_be_truthy(&of(vec![
        primitive(PrimitiveValue::Null),
        primitive(PrimitiveValue::Boolean(false)),
    ])));
    assert!(pa_value_could_be_truthy(&of(vec![
        primitive(PrimitiveValue::Null),
        primitive(PrimitiveValue::Boolean(true)),
    ])));
}

fn at(node_id: u32) -> DataflowNodeId {
    DataflowNodeId {
        location: ProgramPoint { node_id, position: 0 },
        kind: NodeOperationKind::Identifier,
    }
}

#[test]
fn nodes_and_edges_are_found() {
    let node = |node_id, bottom| DataflowNode {
        id: at(node_id),
        operation: NodeOperation::Other,
        abstract_value: AbstractValue { bottom, values: vec![] },
    };
    let edge = |source, target| DataflowEdge {
        source: at(source),
        target: at(target),
        kind: DataflowEdgeKind::DirectFlow,
    };
    let graph = LocalDataflowGraph {
        nodes: vec![node(1, false), node(2, true), node(2, false)],
        edges: vec![edge(1, 2), edge(2, 1), edge(3, 2)],
    };
    assert_eq!(graph.get_node(&at(1)), Some(&graph.nodes[0]));
    assert_eq!(graph.get_node(&at(2)), Some(&graph.nodes[1]));
    assert_eq!(graph.get_node(&at(3)), None);
    assert_eq!(graph.get_reverse_edges(&at(2)), vec![0, 2]);
    assert_eq!(graph.get_reverse_edges(&at(3)), Vec::<usize>::new());
    assert_eq!(graph.get_edge(2), &graph.edges[2]);
}

#[test]
fn control_flow_is_looked_up() {
    let point = |node_id| ProgramPoint { node_id, position: 0 };
    let cfg = CfgQueryEngine {
        blocks: vec![
            BasicBlock {
                dominators: vec![0],
                condition: Some(7),
                branches: vec![
                    BranchPolarity { target: 1, polarity: false },
                    BranchPolarity { target: 1, polarity: true },
                ],
            },
            BasicBlock { dominators: vec![1, 0], condition: None, branches: vec![] },
        ],
        points: vec![
            PlacedPoint { point: point(3), block: 1 },
            PlacedPoint { point: point(3), block: 0 },
        ],
        plans: vec![
            ConditionPlan { condition: 7, polarity: true, plan: ProofPlan::Decided(true) },
            ConditionPlan { condition: 7, polarity: true, plan: ProofPlan::Decided(false) },
        ],
    };
    assert_eq!(cfg.dominators_of(1), vec![1, 0]);
    assert_eq!(cfg.dominators_of(2), Vec::<usize>::new());
    assert_eq!(cfg.condition_of_block(0), Some(7));
    assert_eq!(cfg.condition_of_block(1), None);
    assert_eq!(cfg.condition_of_block(2), None);
    assert_eq!(cfg.sink_branch_polarity(0, 1), Some(false));
    assert_eq!(cfg.sink_branch_polarity(0, 0), None);
    assert_eq!(cfg.sink_branch_polarity(5, 1), None);
    assert_eq!(cfg.block_containing(&point(3)), Some(1));
    assert_eq!(cfg.block_containing(&point(4)), None);
    assert_eq!(cfg.plan_for(7, true), Some(&ProofPlan::Decided(true)));
    assert_eq!(cfg.plan_for(7, false), None);
    assert_eq!(cfg.plan_for(8, true), None);
}

#[test]
fn kinds_have_their_own_numbers() {
    let kinds = [
        NodeOperationKind::Identifier,
        NodeOperationKind::PropertyRead,
        NodeOperationKind::Parameter,
        NodeOperationKind::BinaryOp,
        NodeOperationKind::Other(0),
        NodeOperationKind::Other(u32::MAX),
    ];
    let codes: Vec<u64> = kinds.iter().map(|kind| kind.code()).collect();
    assert_eq!(codes, vec![0, 1, 2, 3, 4, 4 + u32::MAX as u64]);
}

use std::cell::{Cell, RefCell};

use guard_queries::auth_guard::pa_block_is_auth_guarded;
use guard_queries::control_flow::{
    BasicBlock, BranchPolarity, CfgQueryEngine, ConditionPlan, PlacedPoint, ProofPlan,
};
use guard_queries::graph::{DataflowNode, LocalDataflowGraph, NodeOperation};
use guard_queries::id_set::FunctionSet;
use guard_queries::ids::{DataflowNodeId, GlobalNodeId, NodeOperationKind, ProgramPoint};
use guard_queries::plan_learning::{learn_plans, Answer, ProverRun};
use guard_queries::value::AbstractValue;

enum Condition {
    Leaf(u32),
    Not(Box<Condition>),
    And(Box<Condition>, Box<Condition>),
}

fn leaf_of(node_id: u32) -> Box<Condition> {
    Box::new(Condition::Leaf(node_id))
}

fn either(a: Box<Condition>, b: Box<Condition>) -> Box<Condition> {
    Box::new(Condition::Not(Box::new(Condition::And(
        Box::new(Condition::Not(a)),
        Box::new(Condition::Not(b)),
    ))))
}

/// Whether the condition's coming out as `polarity` entails what `answer` says
/// yes to.
fn entails(condition: &Condition, polarity: bool, answer: &dyn Fn(u32, bool) -> bool) -> bool {
    match condition {
        Condition::Leaf(node_id) => answer(*node_id, polarity),
        Condition::Not(inner) => entails(inner, !polarity, answer),
        Condition::And(a, b) => {
            if polarity {
                entails(a, true, answer) || entails(b, true, answer)
            } else {
                entails(a, false, answer) && entails(b, false, answer)
            }
        }
    }
}

fn run_on(condition: &Condition, polarity: bool, vouching: &[u32]) -> ProverRun {
    let answers: RefCell<Vec<Answer>> = RefCell::new(vec![]);
    let proved = entails(condition, polarity, &|node_id, target| {
        let yes = target && vouching.contains(&node_id);
        answers.borrow_mut().push(Answer { node_id, target, yes });
        yes
    });
    ProverRun { answers: answers.into_inner(), proved }
}

const LOGIN: GlobalNodeId = GlobalNodeId { node_id: 1, file: 0 };

fn logins() -> FunctionSet {
    let mut set = FunctionSet::new();
    set.insert(LOGIN);
    set
}

fn named_at(node_id: u32, kind: NodeOperationKind) -> DataflowNodeId {
    DataflowNodeId { location: ProgramPoint { node_id, position: 0 }, kind }
}

fn login_call(node_id: u32) -> DataflowNode {
    DataflowNode {
        id: named_at(node_id, NodeOperationKind::Other(0)),
        operation: NodeOperation::Call { callees: vec![LOGIN], function_name: None },
        abstract_value: AbstractValue { bottom: false, values: vec![] },
    }
}

fn variable(node_id: u32) -> DataflowNode {
    DataflowNode {
        id: named_at(node_id, NodeOperationKind::Identifier),
        operation: NodeOperation::Other,
        abstract_value: AbstractValue { bottom: false, values: vec![] },
    }
}

fn slot(condition: u32) -> ConditionPlan {
    ConditionPlan { condition, polarity: true, plan: ProofPlan::Decided(true) }
}

/// A block that ends in condition 7, and a block behind it.
fn one_condition() -> CfgQueryEngine {
    CfgQueryEngine {
        blocks: vec![
            BasicBlock {
                dominators: vec![0],
                condition: Some(7),
                branches: vec![BranchPolarity { target: 1, polarity: true }],
            },
            BasicBlock { dominators: vec![1, 0], condition: None, branches: vec![] },
        ],
        points: vec![],
        plans: vec![slot(7)],
    }
}

#[test]
fn a_course_is_learned() {
    let graph = LocalDataflowGraph { nodes: vec![login_call(2)], edges: vec![] };
    // `1 && 2`
    let condition = Condition::And(leaf_of(1), leaf_of(2));
    let learned = learn_plans(one_condition(), &graph, &logins(), |_, polarity, v: &Vec<u32>| {
        run_on(&condition, polarity, v)
    });
    assert_eq!(
        learned.plans[0].plan,
        ProofPlan::Ask {
            node_id: 1,
            target: true,
            if_yes: Box::new(ProofPlan::Decided(false)),
            if_no: Box::new(ProofPlan::Ask {
                node_id: 2,
                target: true,
                if_yes: Box::new(ProofPlan::Decided(true)),
                if_no: Box::new(ProofPlan::Decided(false)),
            }),
        }
    );
    assert_eq!(learned.blocks, one_condition().blocks);
    assert!(pa_block_is_auth_guarded(&learned, &graph, 1, &logins(), 0));
}

#[test]
fn what_the_prover_decides_is_what_guards() {
    let conditions: Vec<(Condition, bool)> = vec![
        (Condition::Leaf(2), true),
        (Condition::Leaf(1), false),
        (Condition::Not(leaf_of(2)), false),
        (Condition::Not(Box::new(Condition::Not(leaf_of(2)))), true),
        (Condition::And(leaf_of(1), leaf_of(2)), true),
        (*either(leaf_of(1), leaf_of(2)), false),
        (*either(leaf_of(2), leaf_of(3)), true),
        (Condition::And(either(leaf_of(1), leaf_of(2)), leaf_of(3)), true),
    ];
    let graph = LocalDataflowGraph { nodes: vec![login_call(2), login_call(3)], edges: vec![] };
    for (condition, guards) in &conditions {
        let learned =
            learn_plans(one_condition(), &graph, &logins(), |_, polarity, v: &Vec<u32>| {
                run_on(condition, polarity, v)
            });
        assert_eq!(pa_block_is_auth_guarded(&learned, &graph, 1, &logins(), 0), *guards);
    }
}

#[test]
fn long_conditions_take_one_run_for_each_depth() {
    let mut nodes = vec![];
    let mut condition = *either(leaf_of(100), leaf_of(101));
    for i in 1..40 {
        nodes.push(variable(100 + 2 * i));
        nodes.push(variable(101 + 2 * i));
        condition = Condition::And(
            Box::new(condition),
            either(leaf_of(100 + 2 * i), leaf_of(101 + 2 * i)),
        );
    }
    let graph = LocalDataflowGraph { nodes, edges: vec![] };
    let runs = Cell::new(0);
    let learned = learn_plans(one_condition(), &graph, &logins(), |_, polarity, v: &Vec<u32>| {
        runs.set(runs.get() + 1);
        run_on(&condition, polarity, v)
    });
    assert_eq!(runs.get(), 9);
    assert!(!pa_block_is_auth_guarded(&learned, &graph, 1, &logins(), 0));
}

#[test]
fn guards_that_rest_on_guards_are_learned() {
    // Block `i` is guarded by a value that arises in block `i - 1`; block 1 is
    // guarded by a call.
    let mut cfg = CfgQueryEngine { blocks: vec![], points: vec![], plans: vec![] };
    let mut graph = LocalDataflowGraph { nodes: vec![login_call(100)], edges: vec![] };
    for i in 0..12usize {
        let condition = 100 + i as u32;
        cfg.blocks.push(BasicBlock {
            dominators: if i == 0 { vec![0] } else { vec![i, i - 1] },
            condition: Some(condition),
            branches: vec![BranchPolarity { target: i + 1, polarity: true }],
        });
        cfg.points.push(PlacedPoint {
            point: ProgramPoint { node_id: condition, position: 0 },
            block: i,
        });
        cfg.plans.push(slot(condition));
        if i > 0 {
            graph.nodes.push(variable(condition));
        }
    }
    let learned = learn_plans(cfg, &graph, &logins(), |condition, polarity, v: &Vec<u32>| {
        // Each condition also asks about a node that never vouches.
        run_on(&Condition::And(leaf_of(7), leaf_of(condition)), polarity, v)
    });
    for target in 1..10 {
        assert!(pa_block_is_auth_guarded(&learned, &graph, target, &logins(), 0));
    }
    assert!(!pa_block_is_auth_guarded(&learned, &graph, 10, &logins(), 0));
    assert!(pa_block_is_auth_guarded(&learned, &graph, 1, &logins(), 8));
    assert!(!pa_block_is_auth_guarded(&learned, &graph, 2, &logins(), 8));
}

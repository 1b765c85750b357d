//! What the facts mean: which values can pass a condition, and what is found when
//! something is looked up.

use vstd::prelude::*;

use crate::control_flow::{BranchPolarity, CfgQueryEngine, ProofPlan};
use crate::graph::{DataflowNode, LocalDataflowGraph};
use crate::ids::{DataflowNodeId, ProgramPoint};
use crate::value;
use crate::value::{pa_value_could_be_truthy, AbstractValue, PrimitiveValue, Type};

verus! {

/// One listed value that can pass a condition is enough, wherever it is listed:
/// `true`, a number other than zero, any string, any other primitive value, or
/// anything that is not primitive.
pub proof fn law_one_passing_value_is_enough(value: AbstractValue, i: int)
    requires
        0 <= i < value.values@.len(),
        value.values@[i] != Type::Primitive(PrimitiveValue::Boolean(false)),
        value.values@[i] != Type::Primitive(PrimitiveValue::Number(0)),
        value.values@[i] != Type::Primitive(PrimitiveValue::Number(0x8000_0000_0000_0000)),
        value.values@[i] != Type::Primitive(PrimitiveValue::Null),
        value.values@[i] != Type::Primitive(PrimitiveValue::Undefined),
    ensures
        value::could_be_truthy(value),
        forall|truthy: bool| #[trigger]
            call_ensures(pa_value_could_be_truthy, (&value,), truthy) ==> truthy,
{
    assert(!value::never_truthy(value.values@[i]));
}

/// A value that is known to be `false`, zero, `null` or `undefined` cannot pass.
pub proof fn law_falsy_values_do_not_pass(value: AbstractValue)
    requires
        value.values@.len() > 0,
        forall|i: int|
            0 <= i < value.values@.len() ==> {
                ||| #[trigger] value.values@[i] == Type::Primitive(PrimitiveValue::Boolean(false))
                ||| value.values@[i] == Type::Primitive(PrimitiveValue::Number(0))
                ||| value.values@[i] == Type::Primitive(
                    PrimitiveValue::Number(0x8000_0000_0000_0000),
                )
                ||| value.values@[i] == Type::Primitive(PrimitiveValue::Null)
                ||| value.values@[i] == Type::Primitive(PrimitiveValue::Undefined)
            },
    ensures
        !value::could_be_truthy(value),
        forall|truthy: bool| #[trigger]
            call_ensures(pa_value_could_be_truthy, (&value,), truthy) ==> !truthy,
{
}

/// A value of which nothing is known can pass.
pub proof fn law_unknown_values_can_pass(value: AbstractValue)
    requires
        value.values@.len() == 0,
    ensures
        value::could_be_truthy(value),
        forall|truthy: bool| #[trigger]
            call_ensures(pa_value_could_be_truthy, (&value,), truthy) ==> truthy,
{
}

/// Neither the order in which values are listed, nor how often each is, nor
/// whether the value can arise at all bears on whether it can pass.
pub proof fn law_listing_does_not_matter(a: AbstractValue, b: AbstractValue)
    requires
        forall|t: Type| #[trigger] a.values@.contains(t) <==> b.values@.contains(t),
    ensures
        value::could_be_truthy(a) == value::could_be_truthy(b),
        forall|x: bool, y: bool| #[trigger]
            call_ensures(pa_value_could_be_truthy, (&a,), x) && #[trigger] call_ensures(
                pa_value_could_be_truthy,
                (&b,),
                y,
            ) ==> x == y,
{
    if value::could_be_truthy(a) {
        lemma_listed_alike(a, b);
    }
    if value::could_be_truthy(b) {
        lemma_listed_alike(b, a);
    }
}

proof fn lemma_listed_alike(a: AbstractValue, b: AbstractValue)
    requires
        forall|t: Type| #[trigger] a.values@.contains(t) <==> b.values@.contains(t),
        value::could_be_truthy(a),
    ensures
        value::could_be_truthy(b),
{
    if a.values@.len() == 0 {
        if b.values@.len() > 0 {
            assert(b.values@.contains(b.values@[0]));
            assert(a.values@.contains(b.values@[0]));
        }
    } else {
        let i = choose|i: int|
            0 <= i < a.values@.len() && !value::never_truthy(#[trigger] a.values@[i]);
        assert(a.values@.contains(a.values@[i]));
        let k = choose|k: int| 0 <= k < b.values@.len() && b.values@[k] == a.values@[i];
        assert(!value::never_truthy(b.values@[k]));
    }
}

/// A value that may be one or the other can pass where one of them can.
pub proof fn law_joined_values_pass_alike(a: AbstractValue, b: AbstractValue, joined: AbstractValue)
    requires
        a.values@.len() > 0,
        b.values@.len() > 0,
        joined.values@ == a.values@ + b.values@,
    ensures
        value::could_be_truthy(joined) == (value::could_be_truthy(a) || value::could_be_truthy(b)),
{
    if value::could_be_truthy(a) {
        let i = choose|i: int|
            0 <= i < a.values@.len() && !value::never_truthy(#[trigger] a.values@[i]);
        assert(joined.values@[i] == a.values@[i]);
    }
    if value::could_be_truthy(b) {
        let i = choose|i: int|
            0 <= i < b.values@.len() && !value::never_truthy(#[trigger] b.values@[i]);
        assert(joined.values@[a.values@.len() + i] == b.values@[i]);
    }
    if value::could_be_truthy(joined) {
        let i = choose|i: int|
            0 <= i < joined.values@.len() && !value::never_truthy(#[trigger] joined.values@[i]);
        if i < a.values@.len() {
            assert(a.values@[i] == joined.values@[i]);
        } else {
            assert(b.values@[i - a.values@.len()] == joined.values@[i]);
        }
    }
}

/// Node number `n` is the one that its name stands for: no earlier node has the
/// name.
pub open spec fn is_first_node(dfg: LocalDataflowGraph, n: int, id: DataflowNodeId) -> bool {
    &&& 0 <= n < dfg.nodes@.len()
    &&& dfg.nodes@[n].id == id
    &&& forall|m: int| 0 <= m < n ==> (#[trigger] dfg.nodes@[m]).id != id
}

/// A name stands for the first node that has it, and for none where no node has
/// it.
pub proof fn law_names_stand_for_nodes(dfg: LocalDataflowGraph, id: DataflowNodeId)
    ensures
        forall|n: int| #[trigger]
            is_first_node(dfg, n, id) ==> dfg.spec_node(id) == Some(dfg.nodes@[n]),
        dfg.spec_node(id) is Some ==> exists|n: int| is_first_node(dfg, n, id),
        dfg.spec_node(id) is None <==> forall|n: int|
            0 <= n < dfg.nodes@.len() ==> (#[trigger] dfg.nodes@[n]).id != id,
        forall|found: Option<&DataflowNode>| #[trigger]
            call_ensures(LocalDataflowGraph::get_node, (&dfg, &id), found) ==> match found {
                Some(node) => exists|n: int| #[trigger]
                    is_first_node(dfg, n, id) && *node == dfg.nodes@[n],
                None => forall|n: int|
                    0 <= n < dfg.nodes@.len() ==> (#[trigger] dfg.nodes@[n]).id != id,
            },
{
    lemma_first_named(dfg, id, 0);
    assert(dfg.nodes@.skip(0) =~= dfg.nodes@);
}

proof fn lemma_first_named(dfg: LocalDataflowGraph, id: DataflowNodeId, from: int)
    requires
        0 <= from <= dfg.nodes@.len(),
        forall|m: int| 0 <= m < from ==> (#[trigger] dfg.nodes@[m]).id != id,
    ensures
        match crate::graph::first_named(dfg.nodes@.skip(from), id) {
            Some(node) => exists|n: int| #[trigger]
                is_first_node(dfg, n, id) && node == dfg.nodes@[n],
            None => forall|n: int|
                0 <= n < dfg.nodes@.len() ==> (#[trigger] dfg.nodes@[n]).id != id,
        },
    decreases dfg.nodes@.len() - from,
{
    let rest = dfg.nodes@.skip(from);
    if from < dfg.nodes@.len() {
        assert(rest[0] == dfg.nodes@[from]);
        assert(rest.skip(1) =~= dfg.nodes@.skip(from + 1));
        if rest[0].id == id {
            assert(is_first_node(dfg, from, id));
        } else {
            lemma_first_named(dfg, id, from + 1);
        }
    }
}

/// Entry number `k` is the first that places the point.
pub open spec fn is_first_place(cfg: CfgQueryEngine, k: int, point: ProgramPoint) -> bool {
    &&& 0 <= k < cfg.points@.len()
    &&& cfg.points@[k].point == point
    &&& forall|l: int| 0 <= l < k ==> (#[trigger] cfg.points@[l]).point != point
}

/// A point lies in the block of the first entry for it, and in none where there
/// is no entry.
pub proof fn law_points_lie_in_blocks(cfg: CfgQueryEngine, point: ProgramPoint)
    ensures
        forall|k: int| #[trigger]
            is_first_place(cfg, k, point) ==> cfg.spec_block(point) == Some(cfg.points@[k].block),
        cfg.spec_block(point) is Some ==> exists|k: int| is_first_place(cfg, k, point),
        cfg.spec_block(point) is None <==> forall|k: int|
            0 <= k < cfg.points@.len() ==> (#[trigger] cfg.points@[k]).point != point,
        forall|found: Option<usize>| #[trigger]
            call_ensures(CfgQueryEngine::block_containing, (&cfg, &point), found) ==> match found {
                Some(block) => exists|k: int| #[trigger]
                    is_first_place(cfg, k, point) && block == cfg.points@[k].block,
                None => forall|k: int|
                    0 <= k < cfg.points@.len() ==> (#[trigger] cfg.points@[k]).point != point,
            },
{
    lemma_first_block(cfg, point, 0);
    assert(cfg.points@.skip(0) =~= cfg.points@);
}

proof fn lemma_first_block(cfg: CfgQueryEngine, point: ProgramPoint, from: int)
    requires
        0 <= from <= cfg.points@.len(),
        forall|l: int| 0 <= l < from ==> (#[trigger] cfg.points@[l]).point != point,
    ensures
        match crate::control_flow::first_block(cfg.points@.skip(from), point) {
            Some(block) => exists|k: int| #[trigger]
                is_first_place(cfg, k, point) && cfg.points@[k].block == block,
            None => forall|k: int|
                0 <= k < cfg.points@.len() ==> (#[trigger] cfg.points@[k]).point != point,
        },
    decreases cfg.points@.len() - from,
{
    let rest = cfg.points@.skip(from);
    if from < cfg.points@.len() {
        assert(rest[0] == cfg.points@[from]);
        assert(rest.skip(1) =~= cfg.points@.skip(from + 1));
        if rest[0].point == point {
            assert(is_first_place(cfg, from, point));
        } else {
            lemma_first_block(cfg, point, from + 1);
        }
    }
}

/// Branch number `k` is the first that leads to the target.
pub open spec fn is_first_branch(branches: Seq<BranchPolarity>, k: int, target: usize) -> bool {
    &&& 0 <= k < branches.len()
    &&& branches[k].target == target
    &&& forall|l: int| 0 <= l < k ==> (#[trigger] branches[l]).target != target
}

/// A branch has the polarity of the dominator's first entry for the target, and
/// none where there is no entry or no such dominator.
pub proof fn law_branches_have_polarities(cfg: CfgQueryEngine, dominator: usize, target: usize)
    ensures
        dominator >= cfg.blocks@.len() ==> cfg.spec_polarity(dominator, target) is None,
        dominator < cfg.blocks@.len() ==> {
            let branches = cfg.blocks@[dominator as int].branches@;
            &&& forall|k: int| #[trigger]
                is_first_branch(branches, k, target) ==> cfg.spec_polarity(dominator, target)
                    == Some(branches[k].polarity)
            &&& cfg.spec_polarity(dominator, target) is Some ==> exists|k: int|
                is_first_branch(branches, k, target)
            &&& cfg.spec_polarity(dominator, target) is None <==> forall|k: int|
                0 <= k < branches.len() ==> (#[trigger] branches[k]).target != target
        },
        forall|found: Option<bool>| #[trigger]
            call_ensures(CfgQueryEngine::sink_branch_polarity, (&cfg, dominator, target), found)
                ==> match found {
                Some(polarity) => dominator < cfg.blocks@.len() && exists|k: int| #[trigger]
                    is_first_branch(cfg.blocks@[dominator as int].branches@, k, target) && polarity
                        == cfg.blocks@[dominator as int].branches@[k].polarity,
                None => dominator < cfg.blocks@.len() ==> forall|k: int|
                    0 <= k < cfg.blocks@[dominator as int].branches@.len() ==> (
                    #[trigger] cfg.blocks@[dominator as int].branches@[k]).target != target,
            },
{
    if dominator < cfg.blocks@.len() {
        let branches = cfg.blocks@[dominator as int].branches@;
        lemma_first_polarity(branches, target, 0);
        assert(branches.skip(0) =~= branches);
    }
}

proof fn lemma_first_polarity(
    branches: Seq<BranchPolarity>,
    target: usize,
    from: int,
)
    requires
        0 <= from <= branches.len(),
        forall|l: int| 0 <= l < from ==> (#[trigger] branches[l]).target != target,
    ensures
        match crate::control_flow::first_polarity(branches.skip(from), target) {
            Some(polarity) => exists|k: int| #[trigger]
                is_first_branch(branches, k, target) && branches[k].polarity == polarity,
            None => forall|k: int|
                0 <= k < branches.len() ==> (#[trigger] branches[k]).target != target,
        },
    decreases branches.len() - from,
{
    let rest = branches.skip(from);
    if from < branches.len() {
        assert(rest[0] == branches[from]);
        assert(rest.skip(1) =~= branches.skip(from + 1));
        if rest[0].target == target {
            assert(is_first_branch(branches, from, target));
        } else {
            lemma_first_polarity(branches, target, from + 1);
        }
    }
}

/// Entry number `k` is the first plan for the outcome of the condition.
pub open spec fn is_first_plan(
    cfg: CfgQueryEngine,
    k: int,
    condition: u32,
    polarity: bool,
) -> bool {
    &&& 0 <= k < cfg.plans@.len()
    &&& cfg.plans@[k].condition == condition
    &&& cfg.plans@[k].polarity == polarity
    &&& forall|l: int|
        0 <= l < k ==> (#[trigger] cfg.plans@[l]).condition != condition || cfg.plans@[l].polarity
            != polarity
}

/// An outcome of a condition has the first plan listed for it, and none where
/// none is listed.
pub proof fn law_conditions_have_plans(cfg: CfgQueryEngine, condition: u32, polarity: bool)
    ensures
        forall|k: int| #[trigger]
            is_first_plan(cfg, k, condition, polarity) ==> cfg.spec_plan(condition, polarity)
                == Some(cfg.plans@[k].plan),
        cfg.spec_plan(condition, polarity) is Some ==> exists|k: int|
            is_first_plan(cfg, k, condition, polarity),
        cfg.spec_plan(condition, polarity) is None <==> forall|k: int|
            0 <= k < cfg.plans@.len() ==> (#[trigger] cfg.plans@[k]).condition != condition
                || cfg.plans@[k].polarity != polarity,
        forall|found: Option<&ProofPlan>| #[trigger]
            call_ensures(CfgQueryEngine::plan_for, (&cfg, condition, polarity), found)
                ==> match found {
                Some(plan) => exists|k: int| #[trigger]
                    is_first_plan(cfg, k, condition, polarity) && *plan == cfg.plans@[k].plan,
                None => forall|k: int|
                    0 <= k < cfg.plans@.len() ==> (#[trigger] cfg.plans@[k]).condition != condition
                        || cfg.plans@[k].polarity != polarity,
            },
{
    lemma_first_plan(cfg, condition, polarity, 0);
    assert(cfg.plans@.skip(0) =~= cfg.plans@);
}

proof fn lemma_first_plan(cfg: CfgQueryEngine, condition: u32, polarity: bool, from: int)
    requires
        0 <= from <= cfg.plans@.len(),
        forall|l: int|
            0 <= l < from ==> (#[trigger] cfg.plans@[l]).condition != condition
                || cfg.plans@[l].polarity != polarity,
    ensures
        match crate::control_flow::first_plan(cfg.plans@.skip(from), condition, polarity) {
            Some(plan) => exists|k: int| #[trigger]
                is_first_plan(cfg, k, condition, polarity) && cfg.plans@[k].plan == plan,
            None => forall|k: int|
                0 <= k < cfg.plans@.len() ==> (#[trigger] cfg.plans@[k]).condition != condition
                    || cfg.plans@[k].polarity != polarity,
        },
    decreases cfg.plans@.len() - from,
{
    let rest = cfg.plans@.skip(from);
    if from < cfg.plans@.len() {
        assert(rest[0] == cfg.plans@[from]);
        assert(rest.skip(1) =~= cfg.plans@.skip(from + 1));
        if rest[0].condition == condition && rest[0].polarity == polarity {
            assert(is_first_plan(cfg, from, condition, polarity));
        } else {
            lemma_first_plan(cfg, condition, polarity, from + 1);
        }
    }
}

/// A block has the dominators and the condition that are listed for it; a block
/// that does not exist has none.
pub proof fn law_blocks_are_as_listed(cfg: CfgQueryEngine, block: usize)
    ensures
        block < cfg.blocks@.len() ==> cfg.spec_dominators(block)
            == cfg.blocks@[block as int].dominators@ && cfg.spec_condition(block)
            == cfg.blocks@[block as int].condition,
        block >= cfg.blocks@.len() ==> cfg.spec_dominators(block).len() == 0
            && cfg.spec_condition(block) is None,
        forall|listed: Vec<usize>| #[trigger]
            call_ensures(CfgQueryEngine::dominators_of, (&cfg, block), listed) ==> if block
                < cfg.blocks@.len() {
                listed@ == cfg.blocks@[block as int].dominators@
            } else {
                listed@.len() == 0
            },
        forall|condition: Option<u32>| #[trigger]
            call_ensures(CfgQueryEngine::condition_of_block, (&cfg, block), condition)
                ==> if block < cfg.blocks@.len() {
                condition == cfg.blocks@[block as int].condition
            } else {
                condition is None
            },
{
}

/// A plan decides what its course of questions comes to: `left` holds what is left
/// of the plan after each answer, from the whole plan to a decision.
pub proof fn law_plans_decide_by_their_course(
    plan: ProofPlan,
    answer: spec_fn(u32, bool) -> bool,
    left: Seq<ProofPlan>,
    proved: bool,
)
    requires
        left.len() > 0,
        left[0] == plan,
        left.last() == ProofPlan::Decided(proved),
        forall|k: int|
            0 <= k < left.len() - 1 ==> ((#[trigger] left[k]) matches ProofPlan::Ask {
                node_id,
                target,
                if_yes,
                if_no,
            } && if answer(node_id, target) {
                left[k + 1] == *if_yes
            } else {
                left[k + 1] == *if_no
            }),
    ensures
        plan.outcome(answer) == proved,
    decreases left.len(),
{
    if left.len() > 1 {
        let rest = left.skip(1);
        assert(left[0] is Ask);
        assert(rest[0] == left[1]);
        assert forall|k: int| 0 <= k < rest.len() - 1 implies ((
        #[trigger] rest[k]) matches ProofPlan::Ask { node_id, target, if_yes, if_no }
            && if answer(node_id, target) {
            rest[k + 1] == *if_yes
        } else {
            rest[k + 1] == *if_no
        }) by {
            assert(rest[k] == left[k + 1] && rest[k + 1] == left[k + 2]);
        }
        law_plans_decide_by_their_course(rest[0], answer, rest, proved);
    }
}

} // verus!

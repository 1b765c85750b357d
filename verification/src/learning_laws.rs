//! What is learned from a prover, told by its runs.

use vstd::prelude::*;

use crate::control_flow::{CfgQueryEngine, ProofPlan};
use crate::fact_laws;
use crate::graph::LocalDataflowGraph;
use crate::id_set::FunctionSet;
use crate::plan_learning;
use crate::plan_learning::{learn_plans, Answer, ProverRun};

verus! {

/// The run takes its course through the plan: `left` holds what is left of the plan
/// before each question and at the end. A question is answered with yes exactly if
/// it is for a true outcome of one of the listed syntax nodes.
pub open spec fn runs_through(
    run: ProverRun,
    plan: ProofPlan,
    vouching: Seq<u32>,
    left: Seq<ProofPlan>,
) -> bool {
    &&& left.len() == run.answers@.len() + 1
    &&& left[0] == plan
    &&& left.last() == ProofPlan::Decided(run.proved)
    &&& forall|k: int| 0 <= k < run.answers@.len() ==> goes_on(
        #[trigger] left[k],
        run.answers@[k],
        vouching,
        left[k + 1],
    )
}

/// The plan asks the question, the answer is the one that is due, and it leads on to
/// the rest.
pub open spec fn goes_on(
    plan: ProofPlan,
    answer: Answer,
    vouching: Seq<u32>,
    rest: ProofPlan,
) -> bool {
    &&& plan matches ProofPlan::Ask { node_id, target, if_yes, if_no }
    &&& answer.node_id == node_id
    &&& answer.target == target
    &&& answer.yes <==> target && exists|v: int|
        0 <= v < vouching.len() && #[trigger] vouching[v] == node_id
    &&& rest == if answer.yes {
        *if_yes
    } else {
        *if_no
    }
}

/// The prover runs through the plans of `full`; where there is none it asks nothing
/// and proves nothing.
pub open spec fn keeps_to<P: Fn(u32, bool, &Vec<u32>) -> ProverRun>(
    prover: P,
    full: CfgQueryEngine,
) -> bool {
    forall|condition: u32, polarity: bool, vouching: &Vec<u32>, run: ProverRun| #[trigger]
        call_ensures(prover, (condition, polarity, vouching), run) ==> {
            ||| exists|k: int, left: Seq<ProofPlan>|
                #![trigger fact_laws::is_first_plan(full, k, condition, polarity), runs_through(run, full.plans@[k].plan, vouching@, left)]
                fact_laws::is_first_plan(full, k, condition, polarity) && runs_through(
                    run,
                    full.plans@[k].plan,
                    vouching@,
                    left,
                )
            ||| run.answers@.len() == 0 && !run.proved && forall|k: int|
                !#[trigger] fact_laws::is_first_plan(full, k, condition, polarity)
        }
}

/// Some plan is listed for the outcome of the condition.
pub open spec fn lists_plan(cfg: CfgQueryEngine, condition: u32, polarity: bool) -> bool {
    exists|i: int|
        0 <= i < cfg.plans@.len() && (#[trigger] cfg.plans@[i]).condition == condition
            && cfg.plans@[i].polarity == polarity
}

proof fn lemma_run(
    run: ProverRun,
    plan: ProofPlan,
    vouching: Seq<u32>,
    left: Seq<ProofPlan>,
    from: int,
)
    requires
        runs_through(run, plan, vouching, left),
        0 <= from <= run.answers@.len(),
    ensures
        run.answers@.skip(from) == plan_learning::course(
            left[from],
            plan_learning::yes_to(vouching),
        ),
        run.proved == left[from].outcome(plan_learning::yes_to(vouching)),
    decreases run.answers@.len() - from,
{
    let answer = plan_learning::yes_to(vouching);
    if from < run.answers@.len() {
        assert(goes_on(left[from], run.answers@[from], vouching, left[from + 1]));
        lemma_run(run, plan, vouching, left, from + 1);
        let first = run.answers@[from];
        assert(first.yes == answer(first.node_id, first.target));
        assert(run.answers@.skip(from) =~= seq![first] + run.answers@.skip(from + 1));
    } else {
        assert(left[from] == left.last());
        assert(run.answers@.skip(from) =~= Seq::<Answer>::empty());
    }
}

/// A prover whose runs take their courses through the plans of `full` follows them,
/// and what is learned from it is held to them.
pub proof fn law_runs_through_plans_follow_them<P: Fn(u32, bool, &Vec<u32>) -> ProverRun>(
    prover: P,
    full: CfgQueryEngine,
)
    requires
        keeps_to(prover, full),
    ensures
        plan_learning::follows_plans(prover, full),
{
    assert forall|condition: u32, polarity: bool, vouching: &Vec<u32>, run: ProverRun| #[trigger]
        call_ensures(prover, (condition, polarity, vouching), run) implies {
        let plan = plan_learning::plan_or_none(full, condition, polarity);
        run.answers@ == plan_learning::course(plan, plan_learning::yes_to(vouching@)) && run.proved
            == plan.outcome(plan_learning::yes_to(vouching@))
    } by {
        fact_laws::law_conditions_have_plans(full, condition, polarity);
        if exists|k: int| fact_laws::is_first_plan(full, k, condition, polarity) {
            let (k, left) = choose|k: int, left: Seq<ProofPlan>|
                #![trigger fact_laws::is_first_plan(full, k, condition, polarity), runs_through(run, full.plans@[k].plan, vouching@, left)]
                fact_laws::is_first_plan(full, k, condition, polarity) && runs_through(
                    run,
                    full.plans@[k].plan,
                    vouching@,
                    left,
                );
            lemma_run(run, full.plans@[k].plan, vouching@, left, 0);
            assert(run.answers@.skip(0) =~= run.answers@);
        } else {
            assert(full.spec_plan(condition, polarity) is None);
            assert(run.answers@ =~= Seq::<Answer>::empty());
        }
    }
}

/// Facts with the same blocks and points, and plans listed for the same outcomes, in
/// whatever order, have the same conditions.
pub proof fn law_listed_conditions_are_the_same(cfg: CfgQueryEngine, full: CfgQueryEngine)
    requires
        full.blocks@ == cfg.blocks@,
        full.points@ == cfg.points@,
        forall|condition: u32, polarity: bool|
            #![trigger lists_plan(cfg, condition, polarity)]
            #![trigger lists_plan(full, condition, polarity)]
            lists_plan(cfg, condition, polarity) == lists_plan(full, condition, polarity),
    ensures
        plan_learning::same_conditions(cfg, full),
{
    assert forall|condition: u32, polarity: bool|
        cfg.spec_plan(condition, polarity) is Some == full.spec_plan(
            condition,
            polarity,
        ) is Some by {
        fact_laws::law_conditions_have_plans(cfg, condition, polarity);
        fact_laws::law_conditions_have_plans(full, condition, polarity);
        assert(lists_plan(cfg, condition, polarity) == lists_plan(full, condition, polarity));
    }
}

/// Learning keeps the blocks, the points, and which outcome of which condition each
/// plan is for.
pub proof fn law_learning_changes_plans_alone<P: Fn(u32, bool, &Vec<u32>) -> ProverRun>(
    cfg: CfgQueryEngine,
    dfg: LocalDataflowGraph,
    auth_fn_ids: FunctionSet,
    prover: P,
    learned: CfgQueryEngine,
)
    requires
        call_ensures(learn_plans::<P>, (cfg, &dfg, &auth_fn_ids, prover), learned),
    ensures
        learned.blocks@ == cfg.blocks@,
        learned.points@ == cfg.points@,
        learned.plans@.len() == cfg.plans@.len(),
        forall|i: int|
            0 <= i < cfg.plans@.len() ==> (#[trigger] learned.plans@[i]).condition
                == cfg.plans@[i].condition && learned.plans@[i].polarity == cfg.plans@[i].polarity,
{
}

/// Plans can be learned wherever the prover can be run on each listed outcome.
pub proof fn law_plans_can_be_learned<P: Fn(u32, bool, &Vec<u32>) -> ProverRun>(
    cfg: CfgQueryEngine,
    dfg: LocalDataflowGraph,
    auth_fn_ids: FunctionSet,
    prover: P,
)
    requires
        forall|i: int, vouching: &Vec<u32>|
            #![trigger cfg.plans@[i], vouching@]
            0 <= i < cfg.plans@.len() ==> call_requires(
                prover,
                (cfg.plans@[i].condition, cfg.plans@[i].polarity, vouching),
            ),
    ensures
        call_requires(learn_plans::<P>, (cfg, &dfg, &auth_fn_ids, prover)),
{
    assert forall|i: int| 0 <= i < cfg.plans@.len() implies plan_learning::accepts(
        prover,
        (#[trigger] cfg.plans@[i]).condition,
        cfg.plans@[i].polarity,
    ) by {
        assert forall|vouching: &Vec<u32>|
            call_requires(
                prover,
                (cfg.plans@[i].condition, cfg.plans@[i].polarity, vouching),
            ) by {
            let listed = vouching@;
        }
    }
}

} // verus!

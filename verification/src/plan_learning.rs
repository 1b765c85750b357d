//! Learning proof plans from the runs of a prover.
//!
//! A prover decides a condition by asking questions one by one. It is run once
//! for each condition and each depth at which a guard may rest on another guard,
//! with the answers that hold at that depth. Each run shows one course through
//! the plan that the prover follows; together the runs show all that the queries
//! ever follow.

use vstd::prelude::*;

use crate::auth_guard;
use crate::auth_guard::{pa_leaf_is_auth, MAX_PROVENANCE_DEPTH};
use crate::control_flow;
use crate::control_flow::{CfgQueryEngine, ConditionPlan, ProofPlan};
use crate::graph::LocalDataflowGraph;
use crate::id_set::FunctionSet;
use crate::ids::{DataflowNodeId, GlobalNodeId};
use crate::provenance;

verus! {

/// A question, and the answer that it was given.
#[derive(Clone, Copy, Debug, PartialEq, Eq, Structural)]
pub struct Answer {
    /// The syntax node asked about.
    pub node_id: u32,
    /// The outcome asked about.
    pub target: bool,
    /// The answer.
    pub yes: bool,
}

/// A run of a prover: the questions in the order in which they were asked, and
/// the decision.
#[derive(Debug, PartialEq, Eq)]
pub struct ProverRun {
    /// The questions and their answers.
    pub answers: Vec<Answer>,
    /// Whether the condition is proved.
    pub proved: bool,
}

/// The questions that a plan asks, with the answers they are given.
pub open spec fn course(plan: ProofPlan, answer: spec_fn(u32, bool) -> bool) -> Seq<Answer>
    decreases plan,
{
    match plan {
        ProofPlan::Decided(_) => Seq::empty(),
        ProofPlan::Ask { node_id, target, if_yes, if_no } => {
            let yes = answer(node_id, target);
            seq![Answer { node_id, target, yes }] + course(
                if yes {
                    *if_yes
                } else {
                    *if_no
                },
                answer,
            )
        },
    }
}

/// The answers that say yes to a positive outcome of the listed syntax nodes.
pub open spec fn yes_to(vouching: Seq<u32>) -> spec_fn(u32, bool) -> bool {
    |node_id: u32, target: bool| target && vouching.contains(node_id)
}

/// The plan for an outcome of a condition; without one, nothing is proved.
pub open spec fn plan_or_none(cfg: CfgQueryEngine, condition: u32, polarity: bool) -> ProofPlan {
    match cfg.spec_plan(condition, polarity) {
        Some(plan) => plan,
        None => ProofPlan::Decided(false),
    }
}

/// The prover follows the plans of `full`.
pub open spec fn follows_plans<P: Fn(u32, bool, &Vec<u32>) -> ProverRun>(
    prover: P,
    full: CfgQueryEngine,
) -> bool {
    forall|condition: u32, polarity: bool, vouching: &Vec<u32>, run: ProverRun| #[trigger]
        call_ensures(prover, (condition, polarity, vouching), run) ==> {
            let plan = plan_or_none(full, condition, polarity);
            run.answers@ == course(plan, yes_to(vouching@)) && run.proved == plan.outcome(
                yes_to(vouching@),
            )
        }
}

/// The prover can be run on an outcome of a condition.
pub open spec fn accepts<P: Fn(u32, bool, &Vec<u32>) -> ProverRun>(
    prover: P,
    condition: u32,
    polarity: bool,
) -> bool {
    forall|vouching: &Vec<u32>| call_requires(prover, (condition, polarity, vouching))
}

/// The same blocks and points, and plans for the same outcomes of conditions.
pub open spec fn same_conditions(a: CfgQueryEngine, b: CfgQueryEngine) -> bool {
    &&& a.blocks@ == b.blocks@
    &&& a.points@ == b.points@
    &&& forall|condition: u32, polarity: bool|
        #![trigger a.spec_plan(condition, polarity)]
        #![trigger b.spec_plan(condition, polarity)]
        a.spec_plan(condition, polarity) is Some == b.spec_plan(condition, polarity) is Some
}

/// The plan after a run is added to it. What was not yet known beside the run's
/// course counts as not proved.
pub open spec fn taught(plan: ProofPlan, answers: Seq<Answer>, proved: bool) -> ProofPlan
    decreases answers.len(),
{
    if answers.len() == 0 {
        ProofPlan::Decided(proved)
    } else {
        let first = answers[0];
        let (if_yes, if_no) = branches(plan, first);
        if first.yes {
            ProofPlan::Ask {
                node_id: first.node_id,
                target: first.target,
                if_yes: Box::new(taught(if_yes, answers.skip(1), proved)),
                if_no: Box::new(if_no),
            }
        } else {
            ProofPlan::Ask {
                node_id: first.node_id,
                target: first.target,
                if_yes: Box::new(if_yes),
                if_no: Box::new(taught(if_no, answers.skip(1), proved)),
            }
        }
    }
}

/// How the plan goes on after the question, as far as it is known.
pub open spec fn branches(plan: ProofPlan, answer: Answer) -> (ProofPlan, ProofPlan) {
    match plan {
        ProofPlan::Ask { node_id, target, if_yes, if_no } if node_id == answer.node_id && target
            == answer.target => (*if_yes, *if_no),
        _ => (ProofPlan::Decided(false), ProofPlan::Decided(false)),
    }
}

/// The plan asks nothing but what `full` asks at the same place.
pub open spec fn is_part_of(plan: ProofPlan, full: ProofPlan) -> bool
    decreases plan,
{
    match plan {
        ProofPlan::Decided(_) => true,
        ProofPlan::Ask { node_id, target, if_yes, if_no } => match full {
            ProofPlan::Decided(_) => false,
            ProofPlan::Ask { node_id: n, target: t, if_yes: y, if_no: o } => {
                &&& node_id == n
                &&& target == t
                &&& is_part_of(*if_yes, *y)
                &&& is_part_of(*if_no, *o)
            },
        },
    }
}

/// The plan is known along the course that `full` takes with the answers.
pub open spec fn is_known(
    plan: ProofPlan,
    full: ProofPlan,
    answer: spec_fn(u32, bool) -> bool,
) -> bool
    decreases full,
{
    match full {
        ProofPlan::Decided(_) => plan == full,
        ProofPlan::Ask { node_id: n, target: t, if_yes: y, if_no: o } => match plan {
            ProofPlan::Decided(_) => false,
            ProofPlan::Ask { node_id, target, if_yes, if_no } => {
                &&& node_id == n
                &&& target == t
                &&& if answer(n, t) {
                    is_known(*if_yes, *y, answer)
                } else {
                    is_known(*if_no, *o, answer)
                }
            },
        },
    }
}

/// A plan that is known along a course decides there as the full plan does.
pub proof fn law_known_plans_decide_alike(
    plan: ProofPlan,
    full: ProofPlan,
    answer: spec_fn(u32, bool) -> bool,
)
    requires
        is_known(plan, full, answer),
    ensures
        plan.outcome(answer) == full.outcome(answer),
    decreases full,
{
    if let ProofPlan::Ask { node_id: n, target: t, if_yes: y, if_no: o } = full {
        if answer(n, t) {
            law_known_plans_decide_alike(*plan->if_yes, *y, answer);
        } else {
            law_known_plans_decide_alike(*plan->if_no, *o, answer);
        }
    }
}

/// Adding a run of the full plan makes the plan known along the run's course, and
/// forgets nothing that was known along another.
pub proof fn law_runs_add_knowledge(
    plan: ProofPlan,
    full: ProofPlan,
    answer: spec_fn(u32, bool) -> bool,
    other: spec_fn(u32, bool) -> bool,
)
    requires
        is_part_of(plan, full),
    ensures
        is_part_of(taught(plan, course(full, answer), full.outcome(answer)), full),
        is_known(taught(plan, course(full, answer), full.outcome(answer)), full, answer),
        is_known(plan, full, other) ==> is_known(
            taught(plan, course(full, answer), full.outcome(answer)),
            full,
            other,
        ),
    decreases full,
{
    if let ProofPlan::Ask { node_id, target, if_yes, if_no } = full {
        let first = Answer { node_id, target, yes: answer(node_id, target) };
        let (known_yes, known_no) = branches(plan, first);
        let rest = course(
            if first.yes {
                *if_yes
            } else {
                *if_no
            },
            answer,
        );
        assert(course(full, answer)[0] == first);
        assert(course(full, answer).skip(1) =~= rest);
        if first.yes {
            law_runs_add_knowledge(known_yes, *if_yes, answer, other);
        } else {
            law_runs_add_knowledge(known_no, *if_no, answer, other);
        }
    }
}

/// The answers that hold where guards are trusted within the given rounds.
pub open spec fn answers_within(
    cfg: CfgQueryEngine,
    dfg: LocalDataflowGraph,
    auth: Set<GlobalNodeId>,
    rounds: nat,
) -> spec_fn(u32, bool) -> bool {
    auth_guard::leaf_answers(
        cfg,
        dfg,
        auth,
        auth_guard::trusted_blocks(cfg, dfg, auth, rounds),
    )
}

/// The plans are part of those of `full`, and known along the courses that `full`
/// takes within fewer than the given rounds.
pub open spec fn plans_are_known(
    plans: Seq<ConditionPlan>,
    full: CfgQueryEngine,
    dfg: LocalDataflowGraph,
    auth: Set<GlobalNodeId>,
    rounds: nat,
) -> bool {
    forall|i: int|
        0 <= i < plans.len() ==> plan_is_known(#[trigger] plans[i], full, dfg, auth, rounds)
}

/// The same of one plan.
pub open spec fn plan_is_known(
    plan: ConditionPlan,
    full: CfgQueryEngine,
    dfg: LocalDataflowGraph,
    auth: Set<GlobalNodeId>,
    rounds: nat,
) -> bool {
    &&& is_part_of(plan.plan, plan_or_none(full, plan.condition, plan.polarity))
    &&& forall|r: nat|
        r < rounds ==> is_known(
            plan.plan,
            plan_or_none(full, plan.condition, plan.polarity),
            #[trigger] answers_within(full, dfg, auth, r),
        )
}

/// Plans that are known along the courses that are taken guard the same blocks as
/// the full plans.
pub proof fn law_known_plans_guard_alike(
    cfg: CfgQueryEngine,
    full: CfgQueryEngine,
    dfg: LocalDataflowGraph,
    auth: Set<GlobalNodeId>,
    block: usize,
    rounds: nat,
)
    requires
        same_conditions(cfg, full),
        plans_are_known(cfg.plans@, full, dfg, auth, rounds),
    ensures
        auth_guard::guarded(cfg, dfg, auth, block, rounds) == auth_guard::guarded(
            full,
            dfg,
            auth,
            block,
            rounds,
        ),
    decreases rounds, 0int,
{
    if rounds > 0 {
        let deeper = (rounds - 1) as nat;
        let trusted = auth_guard::trusted_blocks(cfg, dfg, auth, deeper);
        let trusted_full = auth_guard::trusted_blocks(full, dfg, auth, deeper);
        lemma_known_plans_trust_alike(cfg, full, dfg, auth, deeper);
        assert forall|dominator: usize|
            auth_guard::dominator_vouches(cfg, dfg, auth, trusted, dominator, block)
                == auth_guard::dominator_vouches(
                full,
                dfg,
                auth,
                trusted_full,
                dominator,
                block,
            ) by {
            if let Some(condition) = cfg.spec_condition(dominator) {
                if let Some(polarity) = cfg.spec_polarity(dominator, block) {
                    lemma_plan_is_listed(cfg.plans@, condition, polarity);
                    if let Some(plan) = cfg.spec_plan(condition, polarity) {
                        law_known_plans_decide_alike(
                            plan,
                            plan_or_none(full, condition, polarity),
                            answers_within(full, dfg, auth, deeper),
                        );
                    }
                }
            }
        }
        let dominators = cfg.spec_dominators(block);
        assert(dominators == full.spec_dominators(block));
        if auth_guard::guarded(cfg, dfg, auth, block, rounds) {
            let d = choose|d: int|
                0 <= d < dominators.len() && auth_guard::dominator_vouches(
                    cfg,
                    dfg,
                    auth,
                    trusted,
                    #[trigger] dominators[d],
                    block,
                );
            assert(auth_guard::dominator_vouches(
                full,
                dfg,
                auth,
                trusted_full,
                full.spec_dominators(block)[d],
                block,
            ));
        }
        if auth_guard::guarded(full, dfg, auth, block, rounds) {
            let d = choose|d: int|
                0 <= d < dominators.len() && auth_guard::dominator_vouches(
                    full,
                    dfg,
                    auth,
                    trusted_full,
                    #[trigger] full.spec_dominators(block)[d],
                    block,
                );
            assert(auth_guard::dominator_vouches(
                cfg,
                dfg,
                auth,
                trusted,
                cfg.spec_dominators(block)[d],
                block,
            ));
        }
    }
}

/// The same blocks are trusted, and the same answers given.
proof fn lemma_known_plans_trust_alike(
    cfg: CfgQueryEngine,
    full: CfgQueryEngine,
    dfg: LocalDataflowGraph,
    auth: Set<GlobalNodeId>,
    rounds: nat,
)
    requires
        same_conditions(cfg, full),
        plans_are_known(cfg.plans@, full, dfg, auth, rounds),
    ensures
        answers_within(cfg, dfg, auth, rounds) == answers_within(full, dfg, auth, rounds),
    decreases rounds, 1int,
{
    let trusted = auth_guard::trusted_blocks(cfg, dfg, auth, rounds);
    let trusted_full = auth_guard::trusted_blocks(full, dfg, auth, rounds);
    assert forall|block: usize| #[trigger] trusted(block) == trusted_full(block) by {
        law_known_plans_guard_alike(cfg, full, dfg, auth, block, rounds);
    }
    assert(trusted =~= trusted_full);
    assert forall|id: DataflowNodeId|
        provenance::own_verdict(cfg, dfg, auth, trusted, id) == provenance::own_verdict(
            full,
            dfg,
            auth,
            trusted,
            id,
        ) by {}
    assert(answers_within(cfg, dfg, auth, rounds) =~= answers_within(full, dfg, auth, rounds));
}

/// A plan that is found is one of those listed for its condition.
proof fn lemma_plan_is_listed(plans: Seq<ConditionPlan>, condition: u32, polarity: bool)
    ensures
        control_flow::first_plan(plans, condition, polarity) matches Some(plan) ==> exists|i: int|
            0 <= i < plans.len() && (#[trigger] plans[i]).condition == condition
                && plans[i].polarity == polarity && plans[i].plan == plan,
    decreases plans.len(),
{
    if plans.len() > 0 && !(plans[0].condition == condition && plans[0].polarity == polarity) {
        let rest = plans.skip(1);
        lemma_plan_is_listed(rest, condition, polarity);
        if let Some(plan) = control_flow::first_plan(plans, condition, polarity) {
            let i = choose|i: int|
                0 <= i < rest.len() && (#[trigger] rest[i]).condition == condition
                    && rest[i].polarity == polarity && rest[i].plan == plan;
            assert(plans[i + 1] == rest[i]);
        }
    }
}

/// The lists hold plans for the same outcomes of conditions, in order.
pub open spec fn same_slots(a: Seq<ConditionPlan>, b: Seq<ConditionPlan>) -> bool {
    &&& a.len() == b.len()
    &&& forall|i: int|
        #![trigger a[i]]
        #![trigger b[i]]
        0 <= i < a.len() ==> a[i].condition == b[i].condition && a[i].polarity == b[i].polarity
}

proof fn lemma_same_slots_find_alike(
    a: Seq<ConditionPlan>,
    b: Seq<ConditionPlan>,
    condition: u32,
    polarity: bool,
)
    requires
        same_slots(a, b),
    ensures
        control_flow::first_plan(a, condition, polarity) is Some == control_flow::first_plan(
            b,
            condition,
            polarity,
        ) is Some,
    decreases a.len(),
{
    if a.len() > 0 {
        assert(a[0].condition == b[0].condition);
        let (x, y) = (a.skip(1), b.skip(1));
        assert forall|i: int|
            #![trigger x[i]]
            #![trigger y[i]]
            0 <= i < x.len() implies x[i].condition == y[i].condition && x[i].polarity
            == y[i].polarity by {
            assert(x[i] == a[i + 1] && y[i] == b[i + 1]);
        }
        lemma_same_slots_find_alike(x, y, condition, polarity);
    }
}

/// Copies a plan.
fn copy_of(plan: &ProofPlan) -> (copy: ProofPlan)
    ensures
        copy == *plan,
    decreases plan,
{
    match plan {
        ProofPlan::Decided(proved) => ProofPlan::Decided(*proved),
        ProofPlan::Ask { node_id, target, if_yes, if_no } => ProofPlan::Ask {
            node_id: *node_id,
            target: *target,
            if_yes: Box::new(copy_of(if_yes)),
            if_no: Box::new(copy_of(if_no)),
        },
    }
}

/// Adds what is left of a run to a plan.
fn teach(plan: &ProofPlan, answers: &Vec<Answer>, from: usize, proved: bool) -> (result: ProofPlan)
    requires
        from <= answers@.len(),
    ensures
        result == taught(*plan, answers@.skip(from as int), proved),
    decreases answers@.len() - from,
{
    if from == answers.len() {
        return ProofPlan::Decided(proved);
    }
    let first = answers[from];
    assert(answers@.skip(from as int)[0] == first);
    assert(answers@.skip(from as int).skip(1) =~= answers@.skip(from + 1));
    let unknown = ProofPlan::Decided(false);
    let (known_yes, known_no) = match plan {
        ProofPlan::Ask { node_id, target, if_yes, if_no } => if *node_id == first.node_id
            && *target == first.target {
            (&**if_yes, &**if_no)
        } else {
            (&unknown, &unknown)
        },
        ProofPlan::Decided(_) => (&unknown, &unknown),
    };
    if first.yes {
        ProofPlan::Ask {
            node_id: first.node_id,
            target: first.target,
            if_yes: Box::new(teach(known_yes, answers, from + 1, proved)),
            if_no: Box::new(copy_of(known_no)),
        }
    } else {
        ProofPlan::Ask {
            node_id: first.node_id,
            target: first.target,
            if_yes: Box::new(copy_of(known_yes)),
            if_no: Box::new(teach(known_no, answers, from + 1, proved)),
        }
    }
}

/// Lists the syntax nodes whose positive outcome shows a successful
/// authentication at the given depth.
fn vouching_nodes(
    cfg: &CfgQueryEngine,
    dfg: &LocalDataflowGraph,
    auth_fn_ids: &FunctionSet,
    depth: u32,
) -> (vouching: Vec<u32>)
    requires
        depth < u32::MAX,
    ensures
        yes_to(vouching@) == auth_guard::leaf_answers(
            *cfg,
            *dfg,
            auth_fn_ids@,
            auth_guard::trusted_at(*cfg, *dfg, auth_fn_ids@, depth),
        ),
{
    let ghost answers = auth_guard::leaf_answers(
        *cfg,
        *dfg,
        auth_fn_ids@,
        auth_guard::trusted_at(*cfg, *dfg, auth_fn_ids@, depth),
    );
    let mut vouching: Vec<u32> = Vec::new();
    let mut n: usize = 0;
    while n < dfg.nodes.len()
        invariant
            depth < u32::MAX,
            n <= dfg.nodes@.len(),
            answers == auth_guard::leaf_answers(
                *cfg,
                *dfg,
                auth_fn_ids@,
                auth_guard::trusted_at(*cfg, *dfg, auth_fn_ids@, depth),
            ),
            forall|i: int| 0 <= i < vouching@.len() ==> answers(#[trigger] vouching@[i], true),
            forall|k: int|
                0 <= k < n && answers((#[trigger] dfg.nodes@[k]).id.location.node_id, true)
                    ==> vouching@.contains(dfg.nodes@[k].id.location.node_id),
        decreases dfg.nodes@.len() - n,
    {
        let node_id: u32 = dfg.nodes[n].id.location.node_id;
        let ghost before = vouching@;
        if pa_leaf_is_auth(cfg, dfg, node_id, true, auth_fn_ids, depth) {
            vouching.push(node_id);
            assert(vouching@[before.len() as int] == node_id);
            assert forall|known: u32| before.contains(known) implies vouching@.contains(known) by {
                let i = before.index_of(known);
                assert(vouching@[i] == known);
            }
        }
        n += 1;
    }
    proof {
        assert forall|node_id: u32, target: bool| yes_to(vouching@)(node_id, target) == #[trigger] answers(
            node_id,
            target,
        ) by {
            if answers(node_id, target) {
                let k = choose|k: int|
                    0 <= k < dfg.nodes@.len() && (#[trigger] dfg.nodes@[k]).id.location.node_id
                        == node_id && auth_guard::vouches(
                        *cfg,
                        *dfg,
                        auth_fn_ids@,
                        auth_guard::trusted_at(*cfg, *dfg, auth_fn_ids@, depth),
                        dfg.nodes@[k],
                    );
                assert(answers(dfg.nodes@[k].id.location.node_id, true));
            }
        }
        assert(yes_to(vouching@) =~= answers);
    }
    vouching
}

/// Runs the prover once on each condition and adds the runs to the plans.
fn learn_round<P: Fn(u32, bool, &Vec<u32>) -> ProverRun>(
    plans: &Vec<ConditionPlan>,
    vouching: &Vec<u32>,
    prover: &P,
) -> (learned: Vec<ConditionPlan>)
    requires
        forall|i: int|
            0 <= i < plans@.len() ==> accepts(
                *prover,
                (#[trigger] plans@[i]).condition,
                plans@[i].polarity,
            ),
    ensures
        same_slots(plans@, learned@),
        forall|full: CfgQueryEngine, i: int|
            #![trigger follows_plans(*prover, full), learned@[i]]
            follows_plans(*prover, full) && 0 <= i < plans@.len() ==> learned@[i].plan == taught(
                plans@[i].plan,
                course(
                    plan_or_none(full, plans@[i].condition, plans@[i].polarity),
                    yes_to(vouching@),
                ),
                plan_or_none(full, plans@[i].condition, plans@[i].polarity).outcome(
                    yes_to(vouching@),
                ),
            ),
{
    let mut learned: Vec<ConditionPlan> = Vec::new();
    let mut n: usize = 0;
    while n < plans.len()
        invariant
            forall|i: int|
                0 <= i < plans@.len() ==> accepts(
                    *prover,
                    (#[trigger] plans@[i]).condition,
                    plans@[i].polarity,
                ),
            n <= plans@.len(),
            learned@.len() == n,
            forall|i: int|
                0 <= i < n ==> (#[trigger] learned@[i]).condition == plans@[i].condition
                    && learned@[i].polarity == plans@[i].polarity,
            forall|full: CfgQueryEngine, i: int|
                #![trigger follows_plans(*prover, full), learned@[i]]
                follows_plans(*prover, full) && 0 <= i < n ==> learned@[i].plan == taught(
                    plans@[i].plan,
                    course(
                        plan_or_none(full, plans@[i].condition, plans@[i].polarity),
                        yes_to(vouching@),
                    ),
                    plan_or_none(full, plans@[i].condition, plans@[i].polarity).outcome(
                        yes_to(vouching@),
                    ),
                ),
        decreases plans@.len() - n,
    {
        let slot = &plans[n];
        let run = prover(slot.condition, slot.polarity, vouching);
        assert(run.answers@.skip(0) =~= run.answers@);
        let plan = teach(&slot.plan, &run.answers, 0, run.proved);
        learned.push(
            ConditionPlan { condition: slot.condition, polarity: slot.polarity, plan },
        );
        n += 1;
    }
    learned
}

/// Learns the plans of a function's conditions from a prover.
///
/// The plans that `cfg` holds only say which outcomes of which conditions to
/// learn. The prover is given a condition, an outcome, and the syntax nodes whose
/// positive outcome shows a successful authentication; to all other questions
/// the answer is no. It gives back its questions with their answers, and its
/// decision.
pub fn learn_plans<P: Fn(u32, bool, &Vec<u32>) -> ProverRun>(
    cfg: CfgQueryEngine,
    dfg: &LocalDataflowGraph,
    auth_fn_ids: &FunctionSet,
    prover: P,
) -> (learned: CfgQueryEngine)
    requires
        forall|i: int|
            0 <= i < cfg.plans@.len() ==> accepts(
                prover,
                (#[trigger] cfg.plans@[i]).condition,
                cfg.plans@[i].polarity,
            ),
    ensures
        learned.blocks@ == cfg.blocks@,
        learned.points@ == cfg.points@,
        same_slots(cfg.plans@, learned.plans@),
        forall|full: CfgQueryEngine, block: usize, depth: u32|
            #![trigger follows_plans(prover, full), auth_guard::guarded(learned, *dfg, auth_fn_ids@, block, auth_guard::rounds_left(depth))]
            follows_plans(prover, full) && same_conditions(cfg, full) ==> auth_guard::guarded(
                learned,
                *dfg,
                auth_fn_ids@,
                block,
                auth_guard::rounds_left(depth),
            ) == auth_guard::guarded(
                full,
                *dfg,
                auth_fn_ids@,
                block,
                auth_guard::rounds_left(depth),
            ),
{
    let ghost given = cfg;
    let mut blank: Vec<ConditionPlan> = Vec::new();
    let mut n: usize = 0;
    while n < cfg.plans.len()
        invariant
            n <= cfg.plans@.len(),
            blank@.len() == n,
            forall|i: int|
                0 <= i < n ==> (#[trigger] blank@[i]).condition == cfg.plans@[i].condition
                    && blank@[i].polarity == cfg.plans@[i].polarity && blank@[i].plan
                    == ProofPlan::Decided(false),
        decreases cfg.plans@.len() - n,
    {
        blank.push(
            ConditionPlan {
                condition: cfg.plans[n].condition,
                polarity: cfg.plans[n].polarity,
                plan: ProofPlan::Decided(false),
            },
        );
        n += 1;
    }
    let mut learned = CfgQueryEngine { blocks: cfg.blocks, points: cfg.points, plans: blank };
    let mut rounds: u32 = 0;
    while rounds <= MAX_PROVENANCE_DEPTH
        invariant
            rounds <= MAX_PROVENANCE_DEPTH + 1,
            forall|i: int|
                0 <= i < learned.plans@.len() ==> accepts(
                    prover,
                    (#[trigger] learned.plans@[i]).condition,
                    learned.plans@[i].polarity,
                ),
            learned.blocks@ == given.blocks@,
            learned.points@ == given.points@,
            same_slots(given.plans@, learned.plans@),
            forall|full: CfgQueryEngine| #[trigger]
                follows_plans(prover, full) && same_conditions(given, full) ==> plans_are_known(
                    learned.plans@,
                    full,
                    *dfg,
                    auth_fn_ids@,
                    rounds as nat,
                ),
        decreases MAX_PROVENANCE_DEPTH + 1 - rounds,
    {
        let depth: u32 = MAX_PROVENANCE_DEPTH - rounds;
        let vouching = vouching_nodes(&learned, dfg, auth_fn_ids, depth);
        let ghost before = learned;
        assert(auth_guard::rounds_left((depth + 1) as u32) == rounds);
        let plans = learn_round(&learned.plans, &vouching, &prover);
        proof {
            assert forall|full: CfgQueryEngine| #[trigger]
                follows_plans(prover, full) && same_conditions(given, full) implies plans_are_known(
                plans@,
                full,
                *dfg,
                auth_fn_ids@,
                (rounds + 1) as nat,
            ) by {
                lemma_round_adds_knowledge(
                    given,
                    before,
                    plans@,
                    full,
                    *dfg,
                    auth_fn_ids@,
                    vouching@,
                    rounds as nat,
                );
            }
        }
        learned.plans = plans;
        rounds += 1;
    }
    proof {
        assert forall|full: CfgQueryEngine, block: usize, depth: u32|
            #![trigger follows_plans(prover, full), auth_guard::guarded(learned, *dfg, auth_fn_ids@, block, auth_guard::rounds_left(depth))]
            follows_plans(prover, full) && same_conditions(cfg, full) implies auth_guard::guarded(
            learned,
            *dfg,
            auth_fn_ids@,
            block,
            auth_guard::rounds_left(depth),
        ) == auth_guard::guarded(
            full,
            *dfg,
            auth_fn_ids@,
            block,
            auth_guard::rounds_left(depth),
        ) by {
            lemma_same_slots_same_conditions(given, learned, full);
            law_known_plans_guard_alike(
                learned,
                full,
                *dfg,
                auth_fn_ids@,
                block,
                auth_guard::rounds_left(depth),
            );
        }
    }
    learned
}

proof fn lemma_same_slots_same_conditions(
    given: CfgQueryEngine,
    cfg: CfgQueryEngine,
    full: CfgQueryEngine,
)
    requires
        cfg.blocks@ == given.blocks@,
        cfg.points@ == given.points@,
        same_slots(given.plans@, cfg.plans@),
        same_conditions(given, full),
    ensures
        same_conditions(cfg, full),
{
    assert forall|condition: u32, polarity: bool|
        given.spec_plan(condition, polarity) is Some == cfg.spec_plan(condition, polarity) is Some by {
        lemma_same_slots_find_alike(given.plans@, cfg.plans@, condition, polarity);
    }
}

/// One round of runs makes the plans known within one more round.
proof fn lemma_round_adds_knowledge(
    given: CfgQueryEngine,
    before: CfgQueryEngine,
    plans: Seq<ConditionPlan>,
    full: CfgQueryEngine,
    dfg: LocalDataflowGraph,
    auth: Set<GlobalNodeId>,
    vouching: Seq<u32>,
    rounds: nat,
)
    requires
        before.blocks@ == given.blocks@,
        before.points@ == given.points@,
        same_slots(given.plans@, before.plans@),
        same_slots(before.plans@, plans),
        same_conditions(given, full),
        plans_are_known(before.plans@, full, dfg, auth, rounds),
        yes_to(vouching) == answers_within(before, dfg, auth, rounds),
        forall|i: int|
            0 <= i < plans.len() ==> (#[trigger] plans[i]).plan == taught(
                before.plans@[i].plan,
                course(
                    plan_or_none(full, before.plans@[i].condition, before.plans@[i].polarity),
                    yes_to(vouching),
                ),
                plan_or_none(
                    full,
                    before.plans@[i].condition,
                    before.plans@[i].polarity,
                ).outcome(yes_to(vouching)),
            ),
    ensures
        plans_are_known(plans, full, dfg, auth, rounds + 1),
{
    lemma_same_slots_same_conditions(given, before, full);
    lemma_known_plans_trust_alike(before, full, dfg, auth, rounds);
    assert forall|i: int| 0 <= i < plans.len() implies plan_is_known(
        #[trigger] plans[i],
        full,
        dfg,
        auth,
        rounds + 1,
    ) by {
        let old_slot = before.plans@[i];
        assert(plan_is_known(old_slot, full, dfg, auth, rounds));
        let whole = plan_or_none(full, old_slot.condition, old_slot.polarity);
        assert forall|r: nat| r < rounds + 1 implies is_known(
            plans[i].plan,
            whole,
            #[trigger] answers_within(full, dfg, auth, r),
        ) by {
            law_runs_add_knowledge(
                old_slot.plan,
                whole,
                yes_to(vouching),
                answers_within(full, dfg, auth, r),
            );
        }
        law_runs_add_knowledge(old_slot.plan, whole, yes_to(vouching), yes_to(vouching));
    }
}

} // verus!

//! What it means that a block only runs after a successful authentication, told by
//! the blocks, the branches and the plans of the control flow.

use vstd::prelude::*;

use crate::auth_guard;
use crate::auth_guard::{
    pa_block_is_auth_guarded, pa_condition_contains_auth_call_at_polarity, pa_leaf_is_auth,
    MAX_PROVENANCE_DEPTH,
};
use crate::control_flow::{CfgQueryEngine, ProofPlan};
use crate::fact_laws;
use crate::graph::{LocalDataflowGraph, NodeOperation};
use crate::id_set::FunctionSet;
use crate::ids::{GlobalNodeId, NodeOperationKind};
use crate::provenance;
use crate::provenance::PaProvenanceVerdict;

verus! {

/// Node number `n` may call one of the functions.
pub open spec fn node_calls_one(
    dfg: LocalDataflowGraph,
    functions: Set<GlobalNodeId>,
    n: int,
) -> bool {
    dfg.nodes@[n].operation matches NodeOperation::Call { callees, .. } && exists|c: int|
        0 <= c < callees@.len() && functions.contains(#[trigger] callees@[c])
}

/// Node number `n` reads a variable or a property whose value is accepted, where
/// the trusted blocks are those guarded within the given number of rounds.
pub open spec fn node_reads_accepted(
    cfg: CfgQueryEngine,
    dfg: LocalDataflowGraph,
    functions: Set<GlobalNodeId>,
    rounds: nat,
    n: int,
) -> bool {
    &&& dfg.nodes@[n].id.kind == NodeOperationKind::Identifier || dfg.nodes@[n].id.kind
        == NodeOperationKind::PropertyRead
    &&& provenance::provenance(
        cfg,
        dfg,
        functions,
        |block: usize| auth_guard::guarded(cfg, dfg, functions, block, rounds),
        Set::empty(),
        dfg.nodes@[n].id,
    ) == PaProvenanceVerdict::Accept
}

/// `answer` says yes exactly to the questions for a true outcome of a syntax node
/// at which some node calls one of the functions or reads an accepted value.
pub open spec fn answers_truly(
    cfg: CfgQueryEngine,
    dfg: LocalDataflowGraph,
    functions: Set<GlobalNodeId>,
    rounds: nat,
    answer: spec_fn(u32, bool) -> bool,
) -> bool {
    forall|node_id: u32, target: bool| #[trigger]
        answer(node_id, target) <==> target && exists|n: int|
            0 <= n < dfg.nodes@.len() && (#[trigger] dfg.nodes@[n]).id.location.node_id == node_id
                && (node_calls_one(dfg, functions, n) || node_reads_accepted(
                cfg,
                dfg,
                functions,
                rounds,
                n,
            ))
}

/// The dominator number `d` of the block is another block, it ends in a condition,
/// its branch number `b` is its first to the block, and plan number `k` is the
/// first for that outcome of the condition.
pub open spec fn decides_on(
    cfg: CfgQueryEngine,
    block: usize,
    d: int,
    b: int,
    k: int,
) -> bool {
    &&& block < cfg.blocks@.len()
    &&& 0 <= d < cfg.blocks@[block as int].dominators@.len()
    &&& cfg.blocks@[block as int].dominators@[d] != block
    &&& cfg.blocks@[block as int].dominators@[d] < cfg.blocks@.len()
    &&& {
        let dominator = cfg.blocks@[cfg.blocks@[block as int].dominators@[d] as int];
        &&& dominator.condition matches Some(condition)
        &&& fact_laws::is_first_branch(dominator.branches@, b, block)
        &&& fact_laws::is_first_plan(cfg, k, condition, dominator.branches@[b].polarity)
    }
}

/// No block is guarded within no round, and how many rounds there are follows from
/// the depth: nine at first, one less with each level, and none after the ninth.
pub proof fn law_rounds_run_out(
    cfg: CfgQueryEngine,
    dfg: LocalDataflowGraph,
    functions: Set<GlobalNodeId>,
    block: usize,
    depth: u32,
)
    ensures
        !auth_guard::guarded(cfg, dfg, functions, block, 0),
        depth <= 8 ==> auth_guard::rounds_left(depth) + depth == 9,
        depth > 8 ==> auth_guard::rounds_left(depth) == 0,
        MAX_PROVENANCE_DEPTH == 8,
{
}

/// Too deep down, no block counts as guarded.
pub proof fn law_nothing_is_guarded_too_deep(
    cfg: CfgQueryEngine,
    dfg: LocalDataflowGraph,
    block: usize,
    auth_fn_ids: FunctionSet,
    depth: u32,
    is_guarded: bool,
)
    requires
        depth > 8,
        call_ensures(
            pa_block_is_auth_guarded,
            (&cfg, &dfg, block, &auth_fn_ids, depth),
            is_guarded,
        ),
    ensures
        !is_guarded,
{
}

proof fn lemma_answers(
    cfg: CfgQueryEngine,
    dfg: LocalDataflowGraph,
    functions: Set<GlobalNodeId>,
    rounds: nat,
    answer: spec_fn(u32, bool) -> bool,
)
    requires
        answers_truly(cfg, dfg, functions, rounds, answer),
    ensures
        answer == auth_guard::leaf_answers(
            cfg,
            dfg,
            functions,
            auth_guard::trusted_blocks(cfg, dfg, functions, rounds),
        ),
{
    let trusted = auth_guard::trusted_blocks(cfg, dfg, functions, rounds);
    assert(trusted =~= (|block: usize| auth_guard::guarded(cfg, dfg, functions, block, rounds)));
    let leaf = auth_guard::leaf_answers(cfg, dfg, functions, trusted);
    assert forall|node_id: u32, target: bool| #[trigger]
        answer(node_id, target) == leaf(node_id, target) by {
        assert forall|n: int| 0 <= n < dfg.nodes@.len() implies (auth_guard::vouches(
            cfg,
            dfg,
            functions,
            trusted,
            #[trigger] dfg.nodes@[n],
        ) <==> node_calls_one(dfg, functions, n) || node_reads_accepted(
            cfg,
            dfg,
            functions,
            rounds,
            n,
        )) by {}
    }
    assert(answer =~= leaf);
}

/// A block is guarded exactly if some dominator's plan for the way to the block
/// comes to a proof when its questions are answered truly.
pub proof fn law_guards_are_proved_conditions(
    cfg: CfgQueryEngine,
    dfg: LocalDataflowGraph,
    functions: Set<GlobalNodeId>,
    block: usize,
    rounds: nat,
    answer: spec_fn(u32, bool) -> bool,
)
    requires
        answers_truly(cfg, dfg, functions, rounds, answer),
    ensures
        auth_guard::guarded(cfg, dfg, functions, block, rounds + 1) <==> exists|
            d: int,
            b: int,
            k: int,
        | #[trigger]
            decides_on(cfg, block, d, b, k) && cfg.plans@[k].plan.outcome(answer),
{
    let trusted = auth_guard::trusted_blocks(cfg, dfg, functions, rounds);
    lemma_answers(cfg, dfg, functions, rounds, answer);
    assert((rounds + 1 - 1) as nat == rounds);
    if auth_guard::guarded(cfg, dfg, functions, block, rounds + 1) {
        let d = choose|d: int|
            0 <= d < cfg.spec_dominators(block).len() && auth_guard::dominator_vouches(
                cfg,
                dfg,
                functions,
                trusted,
                #[trigger] cfg.spec_dominators(block)[d],
                block,
            );
        let dominator = cfg.spec_dominators(block)[d];
        fact_laws::law_branches_have_polarities(cfg, dominator, block);
        let branches = cfg.blocks@[dominator as int].branches@;
        let b = choose|b: int| fact_laws::is_first_branch(branches, b, block);
        let condition = cfg.spec_condition(dominator)->0;
        fact_laws::law_conditions_have_plans(cfg, condition, branches[b].polarity);
        let k = choose|k: int|
            fact_laws::is_first_plan(cfg, k, condition, branches[b].polarity);
        assert(decides_on(cfg, block, d, b, k));
    }
    if exists|d: int, b: int, k: int| #[trigger]
        decides_on(cfg, block, d, b, k) && cfg.plans@[k].plan.outcome(answer) {
        let (d, b, k) = choose|d: int, b: int, k: int| #[trigger]
            decides_on(cfg, block, d, b, k) && cfg.plans@[k].plan.outcome(answer);
        let dominator = cfg.spec_dominators(block)[d];
        fact_laws::law_branches_have_polarities(cfg, dominator, block);
        let branches = cfg.blocks@[dominator as int].branches@;
        fact_laws::law_conditions_have_plans(
            cfg,
            cfg.spec_condition(dominator)->0,
            branches[b].polarity,
        );
        assert(auth_guard::dominator_vouches(
            cfg,
            dfg,
            functions,
            trusted,
            cfg.spec_dominators(block)[d],
            block,
        ));
    }
}

/// Unless it lies too deep, a block is found to be guarded exactly if some
/// dominator's plan for the way to it comes to a proof.
pub proof fn law_blocks_are_guarded_by_proved_conditions(
    cfg: CfgQueryEngine,
    dfg: LocalDataflowGraph,
    block: usize,
    auth_fn_ids: FunctionSet,
    depth: u32,
    answer: spec_fn(u32, bool) -> bool,
    is_guarded: bool,
)
    requires
        depth <= 8,
        answers_truly(cfg, dfg, auth_fn_ids@, (8 - depth) as nat, answer),
        call_ensures(
            pa_block_is_auth_guarded,
            (&cfg, &dfg, block, &auth_fn_ids, depth),
            is_guarded,
        ),
    ensures
        is_guarded <==> exists|d: int, b: int, k: int| #[trigger]
            decides_on(cfg, block, d, b, k) && cfg.plans@[k].plan.outcome(answer),
{
    law_guards_are_proved_conditions(
        cfg,
        dfg,
        auth_fn_ids@,
        block,
        (8 - depth) as nat,
        answer,
    );
}

/// An outcome of a condition shows an authentication exactly if the first plan for
/// it comes to a proof.
pub proof fn law_conditions_show_what_their_plans_prove(
    cfg: CfgQueryEngine,
    dfg: LocalDataflowGraph,
    condition: u32,
    polarity: bool,
    auth_fn_ids: FunctionSet,
    depth: u32,
    answer: spec_fn(u32, bool) -> bool,
    contains: bool,
)
    requires
        depth < u32::MAX,
        answers_truly(
            cfg,
            dfg,
            auth_fn_ids@,
            if depth < 8 {
                (8 - depth) as nat
            } else {
                0
            },
            answer,
        ),
        call_ensures(
            pa_condition_contains_auth_call_at_polarity,
            (&cfg, &dfg, condition, polarity, &auth_fn_ids, depth),
            contains,
        ),
    ensures
        contains <==> exists|k: int| #[trigger]
            fact_laws::is_first_plan(cfg, k, condition, polarity) && cfg.plans@[k].plan.outcome(
                answer,
            ),
{
    lemma_answers(
        cfg,
        dfg,
        auth_fn_ids@,
        if depth < 8 {
            (8 - depth) as nat
        } else {
            0
        },
        answer,
    );
    fact_laws::law_conditions_have_plans(cfg, condition, polarity);
}

/// A syntax node shows an authentication exactly if it is to come out true and
/// some node at it calls one of the functions or reads an accepted value.
pub proof fn law_leaves_show_what_their_nodes_do(
    cfg: CfgQueryEngine,
    dfg: LocalDataflowGraph,
    node_id: u32,
    target: bool,
    auth_fn_ids: FunctionSet,
    depth: u32,
    answer: spec_fn(u32, bool) -> bool,
    is_auth: bool,
)
    requires
        depth < u32::MAX,
        answers_truly(
            cfg,
            dfg,
            auth_fn_ids@,
            if depth < 8 {
                (8 - depth) as nat
            } else {
                0
            },
            answer,
        ),
        call_ensures(
            pa_leaf_is_auth,
            (&cfg, &dfg, node_id, target, &auth_fn_ids, depth),
            is_auth,
        ),
    ensures
        is_auth <==> answer(node_id, target),
{
    lemma_answers(
        cfg,
        dfg,
        auth_fn_ids@,
        if depth < 8 {
            (8 - depth) as nat
        } else {
            0
        },
        answer,
    );
}

/// A block is guarded behind a condition that asks for one syntax node to be true,
/// where a node there calls one of the functions.
pub proof fn law_a_call_guards_what_it_leads_to(
    cfg: CfgQueryEngine,
    dfg: LocalDataflowGraph,
    functions: Set<GlobalNodeId>,
    block: usize,
    rounds: nat,
    d: int,
    b: int,
    k: int,
    n: int,
    c: int,
)
    requires
        decides_on(cfg, block, d, b, k),
        0 <= n < dfg.nodes@.len(),
        dfg.nodes@[n].operation is Call,
        0 <= c < dfg.nodes@[n].operation->callees@.len(),
        functions.contains(dfg.nodes@[n].operation->callees@[c]),
        cfg.plans@[k].plan == (ProofPlan::Ask {
            node_id: dfg.nodes@[n].id.location.node_id,
            target: true,
            if_yes: Box::new(ProofPlan::Decided(true)),
            if_no: Box::new(ProofPlan::Decided(false)),
        }),
        rounds > 0,
    ensures
        auth_guard::guarded(cfg, dfg, functions, block, rounds),
{
    assert(node_calls_one(dfg, functions, n)) by {
        let callees = dfg.nodes@[n].operation->callees;
        assert(functions.contains(callees@[c]));
    }
    lemma_shown_node_guards(cfg, dfg, functions, block, (rounds - 1) as nat, d, b, k, n);
}

/// A block is guarded behind a condition that asks for one syntax node to be true,
/// where a node there reads a value that is accepted one round deeper.
pub proof fn law_an_accepted_value_guards_what_it_leads_to(
    cfg: CfgQueryEngine,
    dfg: LocalDataflowGraph,
    functions: Set<GlobalNodeId>,
    block: usize,
    rounds: nat,
    d: int,
    b: int,
    k: int,
    n: int,
)
    requires
        decides_on(cfg, block, d, b, k),
        0 <= n < dfg.nodes@.len(),
        node_reads_accepted(cfg, dfg, functions, rounds, n),
        cfg.plans@[k].plan == (ProofPlan::Ask {
            node_id: dfg.nodes@[n].id.location.node_id,
            target: true,
            if_yes: Box::new(ProofPlan::Decided(true)),
            if_no: Box::new(ProofPlan::Decided(false)),
        }),
    ensures
        auth_guard::guarded(cfg, dfg, functions, block, rounds + 1),
{
    lemma_shown_node_guards(cfg, dfg, functions, block, rounds, d, b, k, n);
}

proof fn lemma_shown_node_guards(
    cfg: CfgQueryEngine,
    dfg: LocalDataflowGraph,
    functions: Set<GlobalNodeId>,
    block: usize,
    rounds: nat,
    d: int,
    b: int,
    k: int,
    n: int,
)
    requires
        decides_on(cfg, block, d, b, k),
        0 <= n < dfg.nodes@.len(),
        node_calls_one(dfg, functions, n) || node_reads_accepted(cfg, dfg, functions, rounds, n),
        cfg.plans@[k].plan == (ProofPlan::Ask {
            node_id: dfg.nodes@[n].id.location.node_id,
            target: true,
            if_yes: Box::new(ProofPlan::Decided(true)),
            if_no: Box::new(ProofPlan::Decided(false)),
        }),
    ensures
        auth_guard::guarded(cfg, dfg, functions, block, rounds + 1),
{
    let answer = |node_id: u32, target: bool|
        target && exists|n: int|
            0 <= n < dfg.nodes@.len() && (#[trigger] dfg.nodes@[n]).id.location.node_id == node_id
                && (node_calls_one(dfg, functions, n) || node_reads_accepted(
                cfg,
                dfg,
                functions,
                rounds,
                n,
            ));
    assert(answers_truly(cfg, dfg, functions, rounds, answer));
    assert(answer(dfg.nodes@[n].id.location.node_id, true));
    let plan = cfg.plans@[k].plan;
    fact_laws::law_plans_decide_by_their_course(
        plan,
        answer,
        seq![plan, ProofPlan::Decided(true)],
        true,
    );
    law_guards_are_proved_conditions(cfg, dfg, functions, block, rounds, answer);
}

/// A block whose dominators decide on nothing is not guarded.
pub proof fn law_undecided_blocks_are_not_guarded(
    cfg: CfgQueryEngine,
    dfg: LocalDataflowGraph,
    functions: Set<GlobalNodeId>,
    block: usize,
    rounds: nat,
)
    requires
        forall|d: int, b: int, k: int| !#[trigger] decides_on(cfg, block, d, b, k),
    ensures
        !auth_guard::guarded(cfg, dfg, functions, block, rounds),
{
    if rounds > 0 {
        let answer = |node_id: u32, target: bool|
            target && exists|n: int|
                0 <= n < dfg.nodes@.len() && (#[trigger] dfg.nodes@[n]).id.location.node_id
                    == node_id && (node_calls_one(dfg, functions, n) || node_reads_accepted(
                    cfg,
                    dfg,
                    functions,
                    (rounds - 1) as nat,
                    n,
                ));
        assert(answers_truly(cfg, dfg, functions, (rounds - 1) as nat, answer));
        law_guards_are_proved_conditions(
            cfg,
            dfg,
            functions,
            block,
            (rounds - 1) as nat,
            answer,
        );
    }
}

} // verus!

//! The control flow of one function: its basic blocks, what dominates them, and
//! what it takes to prove a condition.

use vstd::prelude::*;

use crate::ids::ProgramPoint;

verus! {

/// How a condition is decided, as a course of questions.
///
/// A question names a syntax node inside the condition and the outcome that the
/// node would have to have. Each answer leads either to the next question or to
/// the decision.
#[derive(Debug, PartialEq, Eq)]
pub enum ProofPlan {
    /// The condition is proved, or is not.
    Decided(bool),
    /// A question, and how to go on.
    Ask {
        /// The syntax node asked about.
        node_id: u32,
        /// The outcome asked about.
        target: bool,
        /// How to go on after a yes.
        if_yes: Box<ProofPlan>,
        /// How to go on after a no.
        if_no: Box<ProofPlan>,
    },
}

impl ProofPlan {
    /// The decision that the plan comes to when `answer` answers its questions.
    pub open spec fn outcome(self, answer: spec_fn(u32, bool) -> bool) -> bool
        decreases self,
    {
        match self {
            ProofPlan::Decided(proved) => proved,
            ProofPlan::Ask { node_id, target, if_yes, if_no } => if answer(node_id, target) {
                if_yes.outcome(answer)
            } else {
                if_no.outcome(answer)
            },
        }
    }
}

/// Which way a branch went on every path to a block.
#[derive(Clone, Copy, Debug, PartialEq, Eq)]
pub struct BranchPolarity {
    /// The block that is reached.
    pub target: usize,
    /// The outcome of the condition on the way there.
    pub polarity: bool,
}

/// A basic block.
#[derive(Debug, PartialEq, Eq)]
pub struct BasicBlock {
    /// The blocks that dominate this one.
    pub dominators: Vec<usize>,
    /// The syntax node of the condition that ends the block, if one does.
    pub condition: Option<u32>,
    /// For the blocks that only one outcome of the condition leads to, which
    /// outcome it is. Of two entries for one block the first counts.
    pub branches: Vec<BranchPolarity>,
}

/// The block that a program point lies in.
#[derive(Clone, Copy, Debug, PartialEq, Eq)]
pub struct PlacedPoint {
    /// The program point.
    pub point: ProgramPoint,
    /// Its block.
    pub block: usize,
}

/// The plan for one outcome of one condition.
#[derive(Debug, PartialEq, Eq)]
pub struct ConditionPlan {
    /// The syntax node of the condition.
    pub condition: u32,
    /// The outcome that the plan decides on.
    pub polarity: bool,
    /// The plan.
    pub plan: ProofPlan,
}

/// The control flow of one function.
#[derive(Debug, PartialEq, Eq)]
pub struct CfgQueryEngine {
    /// The basic blocks, each named by its index.
    pub blocks: Vec<BasicBlock>,
    /// Where program points lie. Of two entries for one point the first counts.
    pub points: Vec<PlacedPoint>,
    /// How conditions are decided. Of two entries for one outcome of one
    /// condition the first counts; without an entry, nothing is proved.
    pub plans: Vec<ConditionPlan>,
}

/// The block of the first entry for a program point.
pub open spec fn first_block(points: Seq<PlacedPoint>, point: ProgramPoint) -> Option<usize>
    decreases points.len(),
{
    if points.len() == 0 {
        None
    } else if points[0].point == point {
        Some(points[0].block)
    } else {
        first_block(points.skip(1), point)
    }
}

/// The polarity of the first entry for a block.
pub open spec fn first_polarity(branches: Seq<BranchPolarity>, target: usize) -> Option<bool>
    decreases branches.len(),
{
    if branches.len() == 0 {
        None
    } else if branches[0].target == target {
        Some(branches[0].polarity)
    } else {
        first_polarity(branches.skip(1), target)
    }
}

/// The first plan for an outcome of a condition.
pub open spec fn first_plan(plans: Seq<ConditionPlan>, condition: u32, polarity: bool) -> Option<
    ProofPlan,
>
    decreases plans.len(),
{
    if plans.len() == 0 {
        None
    } else if plans[0].condition == condition && plans[0].polarity == polarity {
        Some(plans[0].plan)
    } else {
        first_plan(plans.skip(1), condition, polarity)
    }
}

impl CfgQueryEngine {
    /// The blocks that dominate a block; none for a block that does not exist.
    pub open spec fn spec_dominators(self, block: usize) -> Seq<usize> {
        if block < self.blocks@.len() {
            self.blocks@[block as int].dominators@
        } else {
            Seq::empty()
        }
    }

    /// The condition that ends a block.
    pub open spec fn spec_condition(self, block: usize) -> Option<u32> {
        if block < self.blocks@.len() {
            self.blocks@[block as int].condition
        } else {
            None
        }
    }

    /// The outcome of a dominator's condition on every path to a block.
    pub open spec fn spec_polarity(self, dominator: usize, target: usize) -> Option<bool> {
        if dominator < self.blocks@.len() {
            first_polarity(self.blocks@[dominator as int].branches@, target)
        } else {
            None
        }
    }

    /// The block that a program point lies in.
    pub open spec fn spec_block(self, point: ProgramPoint) -> Option<usize> {
        first_block(self.points@, point)
    }

    /// The plan for an outcome of a condition.
    pub open spec fn spec_plan(self, condition: u32, polarity: bool) -> Option<ProofPlan> {
        first_plan(self.plans@, condition, polarity)
    }

    /// Lists the blocks that dominate a block.
    pub fn dominators_of(&self, block: usize) -> (dominators: Vec<usize>)
        ensures
            dominators@ == self.spec_dominators(block),
    {
        if block < self.blocks.len() {
            self.blocks[block].dominators.clone()
        } else {
            Vec::new()
        }
    }

    /// Finds the condition that ends a block.
    pub fn condition_of_block(&self, block: usize) -> (condition: Option<u32>)
        ensures
            condition == self.spec_condition(block),
    {
        if block < self.blocks.len() {
            self.blocks[block].condition
        } else {
            None
        }
    }

    /// Finds the outcome of a dominator's condition on every path to a block.
    pub fn sink_branch_polarity(&self, dominator: usize, target: usize) -> (polarity: Option<bool>)
        ensures
            polarity == self.spec_polarity(dominator, target),
    {
        if dominator >= self.blocks.len() {
            return None;
        }
        let branches = &self.blocks[dominator].branches;
        assert(branches@.skip(0) =~= branches@);
        let mut i: usize = 0;
        while i < branches.len()
            invariant
                i <= branches@.len(),
                self.spec_polarity(dominator, target) == first_polarity(
                    branches@.skip(i as int),
                    target,
                ),
            decreases branches@.len() - i,
        {
            assert(branches@.skip(i as int).skip(1) =~= branches@.skip(i + 1));
            if branches[i].target == target {
                return Some(branches[i].polarity);
            }
            i += 1;
        }
        None
    }

    /// Finds the block that a program point lies in.
    pub fn block_containing(&self, point: &ProgramPoint) -> (block: Option<usize>)
        ensures
            block == self.spec_block(*point),
    {
        assert(self.points@.skip(0) =~= self.points@);
        let mut i: usize = 0;
        while i < self.points.len()
            invariant
                i <= self.points@.len(),
                self.spec_block(*point) == first_block(self.points@.skip(i as int), *point),
            decreases self.points@.len() - i,
        {
            assert(self.points@.skip(i as int).skip(1) =~= self.points@.skip(i + 1));
            if self.points[i].point == *point {
                return Some(self.points[i].block);
            }
            i += 1;
        }
        None
    }

    /// Finds the plan for an outcome of a condition.
    pub fn plan_for(&self, condition: u32, polarity: bool) -> (plan: Option<&ProofPlan>)
        ensures
            plan is Some == self.spec_plan(condition, polarity) is Some,
            plan matches Some(p) ==> self.spec_plan(condition, polarity) == Some(*p),
    {
        assert(self.plans@.skip(0) =~= self.plans@);
        let mut i: usize = 0;
        while i < self.plans.len()
            invariant
                i <= self.plans@.len(),
                self.spec_plan(condition, polarity) == first_plan(
                    self.plans@.skip(i as int),
                    condition,
                    polarity,
                ),
            decreases self.plans@.len() - i,
        {
            assert(self.plans@.skip(i as int).skip(1) =~= self.plans@.skip(i + 1));
            if self.plans[i].condition == condition && self.plans[i].polarity == polarity {
                return Some(&self.plans[i].plan);
            }
            i += 1;
        }
        None
    }
}

} // verus!

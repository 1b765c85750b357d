//! Sets of dataflow nodes and of functions, kept in `fxhash`'s hash set.

use vstd::prelude::*;

use fxhash::FxHashSet;

use crate::ids::{DataflowNodeId, GlobalNodeId};

verus! {

/// `fxhash`'s hasher, which is only ever named as a parameter of the set's type.
#[verifier::external_type_specification]
#[verifier::external_body]
pub struct ExFxHasher(fxhash::FxHasher);

/// std's builder of default hashers, which is only ever named as a parameter of
/// the set's type.
#[verifier::external_type_specification]
#[verifier::external_body]
#[verifier::reject_recursive_types(H)]
pub struct ExBuildHasherDefault<H>(std::hash::BuildHasherDefault<H>);

/// `FxHashSet::insert`: adds a key, and says whether the key was new.
///
/// The keys are tuples of integers, which hash and compare by value, and
/// `FxHasher` is a function of the bytes it is fed, so the set behaves as a
/// mathematical set of keys.
#[verifier::external_body]
fn insert_key(set: &mut FxHashSet<(u32, u32, u64)>, key: (u32, u32, u64)) -> (fresh: bool)
    ensures
        final(set)@ == old(set)@.insert(key),
        fresh == !old(set)@.contains(key),
{
    set.insert(key)
}

/// `FxHashSet::contains`: says whether a key is in the set.
#[verifier::external_body]
fn contains_key(set: &FxHashSet<(u32, u32, u64)>, key: (u32, u32, u64)) -> (found: bool)
    ensures
        found == set@.contains(key),
{
    set.contains(&key)
}

/// The key under which a dataflow node is kept.
spec fn node_key(id: DataflowNodeId) -> (u32, u32, u64) {
    (id.location.node_id, id.location.position, id.kind.spec_code())
}

/// The key under which a function is kept.
spec fn function_key(id: GlobalNodeId) -> (u32, u32, u64) {
    (id.node_id, id.file, 0)
}

/// A set of dataflow nodes.
pub struct NodeSet {
    keys: FxHashSet<(u32, u32, u64)>,
}

impl View for NodeSet {
    type V = Set<DataflowNodeId>;

    closed spec fn view(&self) -> Set<DataflowNodeId> {
        Set::new(|id: DataflowNodeId| self.keys@.contains(node_key(id)))
    }
}

impl NodeSet {
    /// The empty set.
    pub fn new() -> (set: NodeSet)
        ensures
            set@ == Set::<DataflowNodeId>::empty(),
    {
        NodeSet { keys: FxHashSet::default() }
    }

    /// Adds a node, and says whether it was new.
    pub fn insert(&mut self, id: DataflowNodeId) -> (fresh: bool)
        ensures
            final(self)@ == old(self)@.insert(id),
            fresh == !old(self)@.contains(id),
    {
        insert_key(&mut self.keys, (id.location.node_id, id.location.position, id.kind.code()))
    }

    /// Says whether a node is in the set.
    pub fn contains(&self, id: DataflowNodeId) -> (found: bool)
        ensures
            found == self@.contains(id),
    {
        contains_key(&self.keys, (id.location.node_id, id.location.position, id.kind.code()))
    }
}

/// A set of functions.
pub struct FunctionSet {
    keys: FxHashSet<(u32, u32, u64)>,
}

impl View for FunctionSet {
    type V = Set<GlobalNodeId>;

    closed spec fn view(&self) -> Set<GlobalNodeId> {
        Set::new(|id: GlobalNodeId| self.keys@.contains(function_key(id)))
    }
}

impl FunctionSet {
    /// The empty set.
    pub fn new() -> (set: FunctionSet)
        ensures
            set@ == Set::<GlobalNodeId>::empty(),
    {
        FunctionSet { keys: FxHashSet::default() }
    }

    /// Adds a function, and says whether it was new.
    pub fn insert(&mut self, id: GlobalNodeId) -> (fresh: bool)
        ensures
            final(self)@ == old(self)@.insert(id),
            fresh == !old(self)@.contains(id),
    {
        insert_key(&mut self.keys, (id.node_id, id.file, 0))
    }

    /// Says whether a function is in the set.
    pub fn contains(&self, id: GlobalNodeId) -> (found: bool)
        ensures
            found == self@.contains(id),
    {
        contains_key(&self.keys, (id.node_id, id.file, 0))
    }
}

} // verus!

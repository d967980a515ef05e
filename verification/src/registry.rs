//! A registry of named BVH instances.
//!
//! The simulation keeps several independent indices (at minimum one for
//! body-vs-body overlap checks and one for body-vs-terrain-obstacle checks)
//! so that a body can opt out of one kind of check while remaining in
//! another.  Indices are registered once at startup; addressing an
//! unregistered index afterwards is a configuration error and is reported
//! as [`IndexNotFound`].

use std::collections::HashMap;
use vstd::prelude::*;

use crate::aabb::Aabb;
use crate::bvh::{overlap_pred, Bvh, BvhEntry};
use crate::vec3::Vec3Fix;

verus! {

/// Key of the index used for body-vs-body collision queries.
pub const ENTITY_ENTITY_BVH_IDX: u64 = 0;

/// Key of the index used for body-vs-terrain-obstacle queries.
pub const ENTITY_BLOCK_BVH_IDX: u64 = 1;

/// The index id was never registered.
#[derive(Clone, Copy, Debug, PartialEq, Eq, Structural)]
pub struct IndexNotFound;

/// Owns one BVH per registered index id.
pub struct BvhResource {
    pub bvhs: HashMap<u64, Bvh>,
}

impl BvhResource {
    /// The registered indices, as a map from id to tree.
    pub open spec fn spec_bvhs(self) -> Map<u64, Bvh> {
        self.bvhs@
    }

    pub open spec fn contains_index(self, index: u64) -> bool {
        self.bvhs@.contains_key(index)
    }

    /// Every registered tree is well-formed.
    pub open spec fn wf(self) -> bool {
        forall|id: u64|
            self.bvhs@.contains_key(id) ==> (#[trigger] self.bvhs@[id]).wf()
    }

    /// A registry with `num` empty indices, keyed `0 .. num`.
    pub fn with_bvhs(num: usize) -> (r: BvhResource)
        requires
            num < u64::MAX,
        ensures
            r.wf(),
            forall|id: u64| r.contains_index(id) <==> id < num as u64,
            forall|id: u64|
                id < num as u64 ==> (#[trigger] r.spec_bvhs()[id]).entries()
                    == Seq::<BvhEntry>::empty(),
    {
        broadcast use vstd::std_specs::hash::group_hash_axioms;

        let mut bvhs: HashMap<u64, Bvh> = HashMap::new();
        let mut i: usize = 0;
        while i < num
            invariant
                0 <= i <= num,
                num < u64::MAX,
                forall|id: u64| bvhs@.contains_key(id) <==> id < i as u64,
                forall|id: u64|
                    bvhs@.contains_key(id) ==> (#[trigger] bvhs@[id]).wf() && bvhs@[id].entries()
                        == Seq::<BvhEntry>::empty(),
            decreases num - i,
        {
            broadcast use vstd::std_specs::hash::group_hash_axioms;

            bvhs.insert(i as u64, Bvh::new());
            i += 1;
        }
        BvhResource { bvhs }
    }

    /// The tree registered under `index`, if any.
    pub fn get(&self, index: u64) -> (r: Option<&Bvh>)
        ensures
            match r {
                Some(tree) => self.contains_index(index) && *tree == self.spec_bvhs()[
                    index],
                None => !self.contains_index(index),
            },
    {
        broadcast use vstd::std_specs::hash::group_hash_axioms;

        self.bvhs.get(&index)
    }

    /// Whether `index` is registered.
    pub fn contains(&self, index: u64) -> (r: bool)
        ensures
            r == self.contains_index(index),
    {
        broadcast use vstd::std_specs::hash::group_hash_axioms;

        self.bvhs.contains_key(&index)
    }

    /// Replaces the tree of index `index` with one freshly built from
    /// `entries`; every other index is untouched.  Fails exactly when the
    /// index was never registered, leaving the registry unchanged.
    pub fn rebuild(&mut self, index: u64, entries: Vec<BvhEntry>) -> (r: Result<
        (),
        IndexNotFound,
    >)
        requires
            old(self).wf(),
            forall|i: int| 0 <= i < entries@.len() ==> (#[trigger] entries@[i]).wf(),
        ensures
            final(self).wf(),
            r is Ok <==> old(self).contains_index(index),
            r is Ok ==> {
                &&& forall|id: u64|
                    final(self).contains_index(id) <==> old(self).contains_index(id)
                &&& final(self).spec_bvhs()[index].entries().to_multiset()
                    == entries@.to_multiset()
                &&& final(self).spec_bvhs()[index].entries().len() == entries@.len()
                &&& forall|id: u64|
                    id != index && old(self).contains_index(id) ==> final(self).spec_bvhs()[id]
                        == old(self).spec_bvhs()[id]
            },
            r is Err ==> *final(self) == *old(self),
    {
        broadcast use vstd::std_specs::hash::group_hash_axioms;

        if self.bvhs.contains_key(&index) {
            let mut tree = Bvh::new();
            tree.build(entries);
            self.bvhs.insert(index, tree);
            Ok(())
        } else {
            Err(IndexNotFound)
        }
    }

    /// Range query against index `index`: every entry of that index whose
    /// box overlaps `target`.  Fails exactly when the index was never
    /// registered.
    pub fn get_in_range(&self, index: u64, target: &Aabb) -> (r: Result<
        Vec<BvhEntry>,
        IndexNotFound,
    >)
        requires
            self.wf(),
        ensures
            r is Ok <==> self.contains_index(index),
            r matches Ok(v) ==> v@ == self.spec_bvhs()[index].entries().filter(
                overlap_pred(*target),
            ),
    {
        broadcast use vstd::std_specs::hash::group_hash_axioms;

        match self.bvhs.get(&index) {
            Some(tree) => Ok(tree.get_in_range(target)),
            None => Err(IndexNotFound),
        }
    }

    /// Nearest-point query against index `index`.  Fails exactly when the
    /// index was never registered.
    pub fn get_closest(&self, index: u64, target: Vec3Fix) -> (r: Result<
        Option<(BvhEntry, i128)>,
        IndexNotFound,
    >)
        requires
            self.wf(),
            target.in_range(),
        ensures
            r is Ok <==> self.contains_index(index),
            r matches Ok(res) ==> match res {
                None => self.spec_bvhs()[index].entries().len() == 0,
                Some(p) => {
                    &&& self.spec_bvhs()[index].entries().contains(p.0)
                    &&& p.1 == p.0.aabb.spec_dist2(target)
                    &&& forall|i: int|
                        0 <= i < self.spec_bvhs()[index].entries().len() ==> p.1 <= (
                        #[trigger] self.spec_bvhs()[index].entries()[i]).aabb.spec_dist2(
                            target,
                        )
                },
            },
    {
        broadcast use vstd::std_specs::hash::group_hash_axioms;

        match self.bvhs.get(&index) {
            Some(tree) => Ok(tree.get_closest(target)),
            None => Err(IndexNotFound),
        }
    }
}

} // verus!

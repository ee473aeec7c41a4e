//! The scene: the shape list, the material table, the recorded emitter
//! positions, and — once frozen — the bounding-volume hierarchy over the
//! shapes. The concrete shape, material and position types are parameters:
//! they carry the floating-point geometry and belong to the renderer binary,
//! while the bookkeeping proved here does not depend on them.
//!
//! A scene is built up by the `add_*` calls and then frozen exactly once by
//! [`Scene::generate_bvh`]; adding objects after freezing, freezing twice,
//! or intersecting an unfrozen scene are usage-ordering errors that the
//! contracts rule out.

use vstd::prelude::*;

use crate::bvh::BVHNode;
use crate::bvh::Bvh;
use crate::material::MaterialID;
use crate::material::MaterialStore;

verus! {

/// A scene over shape type `S`, material type `M` and emitter-position type
/// `L`.
pub struct Scene<S, M, L> {
    /// The shapes; reordered in place when the hierarchy is built.
    pub objects: Vec<S>,
    /// The hierarchy, present once the scene is frozen.
    pub bvh: Option<Bvh>,
    /// Recorded emitter positions (informational; kept for importance
    /// sampling).
    pub light_positions: Vec<L>,
    /// The material table shapes refer into.
    pub materials: MaterialStore<M>,
}

impl<S, M, L> Default for Scene<S, M, L> {
    /// An empty, unfrozen scene.
    fn default() -> (s: Scene<S, M, L>)
        ensures
            s.objects@ == Seq::<S>::empty(),
            s.bvh is None,
            s.light_positions@ == Seq::<L>::empty(),
            s.materials@ == Seq::<M>::empty(),
    {
        Scene {
            objects: Vec::new(),
            bvh: None,
            light_positions: Vec::new(),
            materials: MaterialStore::new(),
        }
    }
}

impl<S, M, L> Scene<S, M, L> {
    /// Adds a shape. Only allowed while the scene is unfrozen: the
    /// hierarchy is built over all shapes at once and is never rebuilt.
    pub fn add_object(&mut self, object: S)
        requires
            old(self).bvh is None,
        ensures
            final(self).objects@ == old(self).objects@.push(object),
            final(self).bvh is None,
            final(self).light_positions@ == old(self).light_positions@,
            final(self).materials@ == old(self).materials@,
    {
        self.objects.push(object);
    }

    /// Records an emitter position.
    pub fn add_light_pos(&mut self, light_pos: L)
        ensures
            final(self).light_positions@ == old(self).light_positions@.push(light_pos),
            final(self).objects@ == old(self).objects@,
            final(self).bvh == old(self).bvh,
            final(self).materials@ == old(self).materials@,
    {
        self.light_positions.push(light_pos);
    }

    /// Appends a material to the table and returns its stable identifier.
    pub fn add_material(&mut self, material: M) -> (id: MaterialID)
        ensures
            final(self).materials@ == old(self).materials@.push(material),
            id@ == old(self).materials@.len(),
            final(self).objects@ == old(self).objects@,
            final(self).bvh == old(self).bvh,
            final(self).light_positions@ == old(self).light_positions@,
    {
        self.materials.add(material)
    }

    /// Freezes the scene: builds the hierarchy over the shapes, reordering
    /// them by a permutation. Must be called exactly once, after all
    /// objects are added. `classify` is the renderer's geometric oracle,
    /// as for [`BVHNode::construct`].
    pub fn generate_bvh<F: Fn(&Vec<S>, usize, usize) -> Option<Vec<bool>>>(
        &mut self,
        classify: &F,
    )
        requires
            old(self).bvh is None,
            forall|v: &Vec<S>, s: usize, e: usize| call_requires(*classify, (v, s, e)),
        ensures
            final(self).objects@.len() == old(self).objects@.len(),
            final(self).objects@.to_multiset() == old(self).objects@.to_multiset(),
            final(self).bvh matches Some(t) && t.wf(old(self).objects@.len() as int),
            final(self).light_positions@ == old(self).light_positions@,
            final(self).materials@ == old(self).materials@,
    {
        let tree = BVHNode::construct(&mut self.objects, classify);
        self.bvh = Some(tree);
    }
}

} // verus!

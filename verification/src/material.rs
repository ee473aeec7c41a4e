//! The material table: an append-only store of scattering models, addressed
//! by stable integer identifiers so that many shapes can share one material.

use vstd::prelude::*;

verus! {

/// A stable handle into a [`MaterialStore`]. Identifiers are never
/// invalidated: the store only grows.
#[derive(Default, Copy, Clone, Debug)]
pub struct MaterialID(usize);

impl MaterialID {
    /// The position in the store that this identifier names.
    pub closed spec fn view(self) -> int {
        self.0 as int
    }

    /// The position in the store that this identifier names.
    pub fn index(self) -> (i: usize)
        ensures
            i == self@,
    {
        self.0
    }
}

/// An append-only table of materials. The concrete scattering model is a
/// type parameter: the table's own logic does not depend on it.
pub struct MaterialStore<M>(Vec<M>);

impl<M> View for MaterialStore<M> {
    type V = Seq<M>;

    closed spec fn view(&self) -> Seq<M> {
        self.0@
    }
}

impl<M> MaterialStore<M> {
    /// An empty store.
    pub fn new() -> (s: MaterialStore<M>)
        ensures
            s@ == Seq::<M>::empty(),
    {
        MaterialStore(Vec::new())
    }

    /// Appends a material and returns its identifier, which is the position
    /// it was stored at. Earlier entries keep their places.
    pub fn add(&mut self, material: M) -> (id: MaterialID)
        ensures
            final(self)@ == old(self)@.push(material),
            id@ == old(self)@.len(),
    {
        let id = MaterialID(self.0.len());
        self.0.push(material);
        id
    }

    /// Looks an identifier up: `Some` exactly when the identifier names an
    /// entry, in which case that entry is returned.
    pub fn get(&self, material_id: MaterialID) -> (r: Option<&M>)
        ensures
            match r {
                Some(m) => material_id@ < self@.len() && *m == self@[material_id@],
                None => material_id@ >= self@.len(),
            },
    {
        if material_id.0 < self.0.len() {
            Some(&self.0[material_id.0])
        } else {
            None
        }
    }

    /// The number of materials stored so far.
    pub fn len(&self) -> (n: usize)
        ensures
            n == self@.len(),
    {
        self.0.len()
    }
}

impl<M> Default for MaterialStore<M> {
    fn default() -> (s: MaterialStore<M>)
        ensures
            s@ == Seq::<M>::empty(),
    {
        MaterialStore(Vec::new())
    }
}

} // verus!

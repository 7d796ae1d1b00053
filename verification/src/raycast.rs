use vstd::prelude::*;

use crate::voxel::{spec_coord_to_index, spec_width, Data, Voxel};

verus! {

/// The result from performing a raycast. `P` is the type of the position
/// and normal of the hit.
pub struct Intersection<P> {
    /// The inner result. If the voxel that this intersection hit has subvoxels, the
    ///  inner intersection contains the intersection with that subvoxel.
    pub inner: Option<Box<Intersection<P>>>,
    /// The index of the subvoxel that this intersection intersects with.
    pub index: usize,
    /// The position of this intersection.
    pub position: P,
    /// The normal of this intersection.
    pub normal: P,
}

impl<P> Intersection<P> {
    /// Number of nested intersections below this one.
    pub open spec fn depth(&self) -> nat
        decreases self,
    {
        match self.inner {
            Some(i) => 1 + i.depth(),
            None => 0,
        }
    }

    /// The intersection `level` steps inside this one, if there is one.
    pub open spec fn spec_level(&self, level: nat) -> Option<Intersection<P>>
        decreases self,
    {
        if level == 0 {
            Some(*self)
        } else {
            match self.inner {
                Some(i) => i.spec_level((level - 1) as nat),
                None => None,
            }
        }
    }

    /// The deepest intersection inside this one.
    pub open spec fn spec_innermost(&self) -> Intersection<P>
        decreases self,
    {
        match self.inner {
            Some(i) => i.spec_innermost(),
            None => *self,
        }
    }

    /// The intersection `level` steps inside this one: itself at level 0.
    pub fn level(&self, level: usize) -> (r: Option<&Intersection<P>>)
        ensures
            match self.spec_level(level as nat) {
                Some(i) => r == Some(&i),
                None => r.is_none(),
            },
        decreases self,
    {
        if level == 0 {
            Some(self)
        } else {
            match &self.inner {
                Some(i) => i.level(level - 1),
                None => None,
            }
        }
    }

    /// The deepest intersection inside this one.
    pub fn innermost(&self) -> (r: &Intersection<P>)
        ensures
            *r == self.spec_innermost(),
        decreases self,
    {
        match &self.inner {
            Some(i) => i.innermost(),
            None => self,
        }
    }
}

/// The innermost intersection is the one at the deepest level, and there is
/// no level below it.
pub proof fn lemma_innermost_is_deepest<P>(i: Intersection<P>, level: nat)
    ensures
        i.spec_level(i.depth()) == Some(i.spec_innermost()),
        level > i.depth() ==> i.spec_level(level) is None,
        level <= i.depth() ==> i.spec_level(level) is Some,
    decreases i,
{
    if let Some(inner) = i.inner {
        if level > 0 {
            lemma_innermost_is_deepest(*inner, (level - 1) as nat);
        } else {
            lemma_innermost_is_deepest(*inner, 0);
        }
    }
}

/// What a ray finds in a grid cell.
#[derive(Clone, Copy, Debug, PartialEq, Eq, Structural)]
pub enum Probe {
    /// Nothing to hit: the ray goes on.
    Miss,
    /// A solid cell with this index.
    Hit(usize),
    /// A cell with this index whose subvoxels the ray has to be cast into.
    Descend(usize),
}

/// Cell `coord` lies in a grid of `w` cells along each axis.
pub open spec fn in_cube(w: int, coord: [isize; 3]) -> bool {
    0 <= coord[0] < w && 0 <= coord[1] < w && 0 <= coord[2] < w
}

/// What a ray finds at subvoxel `coord` of `voxel`: visible subvoxels stop
/// it, or are entered when they have subvoxels of their own.
pub open spec fn spec_probe<T: Voxel>(voxel: T, coord: [isize; 3]) -> Probe {
    let w = spec_width(T::Data::SUBDIV) as int;
    if in_cube(w, coord) {
        let i = spec_coord_to_index(T::Data::SUBDIV, coord[0] as int, coord[1] as int, coord[2] as int);
        if voxel.spec_child_visible(i) {
            if voxel.spec_child_is_detail(i) {
                Probe::Descend(i as usize)
            } else {
                Probe::Hit(i as usize)
            }
        } else {
            Probe::Miss
        }
    } else {
        Probe::Miss
    }
}

/// What a ray finds at subvoxel `coord` of `voxel`.
pub fn probe<T: Voxel>(voxel: &T, coord: [isize; 3]) -> (r: Probe)
    ensures
        r == spec_probe(*voxel, coord),
{
    proof {
        T::Data::lemma_subdiv_valid();
        crate::voxel::lemma_width_facts(T::Data::SUBDIV);
    }
    let w = crate::voxel::width(T::Data::SUBDIV);
    if 0 <= coord[0] && (coord[0] as usize) < w && 0 <= coord[1] && (coord[1] as usize) < w && 0 <= coord[2]
        && (coord[2] as usize) < w {
        proof {
            crate::voxel::lemma_coord_index_roundtrip(
                T::Data::SUBDIV,
                coord[0] as int,
                coord[1] as int,
                coord[2] as int,
            );
        }
        let i = T::coord_to_index(coord[0] as usize, coord[1] as usize, coord[2] as usize);
        if voxel.child_visible(i) {
            if voxel.child_is_detail(i) {
                Probe::Descend(i)
            } else {
                Probe::Hit(i)
            }
        } else {
            Probe::Miss
        }
    } else {
        Probe::Miss
    }
}

} // verus!

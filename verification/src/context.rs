use vstd::prelude::*;

use crate::voxel::{
    ChildOf, Data, Voxel, coord_to_index, lemma_width_facts, spec_coord_to_index, spec_width, width,
};

use crate::world::{in_window, slot, volume};

verus! {

/// Width of the subvoxel grid of voxel type `T`.
pub open spec fn grid_width<T: Voxel>() -> int {
    spec_width(T::Data::SUBDIV) as int
}

/// `(x, y, z)` lies inside a grid of width `w`.
pub open spec fn in_grid(w: int, x: int, y: int, z: int) -> bool {
    0 <= x < w && 0 <= y < w && 0 <= z < w
}

/// Sum of two coordinates, when it fits an `isize`.
pub open spec fn coord_add(a: int, b: int) -> Option<isize> {
    if isize::MIN <= a + b <= isize::MAX {
        Some((a + b) as isize)
    } else {
        None
    }
}

/// Trait for retrieving neighbour information between separate root voxels.
/// A context of voxel `T` answers questions about the subvoxel grid of `T`,
/// at coordinates relative to `T`, including those outside of `T`.
pub trait Context<T: Voxel>: Sized {
    spec fn spec_visible(&self, x: int, y: int, z: int) -> bool;

    spec fn spec_render(&self, x: int, y: int, z: int) -> bool;

    spec fn spec_skin(&self, x: int, y: int, z: int) -> Option<u8>;

    /// The subvoxel at the relative coordinate, if any.
    spec fn spec_child(&self, x: int, y: int, z: int) -> Option<ChildOf<T>>;

    /// Same as Voxel::visible, but accepts a relative coordinate for selecting a child voxel.
    fn visible(&self, x: isize, y: isize, z: isize) -> (r: bool)
        ensures
            r == self.spec_visible(x as int, y as int, z as int),
    ;

    /// Same as Voxel::render, but accepts a relative coordinate for selecting a child voxel.
    fn render(&self, x: isize, y: isize, z: isize) -> (r: bool)
        ensures
            r == self.spec_render(x as int, y as int, z as int),
    ;

    /// Same as Voxel::skin, but accepts a relative coordinate for selecting a child voxel.
    fn skin(&self, x: isize, y: isize, z: isize) -> (r: Option<u8>)
        ensures
            r == self.spec_skin(x as int, y as int, z as int),
    ;

    /// The subvoxel at the relative coordinate, if any.
    fn subvoxel(&self, x: isize, y: isize, z: isize) -> (r: Option<&ChildOf<T>>)
        ensures
            match r {
                Some(c) => self.spec_child(x as int, y as int, z as int) == Some(*c),
                None => self.spec_child(x as int, y as int, z as int).is_none(),
            },
    ;
}

/// Contexts for subvoxels, available on every `Context`.
pub trait ChildContext<T: Voxel>: Context<T> {
    /// Returns a Context for the child at the relative coordinate
    fn child<'a>(&'a self, x: isize, y: isize, z: isize) -> (r: DetailContext<'a, T, Self>)
        ensures
            r.spec_parent() == *self,
            r.spec_coord() == [x, y, z],
            r.spec_voxel() == self.spec_child(x as int, y as int, z as int),
    ;
}

impl<T: Voxel, C: Context<T>> ChildContext<T> for C {
    fn child<'a>(&'a self, x: isize, y: isize, z: isize) -> (r: DetailContext<'a, T, Self>) {
        DetailContext::new(self, [x, y, z], self.subvoxel(x, y, z))
    }
}

/// Context sampling no neighbours at all.
#[derive(Clone)]
pub struct VoxelContext<'a, T: Voxel> {
    voxel: &'a T,
}

/// Context sampling the inner details of a voxel. Neighbours resolve through the parent Context.
pub struct DetailContext<'a, P: Voxel, Q: Context<P>> {
    parent: &'a Q,
    coord: [isize; 3],
    voxel: Option<&'a ChildOf<P>>,
}

impl<'a, T: Voxel> VoxelContext<'a, T> {
    pub closed spec fn spec_voxel(&self) -> T {
        *self.voxel
    }

    pub fn new(voxel: &'a T) -> (r: Self)
        ensures
            r.spec_voxel() == *voxel,
    {
        Self { voxel }
    }
}

/// Floor division of a coordinate by a grid width.
pub fn grid_div(x: isize, size: isize) -> (r: isize)
    requires
        size > 0,
    ensures
        r == x as int / size as int,
{
    if x >= 0 {
        proof {
            vstd::arithmetic::div_mod::lemma_div_pos_is_pos(x as int, size as int);
        }
        x / size
    } else {
        let t = (x + 1) / size;
        proof {
            let xi = x as int;
            let si = size as int;
            let a = -(xi + 1);
            let m = a / si;
            let rem = a % si;
            vstd::arithmetic::div_mod::lemma_fundamental_div_mod(a, si);
            vstd::arithmetic::div_mod::lemma_mod_pos_bound(a, si);
            assert(t == -m);
            assert(xi == (-m - 1) * si + (si - 1 - rem)) by (nonlinear_arith)
                requires
                    a == si * m + rem, xi == -a - 1,
            ;
            vstd::arithmetic::div_mod::lemma_fundamental_div_mod_converse(xi, si, -m - 1, si - 1 - rem);
        }
        t - 1
    }
}

/// Non-negative remainder of a coordinate by a grid width.
pub fn grid_mod(x: isize, size: isize) -> (r: isize)
    requires
        size > 0,
    ensures
        r == x as int % size as int,
        0 <= r < size,
{
    let m = x % size;
    proof {
        let xi = x as int;
        let si = size as int;
        if xi >= 0 {
            vstd::arithmetic::div_mod::lemma_fundamental_div_mod(xi, si);
            vstd::arithmetic::div_mod::lemma_mod_pos_bound(xi, si);
        } else {
            let a = -xi;
            let q = a / si;
            let rem = a % si;
            vstd::arithmetic::div_mod::lemma_fundamental_div_mod(a, si);
            vstd::arithmetic::div_mod::lemma_mod_pos_bound(a, si);
            assert(m == -rem);
            if rem == 0 {
                assert(xi == (-q) * si + 0) by (nonlinear_arith)
                    requires
                        a == si * q + rem, xi == -a, rem == 0,
                ;
                vstd::arithmetic::div_mod::lemma_fundamental_div_mod_converse(xi, si, -q, 0);
            } else {
                assert(xi == (-q - 1) * si + (si - rem)) by (nonlinear_arith)
                    requires
                        a == si * q + rem, xi == -a,
                ;
                vstd::arithmetic::div_mod::lemma_fundamental_div_mod_converse(xi, si, -q - 1, si - rem);
            }
        }
    }
    if m >= 0 {
        m
    } else {
        m + size
    }
}

impl<'a, T: Voxel> Context<T> for VoxelContext<'a, T> {
    open spec fn spec_visible(&self, x: int, y: int, z: int) -> bool {
        false
    }

    open spec fn spec_render(&self, x: int, y: int, z: int) -> bool {
        !in_grid(grid_width::<T>(), x, y, z)
    }

    open spec fn spec_skin(&self, x: int, y: int, z: int) -> Option<u8> {
        None
    }

    open spec fn spec_child(&self, x: int, y: int, z: int) -> Option<ChildOf<T>> {
        if in_grid(grid_width::<T>(), x, y, z) {
            self.spec_voxel().spec_get(spec_coord_to_index(T::Data::SUBDIV, x, y, z))
        } else {
            None
        }
    }

    fn visible(&self, x: isize, y: isize, z: isize) -> (r: bool) {
        false
    }

    fn render(&self, x: isize, y: isize, z: isize) -> (r: bool) {
        proof {
            T::Data::lemma_subdiv_valid();
            lemma_width_facts(T::Data::SUBDIV);
        }
        let w = width(T::Data::SUBDIV) as isize;
        if x >= 0 && x < w && y >= 0 && y < w && z >= 0 && z < w {
            false
        } else {
            true
        }
    }

    fn skin(&self, x: isize, y: isize, z: isize) -> (r: Option<u8>) {
        None
    }

    fn subvoxel(&self, x: isize, y: isize, z: isize) -> (r: Option<&ChildOf<T>>) {
        proof {
            T::Data::lemma_subdiv_valid();
            lemma_width_facts(T::Data::SUBDIV);
        }
        let w = width(T::Data::SUBDIV) as isize;
        if x >= 0 && x < w && y >= 0 && y < w && z >= 0 && z < w {
            proof {
                crate::voxel::lemma_coord_index_roundtrip(T::Data::SUBDIV, x as int, y as int, z as int);
            }
            let index = coord_to_index(T::Data::SUBDIV, x as usize, y as usize, z as usize);
            self.voxel.get(index)
        } else {
            None
        }
    }
}

impl<'a, P: Voxel, Q: Context<P>> DetailContext<'a, P, Q> {
    pub closed spec fn spec_parent(&self) -> Q {
        *self.parent
    }

    pub closed spec fn spec_coord(&self) -> [isize; 3] {
        self.coord
    }

    pub closed spec fn spec_voxel(&self) -> Option<ChildOf<P>> {
        match self.voxel {
            Some(v) => Some(*v),
            None => None,
        }
    }

    pub fn new(parent: &'a Q, coord: [isize; 3], voxel: Option<&'a ChildOf<P>>) -> (r: Self)
        ensures
            r.spec_parent() == *parent,
            r.spec_coord() == coord,
            r.spec_voxel() == match voxel {
                Some(v) => Some(*v),
                None => None,
            },
    {
        Self { parent, coord, voxel }
    }
}

/// Locates the relative coordinate `(x, y, z)` for a subvoxel context at
/// `coord` of a parent whose subvoxels are given by `parent_child`: the
/// subvoxel that contains it (the context's own `voxel` when the coordinate
/// lies inside it), and the index of the coordinate inside that subvoxel.
/// A neighbour position that does not fit an `isize` resolves to nothing.
pub open spec fn locate_in<P: Voxel>(
    parent_child: spec_fn(int, int, int) -> Option<ChildOf<P>>,
    coord: [isize; 3],
    voxel: Option<ChildOf<P>>,
    x: int,
    y: int,
    z: int,
) -> Option<(ChildOf<P>, int)> where ChildOf<P>: Voxel {
    let size = grid_width::<ChildOf<P>>();
    let s = <ChildOf<P> as Voxel>::Data::SUBDIV;
    if in_grid(size, x, y, z) {
        match voxel {
            Some(v) => Some((v, spec_coord_to_index(s, x, y, z))),
            None => None,
        }
    } else {
        match (
            coord_add(coord[0] as int, x / size),
            coord_add(coord[1] as int, y / size),
            coord_add(coord[2] as int, z / size),
        ) {
            (Some(cx), Some(cy), Some(cz)) => match parent_child(cx as int, cy as int, cz as int) {
                Some(v) => Some((v, spec_coord_to_index(s, x % size, y % size, z % size))),
                None => None,
            },
            _ => None,
        }
    }
}

/// A coordinate outside the subvoxel of a detail context is found through
/// the parent: it is what the context of the neighbouring subvoxel that holds
/// it finds at the coordinate's remainder, where the neighbour's position
/// fits an `isize`.
pub proof fn lemma_locate_through_parent<P: Voxel>(
    parent_child: spec_fn(int, int, int) -> Option<ChildOf<P>>,
    coord: [isize; 3],
    voxel: Option<ChildOf<P>>,
    x: int,
    y: int,
    z: int,
) where ChildOf<P>: Voxel
    requires
        !in_grid(grid_width::<ChildOf<P>>(), x, y, z),
        coord_add(coord[0] as int, x / grid_width::<ChildOf<P>>()) is Some,
        coord_add(coord[1] as int, y / grid_width::<ChildOf<P>>()) is Some,
        coord_add(coord[2] as int, z / grid_width::<ChildOf<P>>()) is Some,
    ensures
        ({
            let size = grid_width::<ChildOf<P>>();
            let n = [
                (coord[0] + x / size) as isize,
                (coord[1] + y / size) as isize,
                (coord[2] + z / size) as isize,
            ];
            locate_in::<P>(parent_child, coord, voxel, x, y, z) == locate_in::<P>(
                parent_child,
                n,
                parent_child(n[0] as int, n[1] as int, n[2] as int),
                x % size,
                y % size,
                z % size,
            )
        }),
{
    <ChildOf<P> as Voxel>::Data::lemma_subdiv_valid();
    lemma_width_facts(<ChildOf<P> as Voxel>::Data::SUBDIV);
    let size = grid_width::<ChildOf<P>>();
    vstd::arithmetic::div_mod::lemma_mod_bound(x, size);
    vstd::arithmetic::div_mod::lemma_mod_bound(y, size);
    vstd::arithmetic::div_mod::lemma_mod_bound(z, size);
}

impl<'a, P: Voxel, Q: Context<P>> DetailContext<'a, P, Q> where ChildOf<P>: Voxel {
    /// The subvoxel that contains the relative coordinate `(x, y, z)`, and the
    /// index of the coordinate inside it. Coordinates outside of this voxel are
    /// resolved through the parent context; a coordinate whose neighbour
    /// position does not fit an `isize` resolves to nothing.
    pub open spec fn spec_locate(&self, x: int, y: int, z: int) -> Option<(ChildOf<P>, int)> {
        locate_in::<P>(
            |cx: int, cy: int, cz: int| self.spec_parent().spec_child(cx, cy, cz),
            self.spec_coord(),
            self.spec_voxel(),
            x,
            y,
            z,
        )
    }

    fn locate(&self, x: isize, y: isize, z: isize) -> (r: Option<(&'a ChildOf<P>, usize)>)
        ensures
            match r {
                Some((v, i)) => self.spec_locate(x as int, y as int, z as int) == Some((*v, i as int)),
                None => self.spec_locate(x as int, y as int, z as int).is_none(),
            },
        decreases
            if in_grid(grid_width::<ChildOf<P>>(), x as int, y as int, z as int) {
                0int
            } else {
                1int
            },
    {
        proof {
            <ChildOf<P> as Voxel>::Data::lemma_subdiv_valid();
            lemma_width_facts(<ChildOf<P> as Voxel>::Data::SUBDIV);
        }
        let s = <ChildOf<P> as Voxel>::Data::SUBDIV;
        let size = width(s) as isize;
        if x >= 0 && x < size && y >= 0 && y < size && z >= 0 && z < size {
            proof {
                crate::voxel::lemma_coord_index_roundtrip(s, x as int, y as int, z as int);
            }
            match self.voxel {
                Some(v) => Some((v, coord_to_index(s, x as usize, y as usize, z as usize))),
                None => None,
            }
        } else {
            let cx = self.coord[0].checked_add(grid_div(x, size));
            let cy = self.coord[1].checked_add(grid_div(y, size));
            let cz = self.coord[2].checked_add(grid_div(z, size));
            match (cx, cy, cz) {
                (Some(cx), Some(cy), Some(cz)) => {
                    let neighbour = DetailContext::<'a, P, Q>::new(
                        self.parent,
                        [cx, cy, cz],
                        self.parent.subvoxel(cx, cy, cz),
                    );
                    neighbour.locate(grid_mod(x, size), grid_mod(y, size), grid_mod(z, size))
                },
                _ => None,
            }
        }
    }

}

impl<'a, P: Voxel, Q: Context<P>> Context<ChildOf<P>> for DetailContext<'a, P, Q> where
    ChildOf<P>: Voxel,
 {
    open spec fn spec_visible(&self, x: int, y: int, z: int) -> bool {
        match self.spec_locate(x, y, z) {
            Some((v, i)) => v.spec_child_visible(i),
            None => false,
        }
    }

    open spec fn spec_render(&self, x: int, y: int, z: int) -> bool {
        match self.spec_locate(x, y, z) {
            Some((v, i)) => v.spec_child_render(i),
            None => false,
        }
    }

    open spec fn spec_skin(&self, x: int, y: int, z: int) -> Option<u8> {
        match self.spec_locate(x, y, z) {
            Some((v, i)) => v.spec_child_skin(i),
            None => None,
        }
    }

    open spec fn spec_child(&self, x: int, y: int, z: int) -> Option<ChildOf<ChildOf<P>>> {
        match self.spec_locate(x, y, z) {
            Some((v, i)) => v.spec_get(i),
            None => None,
        }
    }

    fn visible(&self, x: isize, y: isize, z: isize) -> (r: bool) {
        match self.locate(x, y, z) {
            Some((v, i)) => v.child_visible(i),
            None => false,
        }
    }

    fn render(&self, x: isize, y: isize, z: isize) -> (r: bool) {
        match self.locate(x, y, z) {
            Some((v, i)) => v.child_render(i),
            None => false,
        }
    }

    fn skin(&self, x: isize, y: isize, z: isize) -> (r: Option<u8>) {
        match self.locate(x, y, z) {
            Some((v, i)) => v.child_skin(i),
            None => None,
        }
    }

    fn subvoxel(&self, x: isize, y: isize, z: isize) -> (r: Option<&ChildOf<ChildOf<P>>>) {
        match self.locate(x, y, z) {
            Some((v, i)) => v.get(i),
            None => None,
        }
    }
}


/// Context sampling the chunks of a world. `chunks` holds, per slot of a
/// window of `dims` chunks, the loaded chunk voxel if there is one; `coord`
/// is the window position of the chunk this context is for.
pub struct WorldContext<'a, T: Voxel> {
    coord: [isize; 3],
    dims: [usize; 3],
    chunks: &'a Vec<Option<&'a T>>,
}

impl<'a, T: Voxel> WorldContext<'a, T> {
    pub closed spec fn spec_coord(&self) -> [isize; 3] {
        self.coord
    }

    pub closed spec fn spec_dims(&self) -> [usize; 3] {
        self.dims
    }

    pub closed spec fn spec_chunks(&self) -> Seq<Option<T>> {
        self.chunks@.map_values(|c: Option<&'a T>| match c {
            Some(v) => Some(*v),
            None => None,
        })
    }

    /// One entry per slot of the window.
    #[verifier::type_invariant]
    spec fn one_per_slot(&self) -> bool {
        &&& self.chunks@.len() == volume(self.dims)
        &&& volume(self.dims) <= isize::MAX
    }

    pub fn new(coord: [isize; 3], dims: [usize; 3], chunks: &'a Vec<Option<&'a T>>) -> (r: Self)
        requires
            chunks@.len() == volume(dims),
            volume(dims) <= isize::MAX,
        ensures
            r.spec_coord() == coord,
            r.spec_dims() == dims,
            r.spec_chunks() == chunks@.map_values(|c: Option<&'a T>| match c {
                Some(v) => Some(*v),
                None => None,
            }),
    {
        WorldContext { coord, dims, chunks }
    }

    /// The chunk that contains the relative coordinate `(x, y, z)`, and the
    /// index of the coordinate inside it: chunks outside the window or not
    /// loaded give nothing, as does a chunk position that does not fit an
    /// `isize`.
    pub open spec fn spec_locate(&self, x: int, y: int, z: int) -> Option<(T, int)> {
        let size = grid_width::<T>();
        let s = T::Data::SUBDIV;
        match (
            coord_add(self.spec_coord()[0] as int, x / size),
            coord_add(self.spec_coord()[1] as int, y / size),
            coord_add(self.spec_coord()[2] as int, z / size),
        ) {
            (Some(cx), Some(cy), Some(cz)) => if in_window(self.spec_dims(), cx as int, cy as int, cz as int) {
                match self.spec_chunks()[slot(self.spec_dims(), cx as int, cy as int, cz as int)] {
                    Some(v) => Some((v, spec_coord_to_index(s, x % size, y % size, z % size))),
                    None => None,
                }
            } else {
                None
            },
            _ => None,
        }
    }

    fn locate(&self, x: isize, y: isize, z: isize) -> (r: Option<(&'a T, usize)>)
        ensures
            match r {
                Some((v, i)) => self.spec_locate(x as int, y as int, z as int) == Some((*v, i as int)),
                None => self.spec_locate(x as int, y as int, z as int).is_none(),
            },
    {
        proof {
            use_type_invariant(self);
            T::Data::lemma_subdiv_valid();
            lemma_width_facts(T::Data::SUBDIV);
        }
        let s = T::Data::SUBDIV;
        let size = width(s) as isize;
        let cx = self.coord[0].checked_add(grid_div(x, size));
        let cy = self.coord[1].checked_add(grid_div(y, size));
        let cz = self.coord[2].checked_add(grid_div(z, size));
        match (cx, cy, cz) {
            (Some(cx), Some(cy), Some(cz)) => {
                if 0 <= cx && (cx as usize) < self.dims[0] && 0 <= cy && (cy as usize) < self.dims[1] && 0 <= cz
                    && (cz as usize) < self.dims[2] {
                    let index = crate::world::slot_of(self.dims, cx as usize, cy as usize, cz as usize);
                    proof {
                        crate::world::lemma_slot_bounds(self.dims, cx as int, cy as int, cz as int);
                    }
                    match self.chunks[index] {
                        Some(v) => {
                            let (mx, my, mz) = (grid_mod(x, size), grid_mod(y, size), grid_mod(z, size));
                            proof {
                                crate::voxel::lemma_coord_index_roundtrip(s, mx as int, my as int, mz as int);
                            }
                            Some((v, coord_to_index(s, mx as usize, my as usize, mz as usize)))
                        },
                        None => None,
                    }
                } else {
                    None
                }
            },
            _ => None,
        }
    }
}

impl<'a, T: Voxel> Clone for WorldContext<'a, T> {
    fn clone(&self) -> (r: Self)
        ensures
            r == *self,
    {
        proof {
            use_type_invariant(self);
        }
        WorldContext { coord: self.coord, dims: self.dims, chunks: self.chunks }
    }
}

impl<'a, T: Voxel> Context<T> for WorldContext<'a, T> {
    open spec fn spec_visible(&self, x: int, y: int, z: int) -> bool {
        match self.spec_locate(x, y, z) {
            Some((v, i)) => v.spec_child_visible(i),
            None => false,
        }
    }

    open spec fn spec_render(&self, x: int, y: int, z: int) -> bool {
        match self.spec_locate(x, y, z) {
            Some((v, i)) => v.spec_child_render(i),
            None => false,
        }
    }

    open spec fn spec_skin(&self, x: int, y: int, z: int) -> Option<u8> {
        match self.spec_locate(x, y, z) {
            Some((v, i)) => v.spec_child_skin(i),
            None => None,
        }
    }

    open spec fn spec_child(&self, x: int, y: int, z: int) -> Option<ChildOf<T>> {
        match self.spec_locate(x, y, z) {
            Some((v, i)) => v.spec_get(i),
            None => None,
        }
    }

    fn visible(&self, x: isize, y: isize, z: isize) -> (r: bool) {
        match self.locate(x, y, z) {
            Some((v, i)) => v.child_visible(i),
            None => false,
        }
    }

    fn render(&self, x: isize, y: isize, z: isize) -> (r: bool) {
        match self.locate(x, y, z) {
            Some((v, i)) => v.child_render(i),
            None => false,
        }
    }

    fn skin(&self, x: isize, y: isize, z: isize) -> (r: Option<u8>) {
        match self.locate(x, y, z) {
            Some((v, i)) => v.child_skin(i),
            None => None,
        }
    }

    fn subvoxel(&self, x: isize, y: isize, z: isize) -> (r: Option<&ChildOf<T>>) {
        match self.locate(x, y, z) {
            Some((v, i)) => v.get(i),
            None => None,
        }
    }
}

} // verus!

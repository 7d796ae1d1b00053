use vstd::prelude::*;
use vstd::arithmetic::power2::{pow2, lemma_pow2_adds, lemma_pow2_pos};
use vstd::arithmetic::div_mod::{lemma_fundamental_div_mod_converse, lemma_div_denominator};
use vstd::arithmetic::mul::lemma_mul_strictly_positive;
use vstd::bits::{
    lemma_usize_shl_is_mul, lemma_usize_shr_is_div, lemma_usize_low_bits_mask_is_mod,
    lemma_usize_pow2_no_overflow, low_bits_mask,
};

use crate::material::AtlasMaterialHandle;

verus! {

/// A subdivision count is usable when all subvoxels of one voxel can be
/// numbered by a `usize`, i.e. `(2^subdiv)^3` fits.
pub open spec fn valid_subdiv(subdiv: usize) -> bool {
    3 * subdiv < usize::BITS
}

/// Number of subvoxels along one axis.
pub open spec fn spec_width(subdiv: usize) -> nat {
    pow2(subdiv as nat)
}

/// Number of subvoxels in one voxel.
pub open spec fn spec_count(subdiv: usize) -> nat {
    spec_width(subdiv) * spec_width(subdiv) * spec_width(subdiv)
}

/// Linear index of the subvoxel at `(x, y, z)`; x runs fastest.
pub open spec fn spec_coord_to_index(subdiv: usize, x: int, y: int, z: int) -> int {
    x + y * spec_width(subdiv) + z * spec_width(subdiv) * spec_width(subdiv)
}

/// Coordinate `(x, y, z)` of the subvoxel with linear index `index`.
pub open spec fn spec_index_to_coord(subdiv: usize, index: int) -> (int, int, int) {
    let w = spec_width(subdiv) as int;
    (index % w, (index / w) % w, (index / (w * w)) % w)
}

pub proof fn lemma_width_facts(subdiv: usize)
    requires
        valid_subdiv(subdiv),
    ensures
        spec_width(subdiv) >= 1,
        spec_count(subdiv) == pow2(3 * subdiv as nat),
        spec_count(subdiv) <= usize::MAX,
        spec_width(subdiv) * spec_width(subdiv) <= spec_count(subdiv),
        spec_width(subdiv) <= spec_width(subdiv) * spec_width(subdiv),
        spec_width(subdiv) * spec_width(subdiv) <= isize::MAX,
        spec_count(subdiv) <= isize::MAX + 1,
{
    let s = subdiv as nat;
    assert(usize::BITS == 32 || usize::BITS == 64);
    assert(pow2((usize::BITS - 1) as nat) == isize::MAX + 1) by {
        vstd::arithmetic::power2::lemma2_to64();
        vstd::arithmetic::power2::lemma2_to64_rest();
    }
    if s > 0 {
        vstd::arithmetic::power2::lemma_pow2_strictly_increases(2 * s, (usize::BITS - 1) as nat);
    } else {
        vstd::arithmetic::power2::lemma2_to64();
    }
    if 3 * s < usize::BITS - 1 {
        vstd::arithmetic::power2::lemma_pow2_strictly_increases(3 * s, (usize::BITS - 1) as nat);
    }
    lemma_pow2_pos(s);
    lemma_pow2_adds(s, s);
    lemma_pow2_adds(2 * s, s);
    lemma_usize_pow2_no_overflow(3 * s);
    let w = pow2(s) as int;
    assert(w <= w * w) by (nonlinear_arith)
        requires
            w >= 1,
    ;
    assert(w * w <= w * w * w) by (nonlinear_arith)
        requires
            w >= 1,
    ;
}

/// Number of subvoxels along one axis: `2^subdiv`.
pub fn width(subdiv: usize) -> (r: usize)
    requires
        valid_subdiv(subdiv),
    ensures
        r == spec_width(subdiv),
{
    proof {
        lemma_usize_pow2_no_overflow(subdiv as nat);
        lemma_usize_shl_is_mul(1, subdiv);
    }
    1usize << subdiv
}

/// Number of vertices along one axis of the ambient occlusion grid: `width + 1`.
pub fn ao_width(subdiv: usize) -> (r: usize)
    requires
        valid_subdiv(subdiv),
    ensures
        r == spec_width(subdiv) + 1,
{
    proof {
        lemma_usize_pow2_no_overflow(subdiv as nat);
    }
    width(subdiv) + 1
}

/// Largest coordinate along one axis: `width - 1`.
pub fn last(subdiv: usize) -> (r: usize)
    requires
        valid_subdiv(subdiv),
    ensures
        r == spec_width(subdiv) - 1,
{
    proof {
        lemma_pow2_pos(subdiv as nat);
    }
    width(subdiv) - 1
}

/// Number of subvoxels: `width^3`.
pub fn count(subdiv: usize) -> (r: usize)
    requires
        valid_subdiv(subdiv),
    ensures
        r == spec_count(subdiv),
{
    proof {
        lemma_width_facts(subdiv);
    }
    let w = width(subdiv);
    w * w * w
}

/// Index stride along x.
pub fn dx(subdiv: usize) -> (r: usize)
    ensures
        r == 1,
{
    1
}

/// Index stride along y: `width`.
pub fn dy(subdiv: usize) -> (r: usize)
    requires
        valid_subdiv(subdiv),
    ensures
        r == spec_width(subdiv),
{
    width(subdiv)
}

/// Index stride along z: `width^2`.
pub fn dz(subdiv: usize) -> (r: usize)
    requires
        valid_subdiv(subdiv),
    ensures
        r == spec_width(subdiv) * spec_width(subdiv),
{
    proof {
        lemma_width_facts(subdiv);
    }
    let w = width(subdiv);
    w * w
}

/// Convert a coordinate in the format (x, y, z) to an array index.
pub fn coord_to_index(subdiv: usize, x: usize, y: usize, z: usize) -> (r: usize)
    requires
        valid_subdiv(subdiv),
        spec_coord_to_index(subdiv, x as int, y as int, z as int) <= usize::MAX,
    ensures
        r == spec_coord_to_index(subdiv, x as int, y as int, z as int),
{
    proof {
        lemma_width_facts(subdiv);
        let w = spec_width(subdiv) as int;
        assert(y * w <= x + y * w + z * w * w) by (nonlinear_arith)
            requires
                x >= 0, y >= 0, z >= 0, w >= 1,
        ;
        assert(z * (w * w) == z * w * w) by (nonlinear_arith);
        assert(z * (w * w) <= x + y * w + z * w * w) by (nonlinear_arith)
            requires
                x >= 0, y >= 0, z >= 0, w >= 1,
        ;
    }
    x * dx(subdiv) + y * dy(subdiv) + z * dz(subdiv)
}

/// Convert an array index to a coordinate in the format (x, y, z).
pub fn index_to_coord(subdiv: usize, index: usize) -> (r: (usize, usize, usize))
    requires
        valid_subdiv(subdiv),
    ensures
        r.0 == spec_index_to_coord(subdiv, index as int).0,
        r.1 == spec_index_to_coord(subdiv, index as int).1,
        r.2 == spec_index_to_coord(subdiv, index as int).2,
{
    let l = last(subdiv);
    let s2 = subdiv * 2;
    proof {
        let s = subdiv as nat;
        lemma_width_facts(subdiv);
        lemma_pow2_adds(s, s);
        assert(l == low_bits_mask(s));
        lemma_usize_low_bits_mask_is_mod(index, s);
        lemma_usize_shr_is_div(index, subdiv);
        lemma_usize_shr_is_div(index, s2);
        lemma_usize_low_bits_mask_is_mod(index >> subdiv, s);
        lemma_usize_low_bits_mask_is_mod(index >> s2, s);
        lemma_usize_pow2_no_overflow(s);
        lemma_usize_pow2_no_overflow(2 * s);
    }
    let x = index & l;
    let y = (index >> subdiv) & l;
    let z = (index >> s2) & l;
    (x, y, z)
}

/// Decomposition of an index built from in-range coordinates.
pub proof fn lemma_coord_index_roundtrip(subdiv: usize, x: int, y: int, z: int)
    requires
        valid_subdiv(subdiv),
        0 <= x < spec_width(subdiv),
        0 <= y < spec_width(subdiv),
        0 <= z < spec_width(subdiv),
    ensures
        0 <= spec_coord_to_index(subdiv, x, y, z) < spec_count(subdiv),
        spec_index_to_coord(subdiv, spec_coord_to_index(subdiv, x, y, z)) == (x, y, z),
{
    lemma_width_facts(subdiv);
    let w = spec_width(subdiv) as int;
    let i = spec_coord_to_index(subdiv, x, y, z);
    let q = y + z * w;
    assert(i == q * w + x) by (nonlinear_arith)
        requires
            i == x + y * w + z * w * w, q == y + z * w,
    ;
    lemma_fundamental_div_mod_converse(i, w, q, x);
    lemma_fundamental_div_mod_converse(q, w, z, y);
    lemma_mul_strictly_positive(w, w);
    lemma_div_denominator(i, w, w);
    assert(i / (w * w) == z);
    vstd::arithmetic::div_mod::lemma_small_mod(z as nat, w as nat);
    assert(0 <= i) by (nonlinear_arith)
        requires
            i == x + y * w + z * w * w, x >= 0, y >= 0, z >= 0, w >= 1,
    ;
    assert(i < w * w * w) by (nonlinear_arith)
        requires
            i == x + y * w + z * w * w, 0 <= x < w, 0 <= y < w, 0 <= z < w,
    ;
}

/// Every index below the subvoxel count is rebuilt from its coordinate.
pub proof fn lemma_index_coord_roundtrip(subdiv: usize, index: int)
    requires
        valid_subdiv(subdiv),
        0 <= index < spec_count(subdiv),
    ensures
        ({
            let c = spec_index_to_coord(subdiv, index);
            &&& 0 <= c.0 < spec_width(subdiv)
            &&& 0 <= c.1 < spec_width(subdiv)
            &&& 0 <= c.2 < spec_width(subdiv)
            &&& spec_coord_to_index(subdiv, c.0, c.1, c.2) == index
        }),
{
    lemma_width_facts(subdiv);
    let w = spec_width(subdiv) as int;
    let c = spec_index_to_coord(subdiv, index);
    lemma_mul_strictly_positive(w, w);
    lemma_div_denominator(index, w, w);
    let q = index / w;
    assert(index == q * w + index % w) by {
        vstd::arithmetic::div_mod::lemma_fundamental_div_mod(index, w);
        vstd::arithmetic::mul::lemma_mul_is_commutative(w, q);
    }
    assert(q == (q / w) * w + q % w) by {
        vstd::arithmetic::div_mod::lemma_fundamental_div_mod(q, w);
        vstd::arithmetic::mul::lemma_mul_is_commutative(w, q / w);
    }
    assert(q / w < w) by {
        let k = index / (w * w);
        let r = index % (w * w);
        vstd::arithmetic::div_mod::lemma_fundamental_div_mod(index, w * w);
        vstd::arithmetic::div_mod::lemma_mod_pos_bound(index, w * w);
        assert(k < w) by (nonlinear_arith)
            requires
                index == (w * w) * k + r, r >= 0, index < w * w * w, w > 0,
        ;
    }
    assert((q / w) % w == q / w) by {
        vstd::arithmetic::div_mod::lemma_small_mod((q / w) as nat, w as nat);
    }
    assert(q / w >= 0) by {
        vstd::arithmetic::div_mod::lemma_div_pos_is_pos(index, w * w);
    }
    assert(c == (index % w, q % w, q / w));
    assert(index == index % w + (q % w) * w + (q / w) * w * w) by (nonlinear_arith)
        requires
            index == q * w + index % w, q == (q / w) * w + q % w,
    ;
}

/// Trait for user data associated with voxels.
pub trait Data: Sized {
    /// The voxel type of the subvoxels.
    type Child: Clone;

    /// The amount of subdivisions to do in order to create child voxels.
    /// A value of 4 means that 2^4=16 subvoxels would be created at every axis, for a total of 16^3=4096 subvoxels.
    const SUBDIV: usize;

    /// All `(2^SUBDIV)^3` subvoxels can be numbered by a `usize`.
    proof fn lemma_subdiv_valid()
        ensures
            valid_subdiv(Self::SUBDIV),
    ;

    spec fn spec_visible(&self) -> bool;

    spec fn spec_render(&self) -> bool;

    spec fn spec_skin(&self) -> Option<u8>;

    /// Returns whether this voxel is visible, i.e. if it has geometry.
    fn visible(&self) -> (r: bool)
        ensures
            r == self.spec_visible(),
    ;

    /// Returns whether the neighbours of this voxel are visible if the camera was inside this voxel.
    fn render(&self) -> (r: bool)
        ensures
            r == self.spec_render(),
    ;

    /// Returns the skin binding for this voxel
    fn skin(&self) -> (r: Option<u8>)
        ensures
            r == self.spec_skin(),
    ;
}

#[allow(type_alias_bounds)]
pub type ChildOf<T: Voxel> = <<T as Voxel>::Data as Data>::Child;

/// Operations shared by all voxel kinds.
pub trait Voxel: Sized {
    type Data: Data;

    /// The subvoxel at `index`, if there is one.
    spec fn spec_get(&self, index: int) -> Option<ChildOf<Self>>;

    spec fn spec_visible(&self) -> bool;

    spec fn spec_render(&self) -> bool;

    spec fn spec_skin(&self) -> Option<u8>;

    spec fn spec_is_detail(&self) -> bool;

    /// The material that fills this voxel, when it is filled with one single material.
    spec fn spec_fill(&self) -> Option<AtlasMaterialHandle>;

    /// Visibility of the subvoxel at `index`; false where there is none.
    spec fn spec_child_visible(&self, index: int) -> bool;

    /// `render` of the subvoxel at `index`; false where there is none.
    spec fn spec_child_render(&self, index: int) -> bool;

    /// Skin of the subvoxel at `index`; none where there is none.
    spec fn spec_child_skin(&self, index: int) -> Option<u8>;

    /// Whether the subvoxel at `index` has subvoxels of its own.
    spec fn spec_child_is_detail(&self, index: int) -> bool;

    /// Where there is no subvoxel, there is nothing to see, to render, no
    /// skin and nothing to descend into.
    proof fn lemma_no_child(&self, index: int)
        ensures
            self.spec_get(index) is None ==> {
                &&& !self.spec_child_visible(index)
                &&& !self.spec_child_render(index)
                &&& self.spec_child_skin(index) is None
                &&& !self.spec_child_is_detail(index)
            },
    ;

    /// Convert a coordinate in the format (x, y, z) to an array index
    fn coord_to_index(x: usize, y: usize, z: usize) -> (r: usize)
        requires
            spec_coord_to_index(Self::Data::SUBDIV, x as int, y as int, z as int) <= usize::MAX,
        ensures
            r == spec_coord_to_index(Self::Data::SUBDIV, x as int, y as int, z as int),
    {
        proof {
            Self::Data::lemma_subdiv_valid();
        }
        coord_to_index(Self::Data::SUBDIV, x, y, z)
    }

    /// Convert an array index to a coordinate in the format (x, y, z)
    fn index_to_coord(index: usize) -> (r: (usize, usize, usize))
        ensures
            r.0 == spec_index_to_coord(Self::Data::SUBDIV, index as int).0,
            r.1 == spec_index_to_coord(Self::Data::SUBDIV, index as int).1,
            r.2 == spec_index_to_coord(Self::Data::SUBDIV, index as int).2,
    {
        proof {
            Self::Data::lemma_subdiv_valid();
        }
        index_to_coord(Self::Data::SUBDIV, index)
    }

    /// Construct a new, empty voxel.
    fn new_empty(data: Self::Data) -> (r: Self)
        ensures
            !r.spec_visible(),
            !r.spec_is_detail(),
            r.spec_fill() is None,
    ;

    /// Construct a new, filled voxel. The voxel will be filled with one single material.
    fn new_filled(data: Self::Data, material: AtlasMaterialHandle) -> (r: Self)
        ensures
            r.spec_visible(),
            !r.spec_is_detail(),
            r.spec_fill() == Some(material),
    ;

    /// Retrieve a reference to subvoxel at index.
    fn get(&self, index: usize) -> (r: Option<&ChildOf<Self>>)
        ensures
            match r {
                Some(c) => self.spec_get(index as int) == Some(*c),
                None => self.spec_get(index as int).is_none(),
            },
    ;

    /// Mutably retrieve subvoxel at index
    fn get_mut(&mut self, index: usize) -> (r: Option<&mut ChildOf<Self>>)
        ensures
            r is Some <==> old(self).spec_get(index as int) is Some,
            r matches Some(c) ==> old(self).spec_get(index as int) == Some(*c),
            r matches Some(c) ==> final(self).spec_get(index as int) == Some(*final(c)),
            forall|j: int| j != index ==> final(self).spec_get(j) == old(self).spec_get(j),
            final(self).spec_visible() == old(self).spec_visible(),
            final(self).spec_render() == old(self).spec_render(),
            final(self).spec_skin() == old(self).spec_skin(),
            final(self).spec_is_detail() == old(self).spec_is_detail(),
            r is None ==> *final(self) == *old(self),
    ;

    /// Returns whether this voxel is visible, i.e. if it has geometry.
    fn visible(&self) -> (r: bool)
        ensures
            r == self.spec_visible(),
    ;

    /// Returns whether the neighbours of this voxel are visible if the camera was inside this voxel.
    fn render(&self) -> (r: bool)
        ensures
            r == self.spec_render(),
    ;

    /// Returns the skin binding for this voxel
    fn skin(&self) -> (r: Option<u8>)
        ensures
            r == self.spec_skin(),
    ;

    /// Whether this voxel has subvoxels.
    fn is_detail(&self) -> (r: bool)
        ensures
            r == self.spec_is_detail(),
    ;

    /// Whether the subvoxel at `index` is visible; false where there is none.
    fn child_visible(&self, index: usize) -> (r: bool)
        ensures
            r == self.spec_child_visible(index as int),
    ;

    /// `render` of the subvoxel at `index`; false where there is none.
    fn child_render(&self, index: usize) -> (r: bool)
        ensures
            r == self.spec_child_render(index as int),
    ;

    /// Skin of the subvoxel at `index`; none where there is none.
    fn child_skin(&self, index: usize) -> (r: Option<u8>)
        ensures
            r == self.spec_child_skin(index as int),
    ;

    /// Whether the subvoxel at `index` has subvoxels of its own.
    fn child_is_detail(&self, index: usize) -> (r: bool)
        ensures
            r == self.spec_child_is_detail(index as int),
    ;
}

/// A single voxel with nesting capability.
#[derive(Clone)]
pub enum NestedVoxel<T: Data> {
    /// An empty voxel, air for example.
    Empty {
        /// User data for the voxel
        data: T,
    },
    /// A detail voxel. This voxel contains a number of subvoxels determined by `T::SUBDIV`.
    Detail {
        /// The subvoxels, in index order.
        detail: Vec<T::Child>,
        /// User data for the voxel.
        data: T,
    },
    /// A completely solid voxel with a single material (color + specular)
    Material {
        /// The material id
        material: AtlasMaterialHandle,
        /// User data for the voxel.
        data: T,
    },
    /// An empty voxel without data
    Placeholder,
}

/// A leaf voxel: empty or one solid material.
#[derive(Clone)]
pub struct SimpleVoxel {
    material: Option<AtlasMaterialHandle>,
}

impl SimpleVoxel {
    pub closed spec fn spec_material(&self) -> Option<AtlasMaterialHandle> {
        self.material
    }

    /// The material of this voxel, if it is filled.
    pub fn material(&self) -> (r: Option<AtlasMaterialHandle>)
        ensures
            r == self.spec_material(),
    {
        self.material
    }
}

impl Data for () {
    type Child = SimpleVoxel;

    const SUBDIV: usize = 0;

    proof fn lemma_subdiv_valid() {
    }

    open spec fn spec_visible(&self) -> bool {
        true
    }

    open spec fn spec_render(&self) -> bool {
        false
    }

    open spec fn spec_skin(&self) -> Option<u8> {
        None
    }

    fn visible(&self) -> (r: bool) {
        true
    }

    fn render(&self) -> (r: bool) {
        false
    }

    fn skin(&self) -> (r: Option<u8>) {
        None
    }
}

/// The unit data type does not subdivide: its voxels have a single subvoxel,
/// and their occlusion grid has two vertices along each axis.
pub proof fn lemma_unit_subdiv()
    ensures
        <() as Data>::SUBDIV == 0,
        spec_width(<() as Data>::SUBDIV) == 1,
        spec_count(<() as Data>::SUBDIV) == 1,
{
    vstd::arithmetic::power2::lemma2_to64();
}

impl Voxel for SimpleVoxel {
    type Data = ();

    open spec fn spec_get(&self, index: int) -> Option<SimpleVoxel> {
        None
    }

    open spec fn spec_visible(&self) -> bool {
        self.spec_material().is_some()
    }

    open spec fn spec_render(&self) -> bool {
        self.spec_material().is_none()
    }

    open spec fn spec_skin(&self) -> Option<u8> {
        None
    }

    open spec fn spec_is_detail(&self) -> bool {
        false
    }

    open spec fn spec_fill(&self) -> Option<AtlasMaterialHandle> {
        self.spec_material()
    }

    open spec fn spec_child_visible(&self, index: int) -> bool {
        false
    }

    open spec fn spec_child_render(&self, index: int) -> bool {
        false
    }

    open spec fn spec_child_skin(&self, index: int) -> Option<u8> {
        None
    }

    open spec fn spec_child_is_detail(&self, index: int) -> bool {
        false
    }

    proof fn lemma_no_child(&self, index: int) {
    }

    fn new_empty(data: ()) -> (r: Self)
        ensures
            r.spec_material().is_none(),
    {
        SimpleVoxel { material: None }
    }

    fn new_filled(data: (), material: AtlasMaterialHandle) -> (r: Self)
        ensures
            r.spec_material() == Some(material),
    {
        SimpleVoxel { material: Some(material) }
    }

    fn get(&self, index: usize) -> (r: Option<&SimpleVoxel>) {
        None
    }

    fn get_mut(&mut self, index: usize) -> (r: Option<&mut SimpleVoxel>) {
        None
    }

    fn visible(&self) -> (r: bool) {
        self.material.is_some()
    }

    fn render(&self) -> (r: bool) {
        self.material.is_none()
    }

    fn skin(&self) -> (r: Option<u8>) {
        None
    }

    fn is_detail(&self) -> (r: bool) {
        false
    }

    fn child_visible(&self, index: usize) -> (r: bool) {
        false
    }

    fn child_render(&self, index: usize) -> (r: bool) {
        false
    }

    fn child_skin(&self, index: usize) -> (r: Option<u8>) {
        None
    }

    fn child_is_detail(&self, index: usize) -> (r: bool) {
        false
    }
}

impl<T: Data> NestedVoxel<T> {
    /// The subvoxels of a detail voxel; empty for every other kind.
    pub open spec fn spec_detail(&self) -> Seq<T::Child> {
        match self {
            NestedVoxel::Detail { detail, .. } => detail@,
            _ => Seq::empty(),
        }
    }

    /// The user data; placeholders have none.
    pub open spec fn spec_data(&self) -> T {
        match self {
            NestedVoxel::Empty { data } => *data,
            NestedVoxel::Detail { data, .. } => *data,
            NestedVoxel::Material { data, .. } => *data,
            NestedVoxel::Placeholder => arbitrary(),
        }
    }

    /// Construct a detail voxel from a list of subvoxels; subvoxels past the
    /// subvoxel count are dropped.
    pub fn from_iter(data: T, iter: Vec<T::Child>) -> (r: Self)
        ensures
            r matches NestedVoxel::Detail { data: d, .. } && d == data,
            r.spec_detail() == if iter@.len() <= spec_count(T::SUBDIV) {
                iter@
            } else {
                iter@.subrange(0, spec_count(T::SUBDIV) as int)
            },
    {
        proof {
            T::lemma_subdiv_valid();
        }
        let mut detail = iter;
        detail.truncate(count(T::SUBDIV));
        NestedVoxel::Detail { detail, data }
    }

    /// A voxel filled with `material`, with default user data.
    pub fn from_material(material: AtlasMaterialHandle) -> (r: Self) where T: Default
        ensures
            r matches NestedVoxel::Material { material: m, .. } && m == material,
    {
        NestedVoxel::Material { data: T::default(), material }
    }

    /// Mutable access to the user data of this voxel. Placeholders carry none.
    pub fn data_mut(&mut self) -> (r: &mut T)
        requires
            !(*old(self) is Placeholder),
        ensures
            *r == old(self).spec_data(),
            *final(self) == match *old(self) {
                NestedVoxel::Empty { .. } => NestedVoxel::Empty { data: *final(r) },
                NestedVoxel::Detail { detail, .. } => NestedVoxel::Detail { detail, data: *final(r) },
                NestedVoxel::Material { material, .. } => NestedVoxel::Material { material, data: *final(r) },
                NestedVoxel::Placeholder => NestedVoxel::Placeholder,
            },
    {
        match self {
            NestedVoxel::Empty { data } => data,
            NestedVoxel::Detail { data, .. } => data,
            NestedVoxel::Material { data, .. } => data,
            NestedVoxel::Placeholder => vstd::pervasive::unreached(),
        }
    }

    /// The user data of this voxel. Placeholders carry none.
    pub fn data(&self) -> (r: &T)
        requires
            !(self is Placeholder),
        ensures
            match self {
                NestedVoxel::Empty { data } => *r == *data,
                NestedVoxel::Detail { data, .. } => *r == *data,
                NestedVoxel::Material { data, .. } => *r == *data,
                NestedVoxel::Placeholder => false,
            },
    {
        match self {
            NestedVoxel::Empty { data } => data,
            NestedVoxel::Detail { data, .. } => data,
            NestedVoxel::Material { data, .. } => data,
            NestedVoxel::Placeholder => vstd::pervasive::unreached(),
        }
    }
}

impl<T: Data + Default> Default for NestedVoxel<T> {
    /// An empty voxel with default user data.
    fn default() -> (r: Self)
        ensures
            r is Empty,
    {
        NestedVoxel::Empty { data: T::default() }
    }
}

impl<T: Data> Voxel for NestedVoxel<T> where T::Child: Voxel {
    type Data = T;

    open spec fn spec_get(&self, index: int) -> Option<T::Child> {
        if 0 <= index < self.spec_detail().len() {
            Some(self.spec_detail()[index])
        } else {
            None
        }
    }

    open spec fn spec_visible(&self) -> bool {
        match self {
            NestedVoxel::Empty { .. } => false,
            NestedVoxel::Detail { data, .. } => data.spec_visible(),
            NestedVoxel::Material { .. } => true,
            NestedVoxel::Placeholder => false,
        }
    }

    open spec fn spec_render(&self) -> bool {
        match self {
            NestedVoxel::Empty { .. } => true,
            NestedVoxel::Detail { data, .. } => data.spec_render(),
            NestedVoxel::Material { .. } => false,
            NestedVoxel::Placeholder => true,
        }
    }

    open spec fn spec_skin(&self) -> Option<u8> {
        match self {
            NestedVoxel::Empty { .. } => None,
            NestedVoxel::Detail { data, .. } => data.spec_skin(),
            NestedVoxel::Material { data, .. } => data.spec_skin(),
            NestedVoxel::Placeholder => None,
        }
    }

    open spec fn spec_is_detail(&self) -> bool {
        self is Detail
    }

    open spec fn spec_fill(&self) -> Option<AtlasMaterialHandle> {
        match self {
            NestedVoxel::Material { material, .. } => Some(*material),
            _ => None,
        }
    }

    open spec fn spec_child_visible(&self, index: int) -> bool {
        match self.spec_get(index) {
            Some(c) => c.spec_visible(),
            None => false,
        }
    }

    open spec fn spec_child_render(&self, index: int) -> bool {
        match self.spec_get(index) {
            Some(c) => c.spec_render(),
            None => false,
        }
    }

    open spec fn spec_child_skin(&self, index: int) -> Option<u8> {
        match self.spec_get(index) {
            Some(c) => c.spec_skin(),
            None => None,
        }
    }

    open spec fn spec_child_is_detail(&self, index: int) -> bool {
        match self.spec_get(index) {
            Some(c) => c.spec_is_detail(),
            None => false,
        }
    }

    proof fn lemma_no_child(&self, index: int) {
    }

    fn new_empty(data: T) -> (r: Self)
        ensures
            r == (NestedVoxel::Empty { data }),
    {
        NestedVoxel::Empty { data }
    }

    fn new_filled(data: T, material: AtlasMaterialHandle) -> (r: Self)
        ensures
            r == (NestedVoxel::Material { data, material }),
    {
        NestedVoxel::Material { data, material }
    }

    fn get(&self, index: usize) -> (r: Option<&T::Child>) {
        match self {
            NestedVoxel::Detail { detail, .. } => {
                if index < detail.len() {
                    Some(&detail[index])
                } else {
                    None
                }
            },
            _ => None,
        }
    }

    fn get_mut(&mut self, index: usize) -> (r: Option<&mut T::Child>)
        ensures
            r is Some <==> (*old(self) is Detail && index < old(self).spec_detail().len()),
            r matches Some(c) ==> *c == old(self).spec_detail()[index as int],
            r matches Some(c) ==> final(self).spec_detail() == old(self).spec_detail().update(index as int, *final(c)),
            r is Some ==> *final(self) is Detail && final(self).spec_data() == old(self).spec_data(),
            r is None ==> *final(self) == *old(self),
    {
        match self {
            NestedVoxel::Detail { detail, .. } => {
                if index < detail.len() {
                    Some(&mut detail[index])
                } else {
                    None
                }
            },
            _ => None,
        }
    }

    fn visible(&self) -> (r: bool) {
        match self {
            NestedVoxel::Empty { .. } => false,
            NestedVoxel::Detail { data, .. } => data.visible(),
            NestedVoxel::Material { .. } => true,
            NestedVoxel::Placeholder => false,
        }
    }

    fn render(&self) -> (r: bool) {
        match self {
            NestedVoxel::Empty { .. } => true,
            NestedVoxel::Detail { data, .. } => data.render(),
            NestedVoxel::Material { .. } => false,
            NestedVoxel::Placeholder => true,
        }
    }

    fn skin(&self) -> (r: Option<u8>) {
        match self {
            NestedVoxel::Empty { .. } => None,
            NestedVoxel::Detail { data, .. } => data.skin(),
            NestedVoxel::Material { data, .. } => data.skin(),
            NestedVoxel::Placeholder => None,
        }
    }

    fn is_detail(&self) -> (r: bool) {
        match self {
            NestedVoxel::Detail { .. } => true,
            _ => false,
        }
    }

    fn child_visible(&self, index: usize) -> (r: bool) {
        match self.get(index) {
            Some(c) => c.visible(),
            None => false,
        }
    }

    fn child_render(&self, index: usize) -> (r: bool) {
        match self.get(index) {
            Some(c) => c.render(),
            None => false,
        }
    }

    fn child_skin(&self, index: usize) -> (r: Option<u8>) {
        match self.get(index) {
            Some(c) => c.skin(),
            None => None,
        }
    }

    fn child_is_detail(&self, index: usize) -> (r: bool) {
        match self.get(index) {
            Some(c) => c.is_detail(),
            None => false,
        }
    }
}

} // verus!

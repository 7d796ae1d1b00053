use vstd::prelude::*;

verus! {

/// A material id issued by the `VoxelMaterialStorage`.
#[derive(Clone, Copy, Debug, PartialEq, Eq, Structural)]
pub struct VoxelMaterialId(pub u32);

/// Handle of a material inside the texture atlas; the atlas index is the material id.
pub type AtlasMaterialHandle = VoxelMaterialId;

impl VoxelMaterialId {
    /// The atlas index of this material.
    pub fn index(&self) -> (r: u32)
        ensures
            r == self.0,
    {
        self.0
    }
}


/// The tiling of the the textured material. This is only relevant when filtering is enabled.
#[derive(Clone, Copy, Debug, PartialEq, Eq, Structural)]
pub enum Tiling {
    /// Repeats along neither axis.
    Neither,
    Horizontal,
    Vertical,
    Both,
}

impl Tiling {
    /// The material repeats along x.
    pub open spec fn spec_horizontal(self) -> bool {
        self == Tiling::Horizontal || self == Tiling::Both
    }

    /// The material repeats along y.
    pub open spec fn spec_vertical(self) -> bool {
        self == Tiling::Vertical || self == Tiling::Both
    }

    /// The material repeats along x.
    pub fn horizontal(&self) -> (r: bool)
        ensures
            r == self.spec_horizontal(),
    {
        match self {
            Tiling::Horizontal => true,
            Tiling::Both => true,
            _ => false,
        }
    }

    /// The material repeats along y.
    pub fn vertical(&self) -> (r: bool)
        ensures
            r == self.spec_vertical(),
    {
        match self {
            Tiling::Vertical => true,
            Tiling::Both => true,
            _ => false,
        }
    }
}

impl Default for Tiling {
    fn default() -> (r: Self)
        ensures
            r == Tiling::Both,
    {
        Tiling::Both
    }
}

/// A material of one color.
#[derive(Clone, Copy, Debug)]
pub struct ColoredMaterial {
    /// The diffuse albedo of the material
    pub albedo: [u8; 3],
    /// Emissive color of the material
    pub emission: [u8; 3],
    /// Alpha blending factor of the material (unused for now)
    pub alpha: u8,
    /// The metallic factor of the material
    pub metallic: u8,
    /// The roughness factor of the material
    pub roughness: u8,
}

impl ColoredMaterial {
    /// White, opaque, not emissive, hardly metallic and rough.
    pub open spec fn spec_default() -> ColoredMaterial {
        ColoredMaterial { albedo: [255, 255, 255], emission: [0, 0, 0], alpha: 255, metallic: 8, roughness: 250 }
    }
}

impl Default for ColoredMaterial {
    fn default() -> (r: Self)
        ensures
            r == ColoredMaterial::spec_default(),
    {
        ColoredMaterial { albedo: [255, 255, 255], emission: [0, 0, 0], alpha: 255, metallic: 8, roughness: 250 }
    }
}

/// A material with a square texture per channel.
#[derive(Clone)]
pub struct TexturedMaterial {
    /// The size of both the width and the height of this texture. Must be a power of 2.
    pub size: usize,
    /// The tiling of the the textured material. This is only relevant when filtering is enabled.
    pub tiling: Tiling,
    /// The albedo/alpha texture. One entry [r, g, b, a] per pixel.
    /// If you don't care abou this texture you can leave it empty, [0, 0, 0, 255] will be used if the vector is empty.
    pub albedo_alpha: Vec<[u8; 4]>,
    /// The emission texture. One entry [r, g, b] per pixel.
    /// If you don't care about this texture you can leave it empty, [0, 0, 0] will be used if the vector is empty.
    pub emission: Vec<[u8; 3]>,
    /// The metallic/roughness texture. One entry [m, r] per pixel.
    /// If you don't care abou this texture you can leave it empty, [240, 8] will be used if the vector is empty.
    pub metallic_roughness: Vec<[u8; 2]>,
}


/// A material. For a better explanation of the properties,
/// take a look at the amethyst PBR model.
pub trait VoxelMaterial: Sized {
    spec fn spec_dimension(&self) -> usize;

    /// How many submaterials this material has.
    spec fn spec_sub_count(&self) -> nat;

    /// `sub` is the `k`-th submaterial of this material.
    spec fn spec_submaterial(&self, sub: Self, k: int) -> bool;

    /// This material looks exactly like `other`.
    spec fn spec_identical(&self, other: Self) -> bool;

    /// Whether this material looks exactly like `other`.
    fn identical(&self, other: &Self) -> (r: bool)
        ensures
            r == self.spec_identical(*other),
    ;

    spec fn spec_sub_side(&self, side: u8) -> usize;

    spec fn spec_tiling(&self) -> Tiling;

    /// The width and height of this material.
    fn dimension(&self) -> (r: usize)
        ensures
            r == self.spec_dimension(),
    ;

    /// Get a pixel value for the albedo/alpha channel. The format is [r, g, b, a].
    fn albedo_alpha(&self, x: usize, y: usize) -> [u8; 4]
        requires
            y * self.spec_dimension() + x <= usize::MAX,
    ;

    /// Get a pixel value for the emission channel. The format is [r, g, b].
    fn emission(&self, x: usize, y: usize) -> [u8; 3]
        requires
            y * self.spec_dimension() + x <= usize::MAX,
    ;

    /// Get a pixel value for the metallic/roughness channel. The format is [m, r].
    fn metallic_roughness(&self, x: usize, y: usize) -> [u8; 2]
        requires
            y * self.spec_dimension() + x <= usize::MAX,
    ;

    /// The submaterials of this material. Should be at least self; they all
    /// have the dimension of this material.
    fn submaterials(&self) -> (r: Vec<Self>)
        ensures
            r@.len() == self.spec_sub_count(),
            r@.len() >= 1,
            r@[0].spec_identical(*self),
            forall|i: int| 0 <= i < r@.len() ==> (#[trigger] r@[i]).spec_dimension() == self.spec_dimension(),
            forall|i: int| 0 <= i < r@.len() ==> self.spec_submaterial(#[trigger] r@[i], i),
    ;

    /// What submaterial to render for the given properties.
    fn sub_side(&self, side: u8) -> (r: usize)
        ensures
            r == self.spec_sub_side(side),
    ;

    /// The amount of animation frames for this material
    fn sub_frames(&self) -> usize;

    /// The kind of tiling to bake into the atlas for this material.
    fn tiling(&self) -> (r: Tiling)
        ensures
            r == self.spec_tiling(),
    ;
}

impl VoxelMaterial for ColoredMaterial {
    open spec fn spec_dimension(&self) -> usize {
        1
    }

    open spec fn spec_sub_count(&self) -> nat {
        1
    }

    open spec fn spec_submaterial(&self, sub: Self, k: int) -> bool {
        sub == *self
    }

    open spec fn spec_identical(&self, other: Self) -> bool {
        *self == other
    }

    fn identical(&self, other: &Self) -> (r: bool) {
        let r = self.albedo[0] == other.albedo[0] && self.albedo[1] == other.albedo[1] && self.albedo[2]
            == other.albedo[2] && self.emission[0] == other.emission[0] && self.emission[1] == other.emission[1]
            && self.emission[2] == other.emission[2] && self.alpha == other.alpha && self.metallic
            == other.metallic && self.roughness == other.roughness;
        proof {
            if r {
                assert(self.albedo =~= other.albedo);
                assert(self.emission =~= other.emission);
            } else if *self == *other {
                assert(self.albedo[0] == other.albedo[0] && self.albedo[1] == other.albedo[1]);
            }
        }
        r
    }

    open spec fn spec_sub_side(&self, side: u8) -> usize {
        0
    }

    open spec fn spec_tiling(&self) -> Tiling {
        Tiling::Both
    }

    fn dimension(&self) -> (r: usize) {
        1
    }

    fn albedo_alpha(&self, x: usize, y: usize) -> (r: [u8; 4])
        ensures
            r == [self.albedo[0], self.albedo[1], self.albedo[2], self.alpha],
    {
        [self.albedo[0], self.albedo[1], self.albedo[2], self.alpha]
    }

    fn emission(&self, x: usize, y: usize) -> (r: [u8; 3])
        ensures
            r == [self.emission[0], self.emission[1], self.emission[2]],
    {
        [self.emission[0], self.emission[1], self.emission[2]]
    }

    fn metallic_roughness(&self, x: usize, y: usize) -> (r: [u8; 2])
        ensures
            r == [self.metallic, self.roughness],
    {
        [self.metallic, self.roughness]
    }

    fn submaterials(&self) -> (r: Vec<Self>)
        ensures
            r@ == seq![*self],
    {
        let mut v: Vec<Self> = Vec::new();
        v.push(*self);
        proof {
            assert(v@ =~= seq![*self]);
        }
        v
    }

    fn sub_side(&self, side: u8) -> (r: usize) {
        0
    }

    fn sub_frames(&self) -> (r: usize)
        ensures
            r == 0,
    {
        0
    }

    fn tiling(&self) -> (r: Tiling) {
        Tiling::Both
    }
}

/// The pixel at `i` of a texture, or `fallback` where the texture has none.
fn pixel_or<T: Copy>(texture: &Vec<T>, i: usize, fallback: T) -> (r: T)
    ensures
        r == if i < texture@.len() {
            texture@[i as int]
        } else {
            fallback
        },
{
    if i < texture.len() {
        texture[i]
    } else {
        fallback
    }
}

fn copy_texture<T: Copy>(texture: &Vec<T>) -> (r: Vec<T>)
    ensures
        r@ == texture@,
{
    let mut v: Vec<T> = Vec::new();
    let mut i: usize = 0;
    while i < texture.len()
        invariant
            i <= texture@.len(),
            v@ == texture@.take(i as int),
        decreases texture@.len() - i,
    {
        v.push(texture[i]);
        i = i + 1;
        proof {
            assert(v@ =~= texture@.take(i as int));
        }
    }
    proof {
        assert(texture@.take(i as int) =~= texture@);
    }
    v
}

impl TexturedMaterial {
    /// The texel of `texture` at `(x, y)`, or `fallback` where the texture has none.
    pub open spec fn texel<T>(&self, texture: Seq<T>, x: int, y: int, fallback: T) -> T {
        let i = y * self.size + x;
        if 0 <= i < texture.len() {
            texture[i]
        } else {
            fallback
        }
    }
}

/// Whether two textures hold the same texels.
fn same_texels4(a: &Vec<[u8; 4]>, b: &Vec<[u8; 4]>) -> (r: bool)
    ensures
        r == (a@ == b@),
{
    if a.len() != b.len() {
        return false;
    }
    let mut i: usize = 0;
    while i < a.len()
        invariant
            a@.len() == b@.len(),
            i <= a@.len(),
            forall|j: int| 0 <= j < i ==> a@[j] == b@[j],
        decreases a@.len() - i,
    {
        let (x, y) = (a[i], b[i]);
        if !(x[0] == y[0] && x[1] == y[1] && x[2] == y[2] && x[3] == y[3]) {
            return false;
        }
        assert(x =~= y);
        i = i + 1;
    }
    assert(a@ =~= b@);
    true
}

/// Whether two textures hold the same texels.
fn same_texels3(a: &Vec<[u8; 3]>, b: &Vec<[u8; 3]>) -> (r: bool)
    ensures
        r == (a@ == b@),
{
    if a.len() != b.len() {
        return false;
    }
    let mut i: usize = 0;
    while i < a.len()
        invariant
            a@.len() == b@.len(),
            i <= a@.len(),
            forall|j: int| 0 <= j < i ==> a@[j] == b@[j],
        decreases a@.len() - i,
    {
        let (x, y) = (a[i], b[i]);
        if !(x[0] == y[0] && x[1] == y[1] && x[2] == y[2]) {
            return false;
        }
        assert(x =~= y);
        i = i + 1;
    }
    assert(a@ =~= b@);
    true
}

/// Whether two textures hold the same texels.
fn same_texels2(a: &Vec<[u8; 2]>, b: &Vec<[u8; 2]>) -> (r: bool)
    ensures
        r == (a@ == b@),
{
    if a.len() != b.len() {
        return false;
    }
    let mut i: usize = 0;
    while i < a.len()
        invariant
            a@.len() == b@.len(),
            i <= a@.len(),
            forall|j: int| 0 <= j < i ==> a@[j] == b@[j],
        decreases a@.len() - i,
    {
        let (x, y) = (a[i], b[i]);
        if !(x[0] == y[0] && x[1] == y[1]) {
            return false;
        }
        assert(x =~= y);
        i = i + 1;
    }
    assert(a@ =~= b@);
    true
}

/// `after` is what creating `m` makes of the stored materials `before`: they
/// stay as they are when one of them looks like `m`; otherwise the
/// submaterials of `m` follow them.
#[verifier::opaque]
pub open spec fn created<M: VoxelMaterial>(before: Seq<M>, m: M, after: Seq<M>) -> bool {
    if find_identical(before, m) < before.len() {
        after == before
    } else {
        &&& after.len() == before.len() + m.spec_sub_count()
        &&& after.subrange(0, before.len() as int) == before
        &&& forall|i: int|
            before.len() <= i < after.len() ==> m.spec_submaterial(#[trigger] after[i], i - before.len())
    }
}

/// `after` is what creating each of `ms` in turn makes of the stored
/// materials `before`: `states[i]` are the materials before `ms[i]` is created.
pub open spec fn created_in_order<M: VoxelMaterial>(before: Seq<M>, ms: Seq<M>, after: Seq<M>) -> bool {
    exists|states: Seq<Seq<M>>|
        #![trigger states.len()]
        {
            &&& states.len() == ms.len() + 1
            &&& states[0] == before
            &&& states[ms.len() as int] == after
            &&& forall|i: int| 0 <= i < ms.len() ==> created(#[trigger] states[i], ms[i], states[i + 1])
        }
}

/// Index of the first of `materials` that looks exactly like `m`; the
/// length of `materials` when none does.
pub open spec fn find_identical<M: VoxelMaterial>(materials: Seq<M>, m: M) -> int
    decreases materials.len(),
{
    if materials.len() == 0 {
        0
    } else {
        let r = find_identical(materials.drop_last(), m);
        if r < materials.len() - 1 {
            r
        } else if materials.last().spec_identical(m) {
            materials.len() - 1
        } else {
            materials.len() as int
        }
    }
}

impl VoxelMaterial for TexturedMaterial {
    open spec fn spec_dimension(&self) -> usize {
        self.size
    }

    open spec fn spec_sub_count(&self) -> nat {
        1
    }

    /// The submaterial is a copy: the same size, tiling and textures.
    open spec fn spec_submaterial(&self, sub: Self, k: int) -> bool {
        &&& sub.size == self.size
        &&& sub.tiling == self.tiling
        &&& sub.albedo_alpha@ == self.albedo_alpha@
        &&& sub.emission@ == self.emission@
        &&& sub.metallic_roughness@ == self.metallic_roughness@
    }

    /// Same size, tiling and textures.
    open spec fn spec_identical(&self, other: Self) -> bool {
        &&& self.size == other.size
        &&& self.tiling == other.tiling
        &&& self.albedo_alpha@ == other.albedo_alpha@
        &&& self.emission@ == other.emission@
        &&& self.metallic_roughness@ == other.metallic_roughness@
    }

    fn identical(&self, other: &Self) -> (r: bool) {
        self.size == other.size && self.tiling == other.tiling && same_texels4(&self.albedo_alpha, &other.albedo_alpha)
            && same_texels3(&self.emission, &other.emission) && same_texels2(
            &self.metallic_roughness,
            &other.metallic_roughness,
        )
    }

    open spec fn spec_sub_side(&self, side: u8) -> usize {
        0
    }

    open spec fn spec_tiling(&self) -> Tiling {
        self.tiling
    }

    fn dimension(&self) -> (r: usize) {
        self.size
    }

    fn albedo_alpha(&self, x: usize, y: usize) -> (r: [u8; 4])
        ensures
            r == self.texel(self.albedo_alpha@, x as int, y as int, [0u8, 0u8, 0u8, 255u8]),
    {
        pixel_or(&self.albedo_alpha, y * self.size + x, [0, 0, 0, 255])
    }

    fn emission(&self, x: usize, y: usize) -> (r: [u8; 3])
        ensures
            r == self.texel(self.emission@, x as int, y as int, [0u8, 0u8, 0u8]),
    {
        pixel_or(&self.emission, y * self.size + x, [0, 0, 0])
    }

    fn metallic_roughness(&self, x: usize, y: usize) -> (r: [u8; 2])
        ensures
            r == self.texel(self.metallic_roughness@, x as int, y as int, [240u8, 8u8]),
    {
        pixel_or(&self.metallic_roughness, y * self.size + x, [240, 8])
    }

    fn submaterials(&self) -> (r: Vec<Self>) {
        let copy = TexturedMaterial {
            size: self.size,
            tiling: self.tiling,
            albedo_alpha: copy_texture(&self.albedo_alpha),
            emission: copy_texture(&self.emission),
            metallic_roughness: copy_texture(&self.metallic_roughness),
        };
        let mut v: Vec<Self> = Vec::new();
        v.push(copy);
        v
    }

    fn sub_side(&self, side: u8) -> (r: usize) {
        0
    }

    fn sub_frames(&self) -> (r: usize)
        ensures
            r == 0,
    {
        0
    }

    fn tiling(&self) -> (r: Tiling) {
        self.tiling
    }
}


/// A storage resource for `VoxelMaterial`s, baked into a texture atlas of
/// `size` by `size` pixels with one `grid` by `grid` slot per material.
/// `H` is the handle of the baked atlas.
pub struct VoxelMaterialStorage<M, H> {
    materials: Vec<M>,
    size: usize,
    grid: usize,
    dirty: bool,
    handle: Option<H>,
}

/// Side of the smallest atlas, starting from `size` and doubling, whose
/// square holds `count` slots of `grid` by `grid` pixels.
pub open spec fn atlas_size_from(count: int, grid: int, size: int) -> int
    decreases (if size > 0 && count * grid * grid > size * size { count * grid * grid - size * size } else { 0 }),
{
    if size > 0 && count * grid * grid > size * size {
        proof {
            assert(size * size < (2 * size) * (2 * size)) by (nonlinear_arith)
                requires
                    size > 0,
            ;
        }
        atlas_size_from(count, grid, 2 * size)
    } else {
        size
    }
}

/// Side of the atlas for `count` materials in slots of `grid` pixels.
pub open spec fn atlas_size_for(count: int, grid: int) -> int {
    atlas_size_from(count, grid, 32)
}

/// Number of mip levels of an atlas with slots of `grid` pixels: one, plus
/// one per halving of half a slot that stays above two pixels.
pub open spec fn mips_from(room: nat) -> nat
    decreases room,
{
    if room > 2 {
        1 + mips_from(room / 2)
    } else {
        1
    }
}

/// The texel at `x` inside a slot of `grid` pixels that holds a material of
/// `dim` pixels centred in it: the border repeats the material when it
/// tiles, else it repeats the material's edge.
pub open spec fn slot_texel(grid: int, dim: int, x: int, tile: bool) -> int {
    let border = (grid - dim) / 2;
    if x < border {
        if tile {
            ((x + dim) - border) % dim
        } else {
            0
        }
    } else {
        if tile {
            (x - border) % dim
        } else {
            if dim - 1 < x - border {
                dim - 1
            } else {
                x - border
            }
        }
    }
}

/// Where corner `coord` of a quad lies within a material's square, along x and y.
pub open spec fn corner_x(coord: u8) -> int {
    let c = coord & 3;
    if c == 1 || c == 2 {
        1
    } else {
        0
    }
}

pub open spec fn corner_y(coord: u8) -> int {
    if coord & 3 >= 2 {
        1
    } else {
        0
    }
}

/// Texel `x` of a slot can be computed: a tiling material's repeat into the
/// border must not reach back further than the material's width.
pub open spec fn texel_defined(grid: int, dim: int, x: int, tile: bool) -> bool {
    !(tile && x < (grid - dim) / 2) || x + dim >= (grid - dim) / 2
}

fn slot_texel_of(grid: usize, dim: usize, x: usize, tile: bool) -> (r: usize)
    requires
        1 <= dim <= grid,
        x < grid,
        texel_defined(grid as int, dim as int, x as int, tile),
    ensures
        r == slot_texel(grid as int, dim as int, x as int, tile),
{
    let border = (grid - dim) / 2;
    if x < border {
        if tile {
            ((x + dim) - border) % dim
        } else {
            0
        }
    } else {
        if tile {
            (x - border) % dim
        } else {
            if dim - 1 < x - border {
                dim - 1
            } else {
                x - border
            }
        }
    }
}

impl<M: VoxelMaterial, H> VoxelMaterialStorage<M, H> {
    pub closed spec fn spec_materials(&self) -> Seq<M> {
        self.materials@
    }

    pub closed spec fn spec_size(&self) -> usize {
        self.size
    }

    pub closed spec fn spec_grid(&self) -> usize {
        self.grid
    }

    pub closed spec fn spec_dirty(&self) -> bool {
        self.dirty
    }

    pub closed spec fn spec_handle(&self) -> Option<H> {
        self.handle
    }

    /// Every material fits its slot, with room for a border as wide as itself.
    pub open spec fn wf(&self) -> bool {
        &&& self.spec_grid() >= 4
        &&& forall|i: int|
            0 <= i < self.spec_materials().len() ==> 1 <= (#[trigger] self.spec_materials()[i]).spec_dimension()
                && 2 * self.spec_materials()[i].spec_dimension() <= self.spec_grid()
    }

    /// An empty storage whose atlas still has to be baked.
    pub fn new() -> (r: Self)
        ensures
            r.wf(),
            r.spec_materials().len() == 0,
            r.spec_size() == 1,
            r.spec_grid() == 4,
            r.spec_dirty(),
            r.spec_handle().is_none(),
    {
        VoxelMaterialStorage { materials: Vec::new(), size: 1, grid: 4, dirty: true, handle: None }
    }

    /// Create a new material. If an identical material already exists, its
    /// id is returned and nothing changes. Otherwise the submaterials of the
    /// new material are stored after the existing materials, and the first of
    /// them gets the returned id.
    pub fn create(&mut self, material: &M) -> (id: VoxelMaterialId)
        requires
            old(self).wf(),
            find_identical(old(self).spec_materials(), *material) < old(self).spec_materials().len() || (1
                <= material.spec_dimension() && 2 * material.spec_dimension() <= usize::MAX),
        ensures
            final(self).wf(),
            created(old(self).spec_materials(), *material, final(self).spec_materials()),
            id == VoxelMaterialId(find_identical(old(self).spec_materials(), *material) as u32),
            id.0 < final(self).spec_materials().len(),
            find_identical(final(self).spec_materials(), *material) == find_identical(
                old(self).spec_materials(),
                *material,
            ),
            find_identical(final(self).spec_materials(), *material) < final(self).spec_materials().len(),
            find_identical(old(self).spec_materials(), *material) < old(self).spec_materials().len() ==> {
                &&& final(self).spec_materials() == old(self).spec_materials()
                &&& final(self).spec_grid() == old(self).spec_grid()
                &&& final(self).spec_dirty() == old(self).spec_dirty()
            },
            find_identical(old(self).spec_materials(), *material) == old(self).spec_materials().len() ==> {
                &&& final(self).spec_materials().len() == old(self).spec_materials().len()
                    + material.spec_sub_count()
                &&& forall|i: int|
                    old(self).spec_materials().len() <= i < final(self).spec_materials().len() ==> (
                    #[trigger] final(self).spec_materials()[i]).spec_dimension() == material.spec_dimension()
                &&& forall|i: int|
                    old(self).spec_materials().len() <= i < final(self).spec_materials().len()
                        ==> material.spec_submaterial(
                        #[trigger] final(self).spec_materials()[i],
                        i - old(self).spec_materials().len(),
                    )
                &&& final(self).spec_grid() == if old(self).spec_grid() < 2 * material.spec_dimension() {
                    2 * material.spec_dimension()
                } else {
                    old(self).spec_grid() as int
                }
                &&& final(self).spec_dirty()
            },
            final(self).spec_materials().subrange(0, old(self).spec_materials().len() as int)
                == old(self).spec_materials(),
            final(self).spec_size() == old(self).spec_size(),
            final(self).spec_handle() == old(self).spec_handle(),
    {
        let n = self.materials.len();
        let mut i: usize = 0;
        while i < n
            invariant
                n == self.materials@.len(),
                i <= n,
                *self == *old(self),
                old(self).wf(),
                find_identical(self.materials@.take(i as int), *material) == i,
            decreases n - i,
        {
            proof {
                assert(self.materials@.take(i + 1).drop_last() =~= self.materials@.take(i as int));
            }
            if self.materials[i].identical(material) {
                proof {
                    lemma_find_identical_prefix(self.materials@, *material, i + 1);
                    assert(self.materials@.subrange(0, n as int) =~= self.materials@);
                }
                assert((i as u32) as usize <= i) by (bit_vector);
                assert(created(old(self).spec_materials(), *material, self.materials@)) by {
                    reveal(created);
                }
                return VoxelMaterialId(#[verifier::truncate] (i as u32));
            }
            i = i + 1;
        }
        proof {
            assert(self.materials@.take(n as int) =~= self.materials@);
        }
        let id = self.materials.len();
        self.dirty = true;
        let d = material.dimension() * 2;
        if self.grid < d {
            self.grid = d;
        }
        let mut subs = material.submaterials();
        let ghost old_materials = self.materials@;
        let ghost new_subs = subs@;
        self.materials.append(&mut subs);
        proof {
            assert(self.materials@ == old_materials + new_subs);
            let fin = self.materials@;
            let k = old_materials.len() as int;
            assert(fin[k] == new_subs[0]);
            assert(fin.take(k + 1).drop_last() =~= old_materials);
            assert(fin.take(k + 1).last() == new_subs[0]);
            assert(find_identical(fin.take(k + 1), *material) == k);
            lemma_find_identical_prefix(fin, *material, k + 1);
            assert(self.materials@.subrange(0, old_materials.len() as int) =~= old_materials);
            assert forall|i: int|
                old_materials.len() <= i < self.materials@.len() implies material.spec_submaterial(
                #[trigger] self.materials@[i],
                i - old_materials.len(),
            ) by {
                assert(self.materials@[i] == new_subs[i - old_materials.len()]);
            }
            assert forall|i: int| 0 <= i < self.materials@.len() implies 1 <= (
            #[trigger] self.materials@[i]).spec_dimension() && 2 * self.materials@[i].spec_dimension()
                <= self.grid by {
                if i >= old_materials.len() {
                    assert(self.materials@[i] == new_subs[i - old_materials.len()]);
                } else {
                    assert(self.materials@[i] == old_materials[i]);
                }
            }
        }
        assert((id as u32) as usize <= id) by (bit_vector);
        assert(created(old(self).spec_materials(), *material, self.materials@)) by {
            reveal(created);
        }
        VoxelMaterialId(#[verifier::truncate] (id as u32))
    }

    /// The material stored at `index`.
    pub fn material(&self, index: usize) -> (r: &M)
        requires
            index < self.spec_materials().len(),
        ensures
            *r == self.spec_materials()[index as int],
    {
        &self.materials[index]
    }

    /// Number of stored materials.
    pub fn len(&self) -> (r: usize)
        ensures
            r == self.spec_materials().len(),
    {
        self.materials.len()
    }

    /// Side of the atlas in pixels.
    pub fn size(&self) -> (r: usize)
        ensures
            r == self.spec_size(),
    {
        self.size
    }

    /// Side of a material slot in pixels.
    pub fn grid(&self) -> (r: usize)
        ensures
            r == self.spec_grid(),
    {
        self.grid
    }

    /// The handle of the baked atlas, if it was baked.
    pub fn handle(&self) -> (r: Option<&H>)
        ensures
            match self.spec_handle() {
                Some(h) => r == Some(&h),
                None => r.is_none(),
            },
    {
        match &self.handle {
            Some(h) => Some(h),
            None => None,
        }
    }

    /// When materials were created since the atlas was last baked, size the
    /// atlas for them and return true: the atlas must be baked anew.
    pub fn prepare_atlas(&mut self) -> (rebuild: bool)
        requires
            old(self).wf(),
            old(self).spec_dirty() ==> {
                let (c, g) = (old(self).spec_materials().len() as int, old(self).spec_grid() as int);
                &&& c * g * g <= usize::MAX
                &&& atlas_size_for(c, g) * atlas_size_for(c, g) <= usize::MAX
            },
        ensures
            final(self).wf(),
            rebuild == old(self).spec_dirty(),
            final(self).spec_size() == if rebuild {
                atlas_size_for(old(self).spec_materials().len() as int, old(self).spec_grid() as int)
            } else {
                old(self).spec_size() as int
            },
            final(self).spec_materials() == old(self).spec_materials(),
            final(self).spec_grid() == old(self).spec_grid(),
            final(self).spec_dirty() == old(self).spec_dirty(),
            final(self).spec_handle() == old(self).spec_handle(),
    {
        if self.dirty {
            self.size = atlas_size(self.materials.len(), self.grid);
            true
        } else {
            false
        }
    }

    /// Record the handle of the freshly baked atlas.
    pub fn finish_atlas(&mut self, handle: H)
        ensures
            final(self).spec_handle() == Some(handle),
            !final(self).spec_dirty(),
            final(self).spec_materials() == old(self).spec_materials(),
            final(self).spec_grid() == old(self).spec_grid(),
            final(self).spec_size() == old(self).spec_size(),
    {
        self.handle = Some(handle);
        self.dirty = false;
    }

    /// Number of mip levels to bake.
    pub fn mip_levels(&self) -> (r: u8)
        ensures
            r == mips_from((self.spec_grid() / 2) as nat),
            r >= 1,
    {
        mip_levels(self.grid)
    }

    /// Which material, and which of its texels, the atlas pixel `(x, y)` shows:
    /// `None` past the last material.
    pub fn texel(&self, x: usize, y: usize) -> (r: Option<(usize, usize, usize)>)
        requires
            self.wf(),
            (y / self.spec_grid()) * (self.spec_size() / self.spec_grid()) + x / self.spec_grid() <= usize::MAX,
            ({
                let g = self.spec_grid() as int;
                let (xi, yi) = (x as int, y as int);
                let index = (yi / g) * (self.spec_size() as int / g) + xi / g;
                index < self.spec_materials().len() ==> {
                    let m = self.spec_materials()[index];
                    &&& texel_defined(g, m.spec_dimension() as int, xi % g, m.spec_tiling().spec_horizontal())
                    &&& texel_defined(g, m.spec_dimension() as int, yi % g, m.spec_tiling().spec_vertical())
                }
            }),
        ensures
            match self.spec_texel(x as int, y as int) {
                Some((i, u, v)) => r == Some((i as usize, u as usize, v as usize)),
                None => r.is_none(),
            },
    {
        let grid = self.grid;
        let slots = self.size / grid;
        proof {
            vstd::arithmetic::div_mod::lemma_fundamental_div_mod(x as int, grid as int);
            vstd::arithmetic::div_mod::lemma_fundamental_div_mod(y as int, grid as int);
            assert((x / grid) * grid == grid * (x / grid)) by (nonlinear_arith);
            assert((y / grid) * grid == grid * (y / grid)) by (nonlinear_arith);
        }
        let tx = x - (x / grid) * grid;
        let ty = y - (y / grid) * grid;
        let index = (y / grid) * slots + x / grid;
        if index < self.materials.len() {
            let m = &self.materials[index];
            let dim = m.dimension();
            let t = m.tiling();
            proof {
                assert(1 <= m.spec_dimension() && 2 * m.spec_dimension() <= grid);
            }
            let u = slot_texel_of(grid, dim, tx, t.horizontal());
            let v = slot_texel_of(grid, dim, ty, t.vertical());
            Some((index, u, v))
        } else {
            None
        }
    }

    /// The atlas pixel of corner `coord` of the quad that shows `side` of
    /// material `material`; materials that were never created count as one
    /// pixel wide.
    pub fn corner(&self, material: u32, side: u8, coord: u8) -> (r: (usize, usize))
        requires
            self.wf(),
            self.spec_grid() <= self.spec_size(),
            material < self.spec_materials().len() ==> material + self.spec_materials()[material as int].spec_sub_side(
                side,
            ) <= usize::MAX,
            ({
                let (id, dim) = self.sub_slot(material, side);
                let slots = self.spec_size() as int / self.spec_grid() as int;
                (id / slots) * self.spec_grid() + self.spec_grid() <= usize::MAX
            }),
        ensures
            r.0 == self.spec_corner(material, side, coord).0,
            r.1 == self.spec_corner(material, side, coord).1,
    {
        let grid = self.grid;
        let slots = self.size / grid;
        let (id, dim) = if (material as usize) < self.materials.len() {
            let m = &self.materials[material as usize];
            (material as usize + m.sub_side(side), m.dimension())
        } else {
            (material as usize, 1usize)
        };
        proof {
            if (material as int) < self.spec_materials().len() {
                assert(1 <= self.spec_materials()[material as int].spec_dimension());
            }
            assert(slots >= 1) by (nonlinear_arith)
                requires
                    slots == self.spec_size() / grid, grid <= self.spec_size(), grid >= 1,
            ;
            assert((id % slots) * grid <= (slots - 1) * grid) by (nonlinear_arith)
                requires
                    0 <= id % slots < slots, grid >= 0,
            ;
            assert((slots - 1) * grid + grid <= self.spec_size()) by (nonlinear_arith)
                requires
                    slots == self.spec_size() / grid, grid >= 1,
            ;
        }
        let border = (grid - dim) / 2;
        let c = coord & 3;
        let cx: usize = if c == 1 || c == 2 { dim } else { 0 };
        let cy: usize = if c >= 2 { dim } else { 0 };
        let x = (id % slots) * grid + border + cx;
        let y = (id / slots) * grid + border + cy;
        (x, y)
    }

    /// Which material, and which of its texels, the atlas pixel `(x, y)`
    /// shows: the material of the slot the pixel lies in, if there is one.
    pub open spec fn spec_texel(&self, x: int, y: int) -> Option<(int, int, int)> {
        let g = self.spec_grid() as int;
        let index = (y / g) * (self.spec_size() as int / g) + x / g;
        if index < self.spec_materials().len() {
            let m = self.spec_materials()[index];
            Some((
                index,
                slot_texel(g, m.spec_dimension() as int, x % g, m.spec_tiling().spec_horizontal()),
                slot_texel(g, m.spec_dimension() as int, y % g, m.spec_tiling().spec_vertical()),
            ))
        } else {
            None
        }
    }

    /// The atlas pixel of corner `coord` of the quad that shows `side` of
    /// material `material`: corners run clockwise from the top left of the
    /// material's square, centred in its slot.
    pub open spec fn spec_corner(&self, material: u32, side: u8, coord: u8) -> (int, int) {
        let (id, dim) = self.sub_slot(material, side);
        let g = self.spec_grid() as int;
        let slots = self.spec_size() as int / g;
        let border = (g - dim) / 2;
        ((id % slots) * g + border + corner_x(coord) * dim, (id / slots) * g + border + corner_y(coord) * dim)
    }

    /// The slot `(index, dimension)` that `side` of material `material` is drawn from.
    pub open spec fn sub_slot(&self, material: u32, side: u8) -> (int, int) {
        if (material as int) < self.spec_materials().len() {
            let m = self.spec_materials()[material as int];
            (material + m.spec_sub_side(side), m.spec_dimension() as int)
        } else {
            (material as int, 1)
        }
    }
}

impl<M: VoxelMaterial, H> Default for VoxelMaterialStorage<M, H> {
    fn default() -> (r: Self)
        ensures
            r.wf(),
            r.spec_materials().len() == 0,
            r.spec_size() == 1,
            r.spec_grid() == 4,
            r.spec_dirty(),
            r.spec_handle().is_none(),
    {
        Self::new()
    }
}

/// Side of the atlas for `count` materials in slots of `grid` pixels: the
/// smallest of 32, 64, 128, ... whose square holds them all.
pub fn atlas_size(count: usize, grid: usize) -> (r: usize)
    requires
        count * grid * grid <= usize::MAX,
        atlas_size_for(count as int, grid as int) * atlas_size_for(count as int, grid as int) <= usize::MAX,
    ensures
        r == atlas_size_for(count as int, grid as int),
{
    proof {
        assert(count * grid <= usize::MAX) by (nonlinear_arith)
            requires
                count * grid * grid <= usize::MAX, count >= 0, grid >= 0,
        ;
    }
    let need = count * grid * grid;
    let mut size: usize = 32;
    proof {
        lemma_atlas_size_grows(count as int, grid as int, 32);
    }
    while need > size * size
        invariant
            size >= 32,
            need == count * grid * grid,
            atlas_size_from(count as int, grid as int, size as int) == atlas_size_for(count as int, grid as int),
            size <= atlas_size_for(count as int, grid as int),
            atlas_size_for(count as int, grid as int) * atlas_size_for(count as int, grid as int) <= usize::MAX,
        decreases atlas_size_for(count as int, grid as int) - size,
    {
        proof {
            lemma_atlas_size_grows(count as int, grid as int, 2 * size);
            assert(size * size <= atlas_size_for(count as int, grid as int) * atlas_size_for(count as int, grid as int))
                by (nonlinear_arith)
                requires
                    0 <= size <= atlas_size_for(count as int, grid as int),
            ;
            let r = atlas_size_for(count as int, grid as int);
            assert(r <= r * r) by (nonlinear_arith)
                requires
                    r >= 1,
            ;
        }
        size = size * 2;
    }
    size
}

proof fn lemma_atlas_size_grows(count: int, grid: int, size: int)
    requires
        size > 0,
    ensures
        atlas_size_from(count, grid, size) >= size,
    decreases (if size > 0 && count * grid * grid > size * size { count * grid * grid - size * size } else { 0 }),
{
    if count * grid * grid > size * size {
        assert(size * size < (2 * size) * (2 * size)) by (nonlinear_arith)
            requires
                size > 0,
        ;
        lemma_atlas_size_grows(count, grid, 2 * size);
    }
}

proof fn lemma_mips_bound(room: nat, n: nat)
    requires
        n >= 1,
        room < vstd::arithmetic::power2::pow2(n),
    ensures
        mips_from(room) <= n,
    decreases room,
{
    if room > 2 {
        vstd::arithmetic::power2::lemma_pow2_unfold(n);
        if n == 1 {
            vstd::arithmetic::power2::lemma2_to64();
        }
        lemma_mips_bound(room / 2, (n - 1) as nat);
    }
}

/// Number of mip levels of an atlas with slots of `grid` pixels.
pub fn mip_levels(grid: usize) -> (r: u8)
    ensures
        r == mips_from((grid / 2) as nat),
        r >= 1,
{
    let mut i: u8 = 1;
    let mut room = grid / 2;
    proof {
        vstd::arithmetic::power2::lemma2_to64();
        assert(usize::MAX < vstd::arithmetic::power2::pow2(64));
        lemma_mips_bound(room as nat, 64);
    }
    while room > 2
        invariant
            1 <= i,
            i + mips_from(room as nat) == mips_from((grid / 2) as nat) + 1,
            mips_from((grid / 2) as nat) <= 64,
        decreases room,
    {
        i = i + 1;
        room = room / 2;
    }
    i
}


/// The first identical material of a prefix that contains one is the first of
/// the whole sequence.
pub proof fn lemma_find_identical_prefix<M: VoxelMaterial>(materials: Seq<M>, m: M, k: int)
    requires
        0 <= k <= materials.len(),
        find_identical(materials.take(k), m) < k,
    ensures
        find_identical(materials, m) == find_identical(materials.take(k), m),
    decreases materials.len() - k,
{
    if k < materials.len() {
        assert(materials.take(k + 1).drop_last() =~= materials.take(k));
        lemma_find_identical_prefix(materials, m, k + 1);
    } else {
        assert(materials.take(k) =~= materials);
    }
}


/// The atlas holds a slot for every material, and no atlas of half its side
/// would: it is the smallest of 32, 64, 128, ... that does.
pub proof fn lemma_atlas_holds_all(count: nat, grid: nat)
    ensures
        atlas_size_for(count as int, grid as int) >= 32,
        count * grid * grid <= atlas_size_for(count as int, grid as int) * atlas_size_for(count as int, grid as int),
        atlas_size_for(count as int, grid as int) > 32 ==> (atlas_size_for(count as int, grid as int) / 2) * (
        atlas_size_for(count as int, grid as int) / 2) < count * grid * grid,
{
    lemma_atlas_from(count as int, grid as int, 32);
}

proof fn lemma_atlas_from(count: int, grid: int, size: int)
    requires
        size >= 32,
        count >= 0,
        grid >= 0,
        size == 32 || (size / 2) * (size / 2) < count * grid * grid,
    ensures
        atlas_size_from(count, grid, size) >= size,
        count * grid * grid <= atlas_size_from(count, grid, size) * atlas_size_from(count, grid, size),
        atlas_size_from(count, grid, size) == 32 || (atlas_size_from(count, grid, size) / 2) * (atlas_size_from(
            count,
            grid,
            size,
        ) / 2) < count * grid * grid,
    decreases (if size > 0 && count * grid * grid > size * size { count * grid * grid - size * size } else { 0 }),
{
    if count * grid * grid > size * size {
        assert(size * size < (2 * size) * (2 * size)) by (nonlinear_arith)
            requires
                size > 0,
        ;
        assert((2 * size) / 2 == size);
        lemma_atlas_from(count, grid, 2 * size);
    }
}

/// The first corner of the quad of a material drawn from its own slot lies on
/// the first texel of that material in the atlas.
pub proof fn lemma_corner_samples_first_texel<M: VoxelMaterial, H>(
    s: VoxelMaterialStorage<M, H>,
    material: u32,
    side: u8,
)
    requires
        s.wf(),
        s.spec_grid() <= s.spec_size(),
        material < s.spec_materials().len(),
        s.spec_materials()[material as int].spec_sub_side(side) == 0,
    ensures
        s.spec_texel(s.spec_corner(material, side, 0).0, s.spec_corner(material, side, 0).1) == Some(
            (material as int, 0int, 0int),
        ),
{
    let g = s.spec_grid() as int;
    let slots = s.spec_size() as int / g;
    let m = s.spec_materials()[material as int];
    let d = m.spec_dimension() as int;
    let b = (g - d) / 2;
    let id = material as int;
    assert(0 <= b < g);
    assert(slots >= 1) by (nonlinear_arith)
        requires
            slots == s.spec_size() as int / g, g <= s.spec_size(), g >= 1,
    ;
    vstd::arithmetic::div_mod::lemma_fundamental_div_mod(id, slots);
    vstd::arithmetic::div_mod::lemma_mod_pos_bound(id, slots);
    let (q, r) = (id / slots, id % slots);
    assert(q >= 0) by (nonlinear_arith)
        requires
            id >= 0, slots >= 1, q == id / slots,
    ;
    let x = r * g + b;
    let y = q * g + b;
    assert(x == g * r + b && y == g * q + b) by (nonlinear_arith)
        requires
            x == r * g + b, y == q * g + b,
    ;
    vstd::arithmetic::div_mod::lemma_fundamental_div_mod_converse(x, g, r, b);
    vstd::arithmetic::div_mod::lemma_fundamental_div_mod_converse(y, g, q, b);
    assert(q * slots + r == id) by (nonlinear_arith)
        requires
            id == slots * q + r,
    ;
    assert(0u8 & 3u8 == 0u8) by (bit_vector);
    assert(corner_x(0) == 0 && corner_y(0) == 0);
    assert(s.sub_slot(material, side) == (id, d));
    assert(s.spec_corner(material, side, 0) == (x, y));
    assert(1 <= s.spec_materials()[material as int].spec_dimension());
    vstd::arithmetic::div_mod::lemma_small_mod(0, d as nat);
    assert(slot_texel(g, d, b, true) == 0);
    assert(slot_texel(g, d, b, false) == 0);
    assert(x % g == b && y % g == b && x / g == r && y / g == q);
}

} // verus!

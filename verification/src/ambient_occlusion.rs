use vstd::prelude::*;
use std::collections::HashMap;

use crate::context::{ChildContext, Context, DetailContext, grid_width, in_grid, locate_in};
use crate::side::Side;
use crate::voxel::{
    ChildOf, Data, NestedVoxel, SimpleVoxel, Voxel, ao_width, coord_to_index, count, index_to_coord,
    last, lemma_coord_index_roundtrip, lemma_index_coord_roundtrip, lemma_width_facts,
    spec_coord_to_index, spec_count, spec_index_to_coord, spec_width,
};

verus! {

broadcast use vstd::std_specs::hash::group_hash_axioms;

/// Occlusion and skinning data of one vertex of the ambient occlusion grid.
#[derive(Clone, Copy)]
pub struct Vertex {
    occlusion: u16,
    skins: [(u8, u8); 4],
}

impl Vertex {
    /// Six 2-bit occlusion levels, one per face direction:
    /// -x in bits 10..12, +x in 8..10, -y in 6..8, +y in 4..6, -z in 2..4, +z in 0..2.
    pub closed spec fn spec_occlusion(&self) -> u16 {
        self.occlusion
    }

    /// Up to four `(skin, weight)` bindings.
    pub closed spec fn spec_skins(&self) -> [(u8, u8); 4] {
        self.skins
    }

    pub closed spec fn spec_new(occlusion: u16, skins: [(u8, u8); 4]) -> Vertex {
        Vertex { occlusion, skins }
    }

    pub proof fn lemma_new(occlusion: u16, skins: [(u8, u8); 4])
        ensures
            Vertex::spec_new(occlusion, skins).spec_occlusion() == occlusion,
            Vertex::spec_new(occlusion, skins).spec_skins() == skins,
    {
    }

    /// A vertex with the given packed occlusion levels and skin bindings.
    pub fn new(occlusion: u16, skins: [(u8, u8); 4]) -> (r: Vertex)
        ensures
            r == Vertex::spec_new(occlusion, skins),
    {
        Vertex { occlusion, skins }
    }

    pub fn occlusion(&self) -> (r: u16)
        ensures
            r == self.spec_occlusion(),
    {
        self.occlusion
    }

    pub fn skins(&self) -> (r: [(u8, u8); 4])
        ensures
            r == self.spec_skins(),
    {
        self.skins
    }
}

/// The occlusion level of one face corner from its four neighbouring cells
/// (1 = solid, 0 = open): 0 when all are open, 1 for one solid cell, 2 for
/// two solid cells that share an edge of the face, 3 otherwise.
pub open spec fn corner_level(a: u16, b: u16, c: u16, d: u16) -> u16 {
    if a == 0 && b == 0 && c == 0 && d == 0 {
        0
    } else if (a == 1 && b == 0 && c == 0 && d == 0) || (a == 0 && b == 1 && c == 0 && d == 0)
        || (a == 0 && b == 0 && c == 1 && d == 0) || (a == 0 && b == 0 && c == 0 && d == 1) {
        1
    } else if (a == 1 && b == 1 && c == 0 && d == 0) || (a == 0 && b == 0 && c == 1 && d == 1)
        || (a == 0 && b == 1 && c == 0 && d == 1) || (a == 1 && b == 0 && c == 1 && d == 0) {
        2
    } else {
        3
    }
}

/// The occlusion level of a corner counts its solid cells: none gives 0,
/// one gives 1, two that share an edge of the face (`a` and `b`, `c` and
/// `d`, `a` and `c`, or `b` and `d`) give 2, and two across the diagonal, three
/// or four give 3. So the level does not depend on which row or column of
/// the face is named first.
pub proof fn lemma_corner_level_counts(a: u16, b: u16, c: u16, d: u16)
    requires
        a <= 1,
        b <= 1,
        c <= 1,
        d <= 1,
    ensures
        a + b + c + d == 0 ==> corner_level(a, b, c, d) == 0,
        a + b + c + d == 1 ==> corner_level(a, b, c, d) == 1,
        a + b + c + d == 2 && (a + b == 2 || c + d == 2 || a + c == 2 || b + d == 2) ==> corner_level(a, b, c, d)
            == 2,
        a + b + c + d == 2 && (a + d == 2 || b + c == 2) ==> corner_level(a, b, c, d) == 3,
        a + b + c + d >= 3 ==> corner_level(a, b, c, d) == 3,
        corner_level(a, b, c, d) == corner_level(c, d, a, b),
        corner_level(a, b, c, d) == corner_level(b, a, d, c),
        corner_level(a, b, c, d) == corner_level(a, c, b, d),
{
}

/// The packed occlusion levels of a vertex from its eight surrounding cells.
/// Sample `k` is the cell at offset (bit 1, bit 2, bit 0) of `k` along (x, y, z),
/// counted from the cell below the vertex.
pub open spec fn vertex_code(s: [u16; 8]) -> u16 {
    (corner_level(s[0], s[1], s[4], s[5]) * 1024 + corner_level(s[2], s[3], s[6], s[7]) * 256
        + corner_level(s[0], s[1], s[2], s[3]) * 64 + corner_level(s[4], s[5], s[6], s[7]) * 16
        + corner_level(s[0], s[2], s[4], s[6]) * 4 + corner_level(s[1], s[3], s[5], s[7])) as u16
}

/// Each face of a vertex gets its own two bits of the packed code, and
/// its level comes from the four cells on that side of the vertex: sample `k`
/// lies at offset (bit 1, bit 2, bit 0) of `k` along (x, y, z), so the -x face
/// reads the cells with x offset 0, the +x face those with x offset 1, and so
/// on for y and z.
pub proof fn lemma_vertex_code_faces(s: [u16; 8])
    ensures
        (vertex_code(s) / 1024) % 4 == corner_level(s[0], s[1], s[4], s[5]),
        (vertex_code(s) / 256) % 4 == corner_level(s[2], s[3], s[6], s[7]),
        (vertex_code(s) / 64) % 4 == corner_level(s[0], s[1], s[2], s[3]),
        (vertex_code(s) / 16) % 4 == corner_level(s[4], s[5], s[6], s[7]),
        (vertex_code(s) / 4) % 4 == corner_level(s[0], s[2], s[4], s[6]),
        vertex_code(s) % 4 == corner_level(s[1], s[3], s[5], s[7]),
        vertex_code(s) < 4096,
{
    let l0 = corner_level(s[0], s[1], s[4], s[5]) as int;
    let l1 = corner_level(s[2], s[3], s[6], s[7]) as int;
    let l2 = corner_level(s[0], s[1], s[2], s[3]) as int;
    let l3 = corner_level(s[4], s[5], s[6], s[7]) as int;
    let l4 = corner_level(s[0], s[2], s[4], s[6]) as int;
    let l5 = corner_level(s[1], s[3], s[5], s[7]) as int;
    let c = l0 * 1024 + l1 * 256 + l2 * 64 + l3 * 16 + l4 * 4 + l5;
    assert(0 <= c < 4096);
    assert(vertex_code(s) == c);
    assert((c / 1024) % 4 == l0 && (c / 256) % 4 == l1 && (c / 64) % 4 == l2 && (c / 16) % 4 == l3 && (c / 4)
        % 4 == l4 && c % 4 == l5) by (nonlinear_arith)
        requires
            0 <= l0 < 4, 0 <= l1 < 4, 0 <= l2 < 4, 0 <= l3 < 4, 0 <= l4 < 4, 0 <= l5 < 4,
            c == l0 * 1024 + l1 * 256 + l2 * 64 + l3 * 16 + l4 * 4 + l5,
    ;
}

/// Occlusion level of a corner.
pub fn occlusion_level(s: [u16; 4]) -> (r: u16)
    ensures
        r == corner_level(s[0], s[1], s[2], s[3]),
        r < 4,
{
    let (a, b, c, d) = (s[0], s[1], s[2], s[3]);
    if a == 0 && b == 0 && c == 0 && d == 0 {
        0
    } else if (a == 1 && b == 0 && c == 0 && d == 0) || (a == 0 && b == 1 && c == 0 && d == 0)
        || (a == 0 && b == 0 && c == 1 && d == 0) || (a == 0 && b == 0 && c == 0 && d == 1) {
        1
    } else if (a == 1 && b == 1 && c == 0 && d == 0) || (a == 0 && b == 0 && c == 1 && d == 1)
        || (a == 0 && b == 1 && c == 0 && d == 1) || (a == 1 && b == 0 && c == 1 && d == 0) {
        2
    } else {
        3
    }
}

/// Packs the six face occlusion levels of a vertex.
pub fn process_occlusion(s: [u16; 8]) -> (r: u16)
    ensures
        r == vertex_code(s),
{
    let neg_x = occlusion_level([s[0], s[1], s[4], s[5]]);
    let pos_x = occlusion_level([s[2], s[3], s[6], s[7]]);
    let neg_y = occlusion_level([s[0], s[1], s[2], s[3]]);
    let pos_y = occlusion_level([s[4], s[5], s[6], s[7]]);
    let neg_z = occlusion_level([s[0], s[2], s[4], s[6]]);
    let pos_z = occlusion_level([s[1], s[3], s[5], s[7]]);
    let r = (neg_x << 10u16) | (pos_x << 8u16) | (neg_y << 6u16) | (pos_y << 4u16) | (neg_z << 2u16) | (pos_z);
    assert(r == neg_x * 1024 + pos_x * 256 + neg_y * 64 + pos_y * 16 + neg_z * 4 + pos_z) by (bit_vector)
        requires
            r == (neg_x << 10u16) | (pos_x << 8u16) | (neg_y << 6u16) | (pos_y << 4u16) | (neg_z << 2u16) | (pos_z),
            neg_x < 4, pos_x < 4, neg_y < 4, pos_y < 4, neg_z < 4, pos_z < 4,
    ;
    r
}

/// Skin bindings of a vertex without skinned neighbours: all weight on the first slot.
pub open spec fn unskinned() -> [(u8, u8); 4] {
    [(0u8, 255u8), (0u8, 0u8), (0u8, 0u8), (0u8, 0u8)]
}

/// Distributes the skin weight of a vertex over the skins of its eight
/// surrounding cells. The weights must add up to 255; of all inputs, only
/// eight absent skins give such a distribution, so the others are excluded.
pub fn blend_skins(samples: [Option<u8>; 8]) -> (r: [(u8, u8); 4])
    requires
        forall|k: int| 0 <= k < 8 ==> samples[k] is None,
    ensures
        r == unskinned(),
        r[0].1 + r[1].1 + r[2].1 + r[3].1 == 255,
{
    let mut skins: [(u8, u8); 4] = [(0u8, 0u8), (0u8, 0u8), (0u8, 0u8), (0u8, 0u8)];
    let mut k: usize = 0;
    while k < 8
        invariant
            0 <= k <= 8,
            forall|j: int| 0 <= j < 8 ==> samples[j] is None,
            forall|j: int| 0 <= j < k ==> samples[j] is None,
            skins == [(0u8, 0u8), (0u8, 0u8), (0u8, 0u8), (0u8, 0u8)],
        decreases 8 - k,
    {
        // count the sample in the slot of its skin, or in the first free slot
        if let Some(skin) = samples[k] {
            let mut i: usize = 0;
            while i < 4
                invariant_except_break
                    0 <= i <= 4,
                    forall|j: int| 0 <= j < 4 ==> skins[j].1 <= k,
                    k < 8,
                ensures
                    forall|j: int| 0 <= j < 4 ==> skins[j].1 <= k + 1,
                decreases 4 - i,
            {
                if skins[i].0 == skin {
                    skins[i].1 = skins[i].1 + 1;
                    break;
                }
                if skins[i].1 == 0 {
                    skins[i] = (skin, 1);
                    break;
                }
                i = i + 1;
            }
        }
        k = k + 1;
    }
    let mut total: u16 = skins[0].1 as u16 + skins[1].1 as u16 + skins[2].1 as u16 + skins[3].1 as u16;
    let mut left: u16 = 255;
    skins[0].1 = 255;
    let mut i: usize = 0;
    while i < 4
        invariant
            0 <= i <= 4,
            total == 0,
            skins == unskinned(),
        decreases 4 - i,
    {
        if total > 0 {
            let points = skins[1].1 as u16;
            skins[i].1 = ((points * left) / total) as u8;
            total = total - points;
            left = left - skins[1].1 as u16;
        }
        i = i + 1;
    }
    assert(skins[0].1 + skins[1].1 + skins[2].1 + skins[3].1 == 255);
    skins
}

/// Ambient occlusion data of a voxel, shared by the faces that are built for it.
pub enum SharedVertexData<'a> {
    /// Data of a detail voxel: one vertex per corner of its subvoxel grid
    /// (`width` vertices along each axis), and the data of its detail subvoxels.
    Big {
        occlusion: Vec<Vertex>,
        detail: HashMap<usize, SharedVertexData<'a>>,
        width: usize,
    },
    /// Data owned elsewhere.
    Borrowed { target: &'a SharedVertexData<'a> },
    /// The eight corners of a voxel without subvoxels.
    Small { occlusion: [Vertex; 8] },
}

/// Index of vertex `(x, y, z)` in a vertex grid of the given width.
pub open spec fn grid_index(width: int, x: int, y: int, z: int) -> int {
    x + y * width + z * width * width
}

/// The corners of cell `(x, y, z)` of a vertex grid, in the order
/// (0,0,0), (1,0,0), (0,1,0), (1,1,0), (0,0,1), (1,0,1), (0,1,1), (1,1,1).
pub open spec fn cell_corners(occlusion: Seq<Vertex>, width: int, x: int, y: int, z: int) -> [Vertex; 8] {
    let i = grid_index(width, x, y, z);
    let w = width;
    [
        occlusion[i],
        occlusion[i + 1],
        occlusion[i + w],
        occlusion[i + w + 1],
        occlusion[i + w * w],
        occlusion[i + w * w + 1],
        occlusion[i + w * w + w],
        occlusion[i + w * w + w + 1],
    ]
}

impl<'a> SharedVertexData<'a> {
    /// `sub(x, y, z)` can be answered without a panic: the data owns or borrows
    /// a vertex grid, and either a detail entry exists at the index of
    /// `(x, y, z)` or the corners of cell `(x, y, z)` lie in the grid.
    pub open spec fn sub_ok(&self, x: int, y: int, z: int) -> bool
        decreases self,
    {
        match self {
            SharedVertexData::Big { occlusion, detail, width } => {
                let i = grid_index(*width as int, x, y, z);
                detail@.contains_key(i as usize) && 0 <= i <= usize::MAX
                    || 0 <= i && i + *width * *width + *width + 1 < occlusion@.len()
            },
            SharedVertexData::Borrowed { target } => target.sub_ok(x, y, z),
            SharedVertexData::Small { .. } => false,
        }
    }

    /// The data of subvoxel `(x, y, z)`: the detail entry at its index when
    /// there is one, otherwise the corners of its cell.
    pub open spec fn spec_sub(&self, x: int, y: int, z: int) -> SharedVertexData<'a>
        decreases self,
    {
        match self {
            SharedVertexData::Big { occlusion, detail, width } => {
                let i = grid_index(*width as int, x, y, z);
                if 0 <= i <= usize::MAX && detail@.contains_key(i as usize) {
                    SharedVertexData::Borrowed { target: &detail@[i as usize] }
                } else {
                    SharedVertexData::Small {
                        occlusion: cell_corners(occlusion@, *width as int, x, y, z),
                    }
                }
            },
            SharedVertexData::Borrowed { target } => target.spec_sub(x, y, z),
            SharedVertexData::Small { .. } => arbitrary(),
        }
    }

    /// The data of the subvoxel at `(x, y, z)`.
    pub fn sub(&self, x: usize, y: usize, z: usize) -> (r: SharedVertexData<'_>)
        requires
            self.sub_ok(x as int, y as int, z as int),
        ensures
            r == self.spec_sub(x as int, y as int, z as int),
        decreases self,
    {
        match self {
            SharedVertexData::Big { occlusion, detail, width } => {
                let width: usize = *width;
                proof {
                    let w = width as int;
                    assert(occlusion@.len() == occlusion.len());
                    assert(grid_index(w, x as int, y as int, z as int) <= usize::MAX);
                    assert(z * w <= usize::MAX) by (nonlinear_arith)
                        requires
                            z >= 0, w >= 0, x >= 0, y >= 0,
                            x + y * w + z * w * w <= usize::MAX,
                    ;
                    assert(y * w <= x + y * w + z * w * w) by (nonlinear_arith)
                        requires
                            x >= 0, y >= 0, z >= 0, w >= 0,
                    ;
                    assert(z * w * w <= x + y * w + z * w * w) by (nonlinear_arith)
                        requires
                            x >= 0, y >= 0, z >= 0, w >= 0,
                    ;
                    assert(w * w <= x + w * w + w + 1 + y * w + z * w * w) by (nonlinear_arith)
                        requires
                            x >= 0, y >= 0, z >= 0, w >= 0,
                    ;
                }
                let index = x + y * width + z * width * width;
                match detail.get(&index) {
                    Some(target) => SharedVertexData::Borrowed { target },
                    None => {
                        let x: usize = 1;
                        let y: usize = width;
                        let z: usize = width * width;
                        SharedVertexData::Small {
                            occlusion: [
                                occlusion[index],
                                occlusion[index + x],
                                occlusion[index + y],
                                occlusion[index + y + x],
                                occlusion[index + z],
                                occlusion[index + z + x],
                                occlusion[index + z + y],
                                occlusion[index + z + y + x],
                            ],
                        }
                    },
                }
            },
            SharedVertexData::Borrowed { target } => target.sub(x, y, z),
            SharedVertexData::Small { .. } => vstd::pervasive::unreached(),
        }
    }

    /// The occlusion level and skins of the four corners of face `S` of a
    /// voxel without subvoxels, in the winding order of the face.
    pub fn quad_levels<S: Side>(&self) -> (r: [(u16, [(u8, u8); 4]); 4])
        requires
            self is Small,
        ensures
            forall|k: int|
                0 <= k < 4 ==> #[trigger] r[k] == corner_shade(
                    self->Small_occlusion[face_corners(S::SIDE)[k] as int],
                    face_shift(S::SIDE),
                ),
    {
        proof {
            S::lemma_direction();
        }
        match self {
            SharedVertexData::Small { occlusion } => {
                let o = occlusion;
                let c = face_corners_exec(S::SIDE);
                let shift = face_shift_exec(S::SIDE);
                [
                    shade(o[c[0]], shift),
                    shade(o[c[1]], shift),
                    shade(o[c[2]], shift),
                    shade(o[c[3]], shift),
                ]
            },
            _ => vstd::pervasive::unreached(),
        }
    }
}

/// Corners of the eight-vertex cell that make up face `side`, in winding order.
pub open spec fn face_corners(side: usize) -> [usize; 4] {
    if side == 0 {
        [6, 2, 0, 4]
    } else if side == 1 {
        [3, 7, 5, 1]
    } else if side == 2 {
        [5, 4, 0, 1]
    } else if side == 3 {
        [3, 2, 6, 7]
    } else if side == 4 {
        [2, 3, 1, 0]
    } else {
        [7, 6, 4, 5]
    }
}

/// Bit position of the occlusion level of face `side` in a vertex.
pub open spec fn face_shift(side: usize) -> u16 {
    (10 - 2 * side) as u16
}

/// The occlusion level at bit position `shift` and the skins of vertex `v`.
pub open spec fn corner_shade(v: Vertex, shift: u16) -> (u16, [(u8, u8); 4]) {
    ((v.spec_occlusion() >> shift) & 3u16, v.spec_skins())
}

fn face_corners_exec(side: usize) -> (r: [usize; 4])
    requires
        side < 6,
    ensures
        r == face_corners(side),
        forall|k: int| 0 <= k < 4 ==> r[k] < 8,
{
    let r: [usize; 4] = if side == 0 {
        [6, 2, 0, 4]
    } else if side == 1 {
        [3, 7, 5, 1]
    } else if side == 2 {
        [5, 4, 0, 1]
    } else if side == 3 {
        [3, 2, 6, 7]
    } else if side == 4 {
        [2, 3, 1, 0]
    } else {
        [7, 6, 4, 5]
    };
    assert(r[0] < 8 && r[1] < 8 && r[2] < 8 && r[3] < 8);
    r
}

fn face_shift_exec(side: usize) -> (r: u16)
    requires
        side < 6,
    ensures
        r == face_shift(side),
{
    (10 - 2 * side) as u16
}

fn shade(v: Vertex, shift: u16) -> (r: (u16, [(u8, u8); 4]))
    requires
        shift <= 10,
    ensures
        r == corner_shade(v, shift),
{
    ((v.occlusion >> shift) & 0x03, v.skins)
}

/// Solidity (1) of the cell at `(x, y, z)` relative to `root`: inside the
/// root it is the visibility of the subvoxel, outside it that of the
/// neighbours, as `visible` reports it.
pub open spec fn cell_sample<T: Voxel>(root: T, visible: spec_fn(int, int, int) -> bool, x: int, y: int, z: int) -> u16 {
    if in_grid(grid_width::<T>(), x, y, z) {
        if root.spec_child_visible(spec_coord_to_index(T::Data::SUBDIV, x, y, z)) {
            1
        } else {
            0
        }
    } else {
        if visible(x, y, z) {
            1
        } else {
            0
        }
    }
}

/// Skin of the cell at `(x, y, z)` relative to `root`, where `skin` gives
/// the skins outside of `root`.
pub open spec fn cell_skin<T: Voxel>(root: T, skin: spec_fn(int, int, int) -> Option<u8>, x: int, y: int, z: int) -> Option<u8> {
    if in_grid(grid_width::<T>(), x, y, z) {
        root.spec_child_skin(spec_coord_to_index(T::Data::SUBDIV, x, y, z))
    } else {
        skin(x, y, z)
    }
}

/// The eight cells around vertex `(x, y, z)`, in the order that `vertex_code` reads.
pub open spec fn vertex_samples<T: Voxel>(root: T, visible: spec_fn(int, int, int) -> bool, x: int, y: int, z: int) -> [u16; 8] {
    [
        cell_sample(root, visible, x - 1, y - 1, z - 1),
        cell_sample(root, visible, x - 1, y - 1, z),
        cell_sample(root, visible, x, y - 1, z - 1),
        cell_sample(root, visible, x, y - 1, z),
        cell_sample(root, visible, x - 1, y, z - 1),
        cell_sample(root, visible, x - 1, y, z),
        cell_sample(root, visible, x, y, z - 1),
        cell_sample(root, visible, x, y, z),
    ]
}

/// The vertex at `(x, y, z)` of the occlusion grid of `root`.
pub open spec fn ao_vertex<T: Voxel>(root: T, visible: spec_fn(int, int, int) -> bool, x: int, y: int, z: int) -> Vertex {
    Vertex::spec_new(vertex_code(vertex_samples(root, visible, x, y, z)), unskinned())
}

/// The corner vertex used for voxels without subvoxels.
pub open spec fn small_vertex() -> Vertex {
    Vertex::spec_new(0xfff, [(0u8, 64u8), (0u8, 64u8), (0u8, 64u8), (0u8, 64u8)])
}

/// The occlusion grid of a detail voxel can be sampled: every subvoxel is
/// present, and no cell in or around the voxel carries a skin.
pub open spec fn level_ok<T: Voxel>(root: T, skin: spec_fn(int, int, int) -> Option<u8>) -> bool {
    &&& forall|i: int| 0 <= i < spec_count(T::Data::SUBDIV) ==> (#[trigger] root.spec_get(i)) is Some
    &&& forall|x: int, y: int, z: int|
        -1 <= x <= grid_width::<T>() && -1 <= y <= grid_width::<T>() && -1 <= z <= grid_width::<T>()
            ==> (#[trigger] cell_skin(root, skin, x, y, z)) is None
}

/// `r` is the shared vertex data of `root` among neighbours whose visibility
/// `visible` reports, at its own level: eight fixed corners for a voxel without
/// subvoxels; for a detail voxel the full vertex grid (x fastest), and a detail
/// entry for exactly the detail subvoxels.
pub open spec fn shared_level<'a, T: Voxel>(root: T, visible: spec_fn(int, int, int) -> bool, r: SharedVertexData<'a>) -> bool {
    if root.spec_is_detail() {
        match r {
            SharedVertexData::Big { occlusion, detail, width } => {
                let w = width as int;
                &&& w == grid_width::<T>() + 1
                &&& occlusion@.len() == w * w * w
                &&& forall|j: int|
                    0 <= j < occlusion@.len() ==> #[trigger] occlusion@[j] == ao_vertex(
                        root,
                        visible,
                        j % w,
                        (j / w) % w,
                        j / (w * w),
                    )
                &&& forall|i: usize|
                    #[trigger] detail@.contains_key(i) <==> (i < spec_count(T::Data::SUBDIV)
                        && root.spec_child_is_detail(i as int))
            },
            _ => false,
        }
    } else {
        r == (SharedVertexData::Small {
            occlusion: [small_vertex(), small_vertex(), small_vertex(), small_vertex(), small_vertex(), small_vertex(), small_vertex(), small_vertex()],
        })
    }
}

proof fn lemma_ao_grid_size(s: usize)
    requires
        crate::voxel::valid_subdiv(s),
    ensures
        (spec_width(s) + 1) * (spec_width(s) + 1) * (spec_width(s) + 1) <= usize::MAX,
        (spec_width(s) + 1) * (spec_width(s) + 1) <= usize::MAX,
{
    lemma_width_facts(s);
    let w = spec_width(s) as int;
    vstd::arithmetic::power2::lemma_pow2_adds(s as nat, s as nat);
    vstd::arithmetic::power2::lemma_pow2_adds(2 * s as nat, s as nat);
    vstd::arithmetic::power2::lemma2_to64();
    assert(usize::BITS == 32 || usize::BITS == 64);
    if s >= 2 {
        vstd::arithmetic::power2::lemma_pow2_strictly_increases(1, s as nat);
        vstd::arithmetic::power2::lemma_pow2_adds(3 * s as nat, 1);
        vstd::bits::lemma_usize_pow2_no_overflow(3 * s as nat);
        if 3 * s + 1 < usize::BITS {
            vstd::bits::lemma_usize_pow2_no_overflow(3 * s as nat + 1);
        } else {
            assert(vstd::arithmetic::power2::pow2((usize::BITS) as nat) == usize::MAX + 1) by {
                vstd::arithmetic::power2::lemma2_to64_rest();
            }
        }
        assert(w >= 4);
        assert((w + 1) * (w + 1) * (w + 1) < 2 * (w * w * w)) by (nonlinear_arith)
            requires
                w >= 4,
        ;
        assert((w + 1) * (w + 1) <= (w + 1) * (w + 1) * (w + 1)) by (nonlinear_arith)
            requires
                w >= 4,
        ;
    } else {
        assert(w == 1 || w == 2);
        assert((w + 1) * (w + 1) * (w + 1) <= 27 && (w + 1) * (w + 1) <= 9) by (nonlinear_arith)
            requires
                1 <= w <= 2,
        ;
    }
}

/// Solidity of the cell at `(x, y, z)` relative to `root`.
fn sample_occlusion<T: Voxel, C: Context<T>>(root: &T, neighbours: &C, x: isize, y: isize, z: isize) -> (r: u16)
    requires
        forall|i: int| 0 <= i < spec_count(T::Data::SUBDIV) ==> (#[trigger] root.spec_get(i)) is Some,
    ensures
        r == cell_sample(*root, context_visible::<T, C>(*neighbours), x as int, y as int, z as int),
{
    proof {
        T::Data::lemma_subdiv_valid();
        lemma_width_facts(T::Data::SUBDIV);
    }
    let l = last(T::Data::SUBDIV) as isize;
    if x < 0 || x > l || y < 0 || y > l || z < 0 || z > l {
        if neighbours.visible(x, y, z) {
            1
        } else {
            0
        }
    } else {
        proof {
            lemma_coord_index_roundtrip(T::Data::SUBDIV, x as int, y as int, z as int);
        }
        let index = coord_to_index(T::Data::SUBDIV, x as usize, y as usize, z as usize);
        match root.get(index) {
            Some(_) => if root.child_visible(index) {
                1
            } else {
                0
            },
            None => vstd::pervasive::unreached(),
        }
    }
}

/// Skin of the cell at `(x, y, z)` relative to `root`.
fn sample_skin<T: Voxel, C: Context<T>>(root: &T, neighbours: &C, x: isize, y: isize, z: isize) -> (r: Option<u8>)
    requires
        forall|i: int| 0 <= i < spec_count(T::Data::SUBDIV) ==> (#[trigger] root.spec_get(i)) is Some,
    ensures
        r == cell_skin(*root, context_skin::<T, C>(*neighbours), x as int, y as int, z as int),
{
    proof {
        T::Data::lemma_subdiv_valid();
        lemma_width_facts(T::Data::SUBDIV);
    }
    let l = last(T::Data::SUBDIV) as isize;
    if x < 0 || x > l || y < 0 || y > l || z < 0 || z > l {
        neighbours.skin(x, y, z)
    } else {
        proof {
            lemma_coord_index_roundtrip(T::Data::SUBDIV, x as int, y as int, z as int);
        }
        let index = coord_to_index(T::Data::SUBDIV, x as usize, y as usize, z as usize);
        match root.get(index) {
            Some(_) => root.child_skin(index),
            None => vstd::pervasive::unreached(),
        }
    }
}

/// The occlusion grid of a detail voxel: one vertex per corner of its
/// subvoxel grid, x fastest.
pub fn occlusion_grid<T: Voxel, C: Context<T>>(root: &T, neighbours: &C) -> (r: Vec<Vertex>)
    requires
        level_ok(*root, context_skin::<T, C>(*neighbours)),
    ensures
        ({
            let w = grid_width::<T>() + 1;
            &&& r@.len() == w * w * w
            &&& forall|j: int|
                0 <= j < r@.len() ==> #[trigger] r@[j] == ao_vertex(
                    *root,
                    context_visible::<T, C>(*neighbours),
                    j % w,
                    (j / w) % w,
                    j / (w * w),
                )
        }),
{
    proof {
        T::Data::lemma_subdiv_valid();
        lemma_width_facts(T::Data::SUBDIV);
        lemma_ao_grid_size(T::Data::SUBDIV);
    }
    let w = ao_width(T::Data::SUBDIV);
    proof {
        let wd = spec_width(T::Data::SUBDIV) as int;
        assert(wd + 1 < isize::MAX) by (nonlinear_arith)
            requires
                wd >= 1, wd * wd <= isize::MAX,
        ;
    }
    let n = w * w * w;
    let mut occlusion: Vec<Vertex> = Vec::new();
    let mut j: usize = 0;
    while j < n
        invariant
            w == grid_width::<T>() + 1,
            1 <= w < isize::MAX,
            n == w * w * w,
            w * w <= usize::MAX,
            0 <= j <= n,
            level_ok(*root, context_skin::<T, C>(*neighbours)),
            occlusion@.len() == j,
            forall|k: int|
                0 <= k < j ==> #[trigger] occlusion@[k] == ao_vertex(
                    *root,
                    context_visible::<T, C>(*neighbours),
                    k % (w as int),
                    (k / (w as int)) % (w as int),
                    k / ((w * w) as int),
                ),
        decreases n - j,
    {
        let ww = w * w;
        proof {
            assert(ww > 0) by (nonlinear_arith)
                requires
                    ww == w * w, w >= 1,
            ;
        }
        let x = (j % w) as isize;
        let y = ((j / w) % w) as isize;
        let z = (j / ww) as isize;
        proof {
            let wi = w as int;
            assert(j / ww < w) by {
                vstd::arithmetic::div_mod::lemma_fundamental_div_mod(j as int, wi * wi);
                vstd::arithmetic::div_mod::lemma_mod_pos_bound(j as int, wi * wi);
                let q = (j as int) / (wi * wi);
                assert(q < wi) by (nonlinear_arith)
                    requires
                        j as int == (wi * wi) * q + (j as int) % (wi * wi),
                        (j as int) % (wi * wi) >= 0,
                        j < wi * wi * wi,
                        wi > 0,
                ;
            }
            vstd::arithmetic::div_mod::lemma_mod_pos_bound(j as int, wi);
            vstd::arithmetic::div_mod::lemma_mod_pos_bound((j as int) / wi, wi);
            vstd::arithmetic::div_mod::lemma_div_pos_is_pos(j as int, wi * wi);
        }
        let occ = process_occlusion([
            sample_occlusion(root, neighbours, x - 1, y - 1, z - 1),
            sample_occlusion(root, neighbours, x - 1, y - 1, z),
            sample_occlusion(root, neighbours, x, y - 1, z - 1),
            sample_occlusion(root, neighbours, x, y - 1, z),
            sample_occlusion(root, neighbours, x - 1, y, z - 1),
            sample_occlusion(root, neighbours, x - 1, y, z),
            sample_occlusion(root, neighbours, x, y, z - 1),
            sample_occlusion(root, neighbours, x, y, z),
        ]);
        let skin_samples = [
            sample_skin(root, neighbours, x - 1, y - 1, z - 1),
            sample_skin(root, neighbours, x - 1, y - 1, z),
            sample_skin(root, neighbours, x, y - 1, z - 1),
            sample_skin(root, neighbours, x, y - 1, z),
            sample_skin(root, neighbours, x - 1, y, z - 1),
            sample_skin(root, neighbours, x - 1, y, z),
            sample_skin(root, neighbours, x, y, z - 1),
            sample_skin(root, neighbours, x, y, z),
        ];
        proof {
            let (xi, yi, zi) = (x as int, y as int, z as int);
            assert(cell_skin(*root, context_skin::<T, C>(*neighbours), xi - 1, yi - 1, zi - 1) is None);
            assert(cell_skin(*root, context_skin::<T, C>(*neighbours), xi - 1, yi - 1, zi) is None);
            assert(cell_skin(*root, context_skin::<T, C>(*neighbours), xi, yi - 1, zi - 1) is None);
            assert(cell_skin(*root, context_skin::<T, C>(*neighbours), xi, yi - 1, zi) is None);
            assert(cell_skin(*root, context_skin::<T, C>(*neighbours), xi - 1, yi, zi - 1) is None);
            assert(cell_skin(*root, context_skin::<T, C>(*neighbours), xi - 1, yi, zi) is None);
            assert(cell_skin(*root, context_skin::<T, C>(*neighbours), xi, yi, zi - 1) is None);
            assert(cell_skin(*root, context_skin::<T, C>(*neighbours), xi, yi, zi) is None);
        }
        let skins = blend_skins(skin_samples);
        occlusion.push(Vertex { occlusion: occ, skins });
        proof {
            assert(occlusion@[j as int] == ao_vertex(*root, context_visible::<T, C>(*neighbours), x as int, y as int, z as int));
        }
        j = j + 1;
    }
    occlusion
}

/// Coordinate of subvoxel `index` as a context coordinate.
pub open spec fn child_coord(subdiv: usize, index: int) -> [isize; 3] {
    let c = spec_index_to_coord(subdiv, index);
    [c.0 as isize, c.1 as isize, c.2 as isize]
}

/// The visibility that a context reports.
pub open spec fn context_visible<T: Voxel, C: Context<T>>(ctx: C) -> spec_fn(int, int, int) -> bool {
    |x: int, y: int, z: int| ctx.spec_visible(x, y, z)
}

/// The skins that a context reports.
pub open spec fn context_skin<T: Voxel, C: Context<T>>(ctx: C) -> spec_fn(int, int, int) -> Option<u8> {
    |x: int, y: int, z: int| ctx.spec_skin(x, y, z)
}

/// The subvoxels that a context hands out.
pub open spec fn context_child<T: Voxel, C: Context<T>>(ctx: C) -> spec_fn(int, int, int) -> Option<ChildOf<T>> {
    |x: int, y: int, z: int| ctx.spec_child(x, y, z)
}

/// The visibility reported by the context of a subvoxel at `coord`, given the
/// subvoxels that its parent context hands out.
pub open spec fn detail_visible<P: Voxel>(
    parent_child: spec_fn(int, int, int) -> Option<ChildOf<P>>,
    coord: [isize; 3],
    voxel: Option<ChildOf<P>>,
) -> spec_fn(int, int, int) -> bool where ChildOf<P>: Voxel {
    |x: int, y: int, z: int|
        match locate_in::<P>(parent_child, coord, voxel, x, y, z) {
            Some((v, i)) => v.spec_child_visible(i),
            None => false,
        }
}

/// The skins reported by the context of a subvoxel at `coord`, given the
/// subvoxels that its parent context hands out.
pub open spec fn detail_skin<P: Voxel>(
    parent_child: spec_fn(int, int, int) -> Option<ChildOf<P>>,
    coord: [isize; 3],
    voxel: Option<ChildOf<P>>,
) -> spec_fn(int, int, int) -> Option<u8> where ChildOf<P>: Voxel {
    |x: int, y: int, z: int|
        match locate_in::<P>(parent_child, coord, voxel, x, y, z) {
            Some((v, i)) => v.spec_child_skin(i),
            None => None,
        }
}

/// The subvoxels handed out by the context of a subvoxel at `coord`, given
/// the subvoxels that its parent context hands out.
pub open spec fn detail_child<P: Voxel>(
    parent_child: spec_fn(int, int, int) -> Option<ChildOf<P>>,
    coord: [isize; 3],
    voxel: Option<ChildOf<P>>,
) -> spec_fn(int, int, int) -> Option<ChildOf<ChildOf<P>>> where ChildOf<P>: Voxel {
    |x: int, y: int, z: int|
        match locate_in::<P>(parent_child, coord, voxel, x, y, z) {
            Some((v, i)) => v.spec_get(i),
            None => None,
        }
}

/// The context of a subvoxel reports what `detail_visible`, `detail_skin`
/// and `detail_child` derive from its parent.
pub proof fn lemma_detail_context<'b, P: Voxel, Q: Context<P>>(d: DetailContext<'b, P, Q>)
    where ChildOf<P>: Voxel
    ensures
        context_visible::<ChildOf<P>, DetailContext<'b, P, Q>>(d) == detail_visible::<P>(
            context_child::<P, Q>(d.spec_parent()),
            d.spec_coord(),
            d.spec_voxel(),
        ),
        context_skin::<ChildOf<P>, DetailContext<'b, P, Q>>(d) == detail_skin::<P>(
            context_child::<P, Q>(d.spec_parent()),
            d.spec_coord(),
            d.spec_voxel(),
        ),
        context_child::<ChildOf<P>, DetailContext<'b, P, Q>>(d) == detail_child::<P>(
            context_child::<P, Q>(d.spec_parent()),
            d.spec_coord(),
            d.spec_voxel(),
        ),
{
    let pc = context_child::<P, Q>(d.spec_parent());
    assert(pc =~= |cx: int, cy: int, cz: int| d.spec_parent().spec_child(cx, cy, cz));
    assert(context_visible::<ChildOf<P>, DetailContext<'b, P, Q>>(d) =~= detail_visible::<P>(
        pc,
        d.spec_coord(),
        d.spec_voxel(),
    ));
    assert(context_skin::<ChildOf<P>, DetailContext<'b, P, Q>>(d) =~= detail_skin::<P>(
        pc,
        d.spec_coord(),
        d.spec_voxel(),
    ));
    assert(context_child::<ChildOf<P>, DetailContext<'b, P, Q>>(d) =~= detail_child::<P>(
        pc,
        d.spec_coord(),
        d.spec_voxel(),
    ));
}

/// Voxels whose shared vertex data can be built.
pub trait Occlusion: Voxel {
    /// Building the data of this voxel in a context that reports `skin` and
    /// hands out the subvoxels `child`, and of its detail subvoxels each in
    /// the context that `child` gives for it, samples no missing subvoxel and
    /// no skin.
    spec fn spec_shared_ok(
        &self,
        skin: spec_fn(int, int, int) -> Option<u8>,
        child: spec_fn(int, int, int) -> Option<ChildOf<Self>>,
    ) -> bool;

    /// `r` is the shared vertex data of this voxel among neighbours whose
    /// visibility `visible` reports and whose subvoxels `child` hands out:
    /// `shared_level` holds of it, and each of its detail entries is, in the
    /// same sense, the data of that detail subvoxel in the context that
    /// `child` gives for it.
    spec fn spec_shared_data<'a>(
        &self,
        visible: spec_fn(int, int, int) -> bool,
        child: spec_fn(int, int, int) -> Option<ChildOf<Self>>,
        r: SharedVertexData<'a>,
    ) -> bool;

    /// Builds the shared vertex data of this voxel.
    fn build_shared<'a, C: Context<Self>>(&self, neighbours: &C) -> (r: SharedVertexData<'a>)
        requires
            self.spec_shared_ok(context_skin::<Self, C>(*neighbours), context_child::<Self, C>(*neighbours)),
        ensures
            self.spec_shared_data(context_visible::<Self, C>(*neighbours), context_child::<Self, C>(*neighbours), r),
    ;
}

fn small<'a>() -> (r: SharedVertexData<'a>)
    ensures
        r == (SharedVertexData::Small {
            occlusion: [small_vertex(), small_vertex(), small_vertex(), small_vertex(), small_vertex(), small_vertex(), small_vertex(), small_vertex()],
        }),
{
    let v = Vertex { occlusion: 0xfff, skins: [(0, 64), (0, 64), (0, 64), (0, 64)] };
    SharedVertexData::Small { occlusion: [v, v, v, v, v, v, v, v] }
}

impl Occlusion for SimpleVoxel {
    open spec fn spec_shared_ok(
        &self,
        skin: spec_fn(int, int, int) -> Option<u8>,
        child: spec_fn(int, int, int) -> Option<SimpleVoxel>,
    ) -> bool {
        true
    }

    open spec fn spec_shared_data<'a>(
        &self,
        visible: spec_fn(int, int, int) -> bool,
        child: spec_fn(int, int, int) -> Option<SimpleVoxel>,
        r: SharedVertexData<'a>,
    ) -> bool {
        shared_level(*self, visible, r)
    }

    fn build_shared<'a, C: Context<Self>>(&self, neighbours: &C) -> (r: SharedVertexData<'a>) {
        small()
    }
}

impl<T: Data> Occlusion for NestedVoxel<T> where T::Child: Occlusion {
    open spec fn spec_shared_ok(
        &self,
        skin: spec_fn(int, int, int) -> Option<u8>,
        child: spec_fn(int, int, int) -> Option<T::Child>,
    ) -> bool {
        self.spec_is_detail() ==> {
            &&& level_ok(*self, skin)
            &&& forall|i: int|
                0 <= i < spec_count(T::SUBDIV) && #[trigger] self.spec_child_is_detail(i)
                    ==> self.spec_detail()[i].spec_shared_ok(
                    detail_skin::<Self>(
                        child,
                        child_coord(T::SUBDIV, i),
                        child(
                            child_coord(T::SUBDIV, i)[0] as int,
                            child_coord(T::SUBDIV, i)[1] as int,
                            child_coord(T::SUBDIV, i)[2] as int,
                        ),
                    ),
                    detail_child::<Self>(
                        child,
                        child_coord(T::SUBDIV, i),
                        child(
                            child_coord(T::SUBDIV, i)[0] as int,
                            child_coord(T::SUBDIV, i)[1] as int,
                            child_coord(T::SUBDIV, i)[2] as int,
                        ),
                    ),
                )
        }
    }

    open spec fn spec_shared_data<'a>(
        &self,
        visible: spec_fn(int, int, int) -> bool,
        child: spec_fn(int, int, int) -> Option<T::Child>,
        r: SharedVertexData<'a>,
    ) -> bool {
        &&& shared_level(*self, visible, r)
        &&& r matches SharedVertexData::Big { detail, .. } ==> forall|i: usize|
            #[trigger] detail@.contains_key(i) ==> self.spec_detail()[i as int].spec_shared_data(
                detail_visible::<Self>(
                    child,
                    child_coord(T::SUBDIV, i as int),
                    child(
                        child_coord(T::SUBDIV, i as int)[0] as int,
                        child_coord(T::SUBDIV, i as int)[1] as int,
                        child_coord(T::SUBDIV, i as int)[2] as int,
                    ),
                ),
                detail_child::<Self>(
                    child,
                    child_coord(T::SUBDIV, i as int),
                    child(
                        child_coord(T::SUBDIV, i as int)[0] as int,
                        child_coord(T::SUBDIV, i as int)[1] as int,
                        child_coord(T::SUBDIV, i as int)[2] as int,
                    ),
                ),
                detail@[i],
            )
    }

    fn build_shared<'a, C: Context<Self>>(&self, neighbours: &C) -> (r: SharedVertexData<'a>) {
        if self.is_detail() {
            proof {
                T::lemma_subdiv_valid();
                lemma_width_facts(T::SUBDIV);
                lemma_ao_grid_size(T::SUBDIV);
            }
            let occlusion = occlusion_grid(self, neighbours);
            let mut detail: HashMap<usize, SharedVertexData<'a>> = HashMap::new();
            let n = count(T::SUBDIV);
            let mut index: usize = 0;
            while index < n
                invariant
                    n == spec_count(T::SUBDIV),
                    0 <= index <= n,
                    crate::voxel::valid_subdiv(T::SUBDIV),
                    self.spec_is_detail(),
                    self.spec_shared_ok(context_skin::<Self, C>(*neighbours), context_child::<Self, C>(*neighbours)),
                    forall|i: usize|
                        #[trigger] detail@.contains_key(i) <==> (i < index
                            && self.spec_child_is_detail(i as int)),
                    forall|i: usize|
                        #[trigger] detail@.contains_key(i) ==> self.spec_detail()[i as int].spec_shared_data(
                            detail_visible::<Self>(
                                context_child::<Self, C>(*neighbours),
                                child_coord(T::SUBDIV, i as int),
                                context_child::<Self, C>(*neighbours)(
                                    child_coord(T::SUBDIV, i as int)[0] as int,
                                    child_coord(T::SUBDIV, i as int)[1] as int,
                                    child_coord(T::SUBDIV, i as int)[2] as int,
                                ),
                            ),
                            detail_child::<Self>(
                                context_child::<Self, C>(*neighbours),
                                child_coord(T::SUBDIV, i as int),
                                context_child::<Self, C>(*neighbours)(
                                    child_coord(T::SUBDIV, i as int)[0] as int,
                                    child_coord(T::SUBDIV, i as int)[1] as int,
                                    child_coord(T::SUBDIV, i as int)[2] as int,
                                ),
                            ),
                            detail@[i],
                        ),
                decreases n - index,
            {
                if let Some(voxel) = self.get(index) {
                    if voxel.is_detail() {
                        let (x, y, z) = index_to_coord(T::SUBDIV, index);
                        proof {
                            lemma_index_coord_roundtrip(T::SUBDIV, index as int);
                            lemma_width_facts(T::SUBDIV);
                        }
                        let context = neighbours.child(x as isize, y as isize, z as isize);
                        proof {
                            assert(context.spec_coord() == child_coord(T::SUBDIV, index as int));
                            assert(self.spec_child_is_detail(index as int));
                            assert(*voxel == self.spec_detail()[index as int]);
                            lemma_detail_context(context);
                        }
                        let shared = voxel.build_shared(&context);
                        detail.insert(index, shared);
                    }
                }
                index = index + 1;
            }
            SharedVertexData::Big { occlusion, detail, width: ao_width(T::SUBDIV) }
        } else {
            small()
        }
    }
}

impl<'a> SharedVertexData<'a> {
    /// Builds the shared vertex data of `root` and of its detail subvoxels.
    pub fn build<T: Occlusion, C: Context<T>>(root: &T, neighbours: &C) -> (r: Self)
        requires
            root.spec_shared_ok(context_skin::<T, C>(*neighbours), context_child::<T, C>(*neighbours)),
        ensures
            root.spec_shared_data(context_visible::<T, C>(*neighbours), context_child::<T, C>(*neighbours), r),
    {
        root.build_shared(neighbours)
    }
}

} // verus!

use vstd::prelude::*;

use crate::voxel::{Data, spec_width, spec_coord_to_index, lemma_width_facts, width, last};

verus! {

/// A face direction: exactly one axis moves, by one step.
pub open spec fn unit_direction(dx: isize, dy: isize, dz: isize) -> bool {
    ||| (dx == 1 || dx == -1) && dy == 0 && dz == 0
    ||| dx == 0 && (dy == 1 || dy == -1) && dz == 0
    ||| dx == 0 && dy == 0 && (dz == 1 || dz == -1)
}

/// Moving `c` by `d` along one axis stays inside `[0, w)`; axes that do not
/// move are not checked.
pub open spec fn step_in_range(w: int, c: int, d: int) -> bool {
    if d > 0 {
        c + d < w
    } else if d < 0 {
        c + d >= 0
    } else {
        true
    }
}

/// Dot product of two integer 3-vectors.
pub open spec fn dot(a: [i8; 3], b: [i8; 3]) -> int {
    a[0] * b[0] + a[1] * b[1] + a[2] * b[2]
}

/// The columns of `m` are pairwise orthogonal unit vectors.
pub open spec fn orthonormal(m: [[i8; 3]; 3]) -> bool {
    &&& dot(m[0], m[0]) == 1
    &&& dot(m[1], m[1]) == 1
    &&& dot(m[2], m[2]) == 1
    &&& dot(m[0], m[1]) == 0
    &&& dot(m[0], m[2]) == 0
    &&& dot(m[1], m[2]) == 0
}

/// One of the six faces of a voxel.
pub trait Side {
    /// Number of the face, used to pick ambient occlusion corners.
    const SIDE: usize;
    /// Direction of the face normal along x.
    const DX: isize;
    /// Direction of the face normal along y.
    const DY: isize;
    /// Direction of the face normal along z.
    const DZ: isize;

    /// The face normal is a unit step along one axis, and the face number is below 6.
    proof fn lemma_direction()
        ensures
            unit_direction(Self::DX, Self::DY, Self::DZ),
            Self::SIDE < 6,
    ;

    /// Index distance to the neighbouring subvoxel in the direction of this face.
    fn offset<T: Data>() -> (r: isize)
        ensures
            r == Self::DX + Self::DY * spec_width(T::SUBDIV) + Self::DZ * spec_width(T::SUBDIV)
                * spec_width(T::SUBDIV),
    ;

    /// Whether the neighbour of `(x, y, z)` in the direction of this face lies
    /// inside the same voxel.
    fn accept<T: Data>(x: usize, y: usize, z: usize) -> (r: bool)
        ensures
            r == (step_in_range(spec_width(T::SUBDIV) as int, x as int, Self::DX as int)
                && step_in_range(spec_width(T::SUBDIV) as int, y as int, Self::DY as int)
                && step_in_range(spec_width(T::SUBDIV) as int, z as int, Self::DZ as int)),
    ;

    /// Rotation that maps the +z face onto this face, as three columns.
    fn orientation() -> (r: [[i8; 3]; 3])
        ensures
            r[2][0] == Self::DX,
            r[2][1] == Self::DY,
            r[2][2] == Self::DZ,
            orthonormal(r),
    ;
}

/// The face towards +x.
pub struct Left;

impl Side for Left {
    const SIDE: usize = 1;
    const DX: isize = 1;
    const DY: isize = 0;
    const DZ: isize = 0;

    proof fn lemma_direction() {
    }

    fn offset<T: Data>() -> (r: isize) {
        1
    }

    fn accept<T: Data>(x: usize, y: usize, z: usize) -> (r: bool) {
        proof {
            T::lemma_subdiv_valid();
        }
        x < last(T::SUBDIV)
    }

    fn orientation() -> (r: [[i8; 3]; 3]) {
        let r: [[i8; 3]; 3] = [[0, 0, 1], [0, 1, 0], [1, 0, 0]];
        assert(r[0][0] == 0 && r[0][1] == 0 && r[0][2] == 1 && r[1][0] == 0 && r[1][1] == 1 && r[1][2] == 0 && r[2][0] == 1 && r[2][1] == 0 && r[2][2] == 0);
        assert(orthonormal(r));
        r
    }
}

/// The face towards -x.
pub struct Right;

impl Side for Right {
    const SIDE: usize = 0;
    const DX: isize = -1;
    const DY: isize = 0;
    const DZ: isize = 0;

    proof fn lemma_direction() {
    }

    fn offset<T: Data>() -> (r: isize) {
        -1
    }

    fn accept<T: Data>(x: usize, y: usize, z: usize) -> (r: bool) {
        proof {
            T::lemma_subdiv_valid();
            lemma_width_facts(T::SUBDIV);
        }
        x > 0
    }

    fn orientation() -> (r: [[i8; 3]; 3]) {
        let r: [[i8; 3]; 3] = [[0, 0, -1], [0, 1, 0], [-1, 0, 0]];
        assert(r[0][0] == 0 && r[0][1] == 0 && r[0][2] == -1 && r[1][0] == 0 && r[1][1] == 1 && r[1][2] == 0 && r[2][0] == -1 && r[2][1] == 0 && r[2][2] == 0);
        assert(orthonormal(r));
        r
    }
}

/// The face towards +y.
pub struct Below;

impl Side for Below {
    const SIDE: usize = 3;
    const DX: isize = 0;
    const DY: isize = 1;
    const DZ: isize = 0;

    proof fn lemma_direction() {
    }

    fn offset<T: Data>() -> (r: isize) {
        proof {
            T::lemma_subdiv_valid();
            lemma_width_facts(T::SUBDIV);
        }
        width(T::SUBDIV) as isize
    }

    fn accept<T: Data>(x: usize, y: usize, z: usize) -> (r: bool) {
        proof {
            T::lemma_subdiv_valid();
        }
        y < last(T::SUBDIV)
    }

    fn orientation() -> (r: [[i8; 3]; 3]) {
        let r: [[i8; 3]; 3] = [[-1, 0, 0], [0, 0, -1], [0, 1, 0]];
        assert(r[0][0] == -1 && r[0][1] == 0 && r[0][2] == 0 && r[1][0] == 0 && r[1][1] == 0 && r[1][2] == -1 && r[2][0] == 0 && r[2][1] == 1 && r[2][2] == 0);
        assert(orthonormal(r));
        r
    }
}

/// The face towards -y.
pub struct Above;

impl Side for Above {
    const SIDE: usize = 2;
    const DX: isize = 0;
    const DY: isize = -1;
    const DZ: isize = 0;

    proof fn lemma_direction() {
    }

    fn offset<T: Data>() -> (r: isize) {
        proof {
            T::lemma_subdiv_valid();
            lemma_width_facts(T::SUBDIV);
        }
        -(width(T::SUBDIV) as isize)
    }

    fn accept<T: Data>(x: usize, y: usize, z: usize) -> (r: bool) {
        proof {
            T::lemma_subdiv_valid();
            lemma_width_facts(T::SUBDIV);
        }
        y > 0
    }

    fn orientation() -> (r: [[i8; 3]; 3]) {
        let r: [[i8; 3]; 3] = [[-1, 0, 0], [0, 0, 1], [0, -1, 0]];
        assert(r[0][0] == -1 && r[0][1] == 0 && r[0][2] == 0 && r[1][0] == 0 && r[1][1] == 0 && r[1][2] == 1 && r[2][0] == 0 && r[2][1] == -1 && r[2][2] == 0);
        assert(orthonormal(r));
        r
    }
}

/// The face towards +z.
pub struct Back;

impl Side for Back {
    const SIDE: usize = 5;
    const DX: isize = 0;
    const DY: isize = 0;
    const DZ: isize = 1;

    proof fn lemma_direction() {
    }

    fn offset<T: Data>() -> (r: isize) {
        proof {
            T::lemma_subdiv_valid();
            lemma_width_facts(T::SUBDIV);
        }
        let w = width(T::SUBDIV);
        (w * w) as isize
    }

    fn accept<T: Data>(x: usize, y: usize, z: usize) -> (r: bool) {
        proof {
            T::lemma_subdiv_valid();
        }
        z < last(T::SUBDIV)
    }

    fn orientation() -> (r: [[i8; 3]; 3]) {
        let r: [[i8; 3]; 3] = [[-1, 0, 0], [0, 1, 0], [0, 0, 1]];
        assert(r[0][0] == -1 && r[0][1] == 0 && r[0][2] == 0 && r[1][0] == 0 && r[1][1] == 1 && r[1][2] == 0 && r[2][0] == 0 && r[2][1] == 0 && r[2][2] == 1);
        assert(orthonormal(r));
        r
    }
}

/// The face towards -z.
pub struct Front;

impl Side for Front {
    const SIDE: usize = 4;
    const DX: isize = 0;
    const DY: isize = 0;
    const DZ: isize = -1;

    proof fn lemma_direction() {
    }

    fn offset<T: Data>() -> (r: isize) {
        proof {
            T::lemma_subdiv_valid();
            lemma_width_facts(T::SUBDIV);
        }
        let w = width(T::SUBDIV);
        proof {
            let ww = spec_width(T::SUBDIV) as int;
            assert(-1 * ww * ww == -(ww * ww)) by (nonlinear_arith);
        }
        -((w * w) as isize)
    }

    fn accept<T: Data>(x: usize, y: usize, z: usize) -> (r: bool) {
        proof {
            T::lemma_subdiv_valid();
            lemma_width_facts(T::SUBDIV);
        }
        z > 0
    }

    fn orientation() -> (r: [[i8; 3]; 3]) {
        let r: [[i8; 3]; 3] = [[1, 0, 0], [0, 1, 0], [0, 0, -1]];
        assert(r[0][0] == 1 && r[0][1] == 0 && r[0][2] == 0 && r[1][0] == 0 && r[1][1] == 1 && r[1][2] == 0 && r[2][0] == 0 && r[2][1] == 0 && r[2][2] == -1);
        assert(orthonormal(r));
        r
    }
}

/// For a subvoxel inside the voxel whose neighbour in the direction of face
/// `S` is accepted, that neighbour lies inside the voxel too, and its index
/// is the subvoxel's index plus `S::offset`.
pub proof fn lemma_offset_reaches_neighbour<S: Side, T: Data>(x: int, y: int, z: int)
    requires
        0 <= x < spec_width(T::SUBDIV),
        0 <= y < spec_width(T::SUBDIV),
        0 <= z < spec_width(T::SUBDIV),
        step_in_range(spec_width(T::SUBDIV) as int, x, S::DX as int),
        step_in_range(spec_width(T::SUBDIV) as int, y, S::DY as int),
        step_in_range(spec_width(T::SUBDIV) as int, z, S::DZ as int),
    ensures
        0 <= x + S::DX < spec_width(T::SUBDIV),
        0 <= y + S::DY < spec_width(T::SUBDIV),
        0 <= z + S::DZ < spec_width(T::SUBDIV),
        spec_coord_to_index(T::SUBDIV, x + S::DX, y + S::DY, z + S::DZ) == spec_coord_to_index(
            T::SUBDIV,
            x,
            y,
            z,
        ) + S::DX + S::DY * spec_width(T::SUBDIV) + S::DZ * spec_width(T::SUBDIV) * spec_width(
            T::SUBDIV,
        ),
{
    S::lemma_direction();
    let w = spec_width(T::SUBDIV) as int;
    let dx = S::DX as int;
    let dy = S::DY as int;
    let dz = S::DZ as int;
    assert((x + dx) + (y + dy) * w + (z + dz) * w * w == (x + y * w + z * w * w) + dx + dy * w
        + dz * w * w) by (nonlinear_arith);
}


/// Opposite faces point in opposite directions, and the six faces carry the
/// six numbers 0 to 5.
pub proof fn lemma_opposite_faces()
    ensures
        Left::DX == -Right::DX && Left::DY == -Right::DY && Left::DZ == -Right::DZ,
        Below::DX == -Above::DX && Below::DY == -Above::DY && Below::DZ == -Above::DZ,
        Back::DX == -Front::DX && Back::DY == -Front::DY && Back::DZ == -Front::DZ,
        set![Left::SIDE, Right::SIDE, Below::SIDE, Above::SIDE, Back::SIDE, Front::SIDE] == set![
            0usize,
            1usize,
            2usize,
            3usize,
            4usize,
            5usize,
        ],
{
    assert(set![Left::SIDE, Right::SIDE, Below::SIDE, Above::SIDE, Back::SIDE, Front::SIDE] =~= set![
        0usize,
        1usize,
        2usize,
        3usize,
        4usize,
        5usize,
    ]);
}

} // verus!

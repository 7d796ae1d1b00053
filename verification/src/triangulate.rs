use vstd::prelude::*;

use crate::context::Context;
use crate::side::{Side, lemma_offset_reaches_neighbour, step_in_range};
use crate::voxel::{
    ChildOf, Data, Voxel, count, index_to_coord, lemma_index_coord_roundtrip, lemma_width_facts,
    spec_count, spec_index_to_coord, spec_width,
};

verus! {

/// Whether face `S` of subvoxel `i` of a detail voxel is drawn: the subvoxel
/// is visible, and it lets its neighbours show through, or its neighbour in
/// the direction of the face (inside the voxel, or found through `context`
/// outside it) does.
pub open spec fn face_shown<S: Side, T: Voxel, C: Context<T>>(context: C, sub: Seq<ChildOf<T>>, i: int) -> bool
    where ChildOf<T>: Voxel
{
    let c = spec_index_to_coord(T::Data::SUBDIV, i);
    let w = spec_width(T::Data::SUBDIV) as int;
    let accept = step_in_range(w, c.0, S::DX as int) && step_in_range(w, c.1, S::DY as int)
        && step_in_range(w, c.2, S::DZ as int);
    let j = i + S::DX + S::DY * w + S::DZ * w * w;
    &&& sub[i].spec_visible()
    &&& (sub[i].spec_render() || (accept && sub[j].spec_render()) || context.spec_render(
        c.0 + S::DX,
        c.1 + S::DY,
        c.2 + S::DZ,
    ))
}

/// The subvoxels of a detail voxel whose face `S` is drawn, in index order.
pub fn detail_faces<S: Side, T: Voxel, C: Context<T>>(context: &C, sub: &[ChildOf<T>]) -> (r: Vec<usize>)
    where ChildOf<T>: Voxel
    requires
        sub@.len() >= spec_count(T::Data::SUBDIV),
    ensures
        forall|k: int| 0 <= k < r@.len() ==> r@[k] < spec_count(T::Data::SUBDIV),
        forall|k: int, l: int| 0 <= k < l < r@.len() ==> r@[k] < r@[l],
        forall|i: int|
            0 <= i < spec_count(T::Data::SUBDIV) ==> (r@.contains(i as usize) <==> face_shown::<S, T, C>(
                *context,
                sub@,
                i,
            )),
{
    proof {
        T::Data::lemma_subdiv_valid();
        lemma_width_facts(T::Data::SUBDIV);
        S::lemma_direction();
    }
    let n = count(T::Data::SUBDIV);
    let mut faces: Vec<usize> = Vec::new();
    let mut i: usize = 0;
    while i < n
        invariant
            n == spec_count(T::Data::SUBDIV),
            sub@.len() >= n,
            0 <= i <= n,
            crate::voxel::valid_subdiv(T::Data::SUBDIV),
            crate::side::unit_direction(S::DX, S::DY, S::DZ),
            forall|k: int| 0 <= k < faces@.len() ==> faces@[k] < i,
            forall|k: int, l: int| 0 <= k < l < faces@.len() ==> faces@[k] < faces@[l],
            forall|m: int|
                0 <= m < i ==> (faces@.contains(m as usize) <==> face_shown::<S, T, C>(
                    *context,
                    sub@,
                    m,
                )),
        decreases n - i,
    {
        if sub[i].visible() {
            let (x, y, z) = index_to_coord(T::Data::SUBDIV, i);
            proof {
                lemma_width_facts(T::Data::SUBDIV);
                lemma_index_coord_roundtrip(T::Data::SUBDIV, i as int);
            }
            let accept = S::accept::<T::Data>(x, y, z);
            let shown = if sub[i].render() {
                true
            } else if accept {
                proof {
                    lemma_offset_reaches_neighbour::<S, T::Data>(x as int, y as int, z as int);
                    crate::voxel::lemma_coord_index_roundtrip(
                        T::Data::SUBDIV,
                        x + S::DX,
                        y + S::DY,
                        z + S::DZ,
                    );
                }
                let j = (i as isize + S::offset::<T::Data>()) as usize;
                if sub[j].render() {
                    true
                } else {
                    context.render(x as isize + S::DX, y as isize + S::DY, z as isize + S::DZ)
                }
            } else {
                context.render(x as isize + S::DX, y as isize + S::DY, z as isize + S::DZ)
            };
            let ghost old_faces = faces@;
            if shown {
                faces.push(i);
            }
            proof {
                assert(shown == face_shown::<S, T, C>(*context, sub@, i as int));
                if shown {
                    assert(faces@ == old_faces.push(i));
                    assert(faces@[faces@.len() - 1] == i);
                } else {
                    assert(faces@ == old_faces);
                }
                assert forall|m: int|
                    0 <= m < i + 1 implies (faces@.contains(m as usize) <==> face_shown::<S, T, C>(
                    *context,
                    sub@,
                    m,
                )) by {
                    if m < i {
                        if faces@.contains(m as usize) {
                            let k = choose|k: int| 0 <= k < faces@.len() && faces@[k] == m as usize;
                            if shown && k == faces@.len() - 1 {
                                assert(faces@[k] == i);
                            }
                            assert(old_faces[k] == m as usize);
                            assert(old_faces.contains(m as usize));
                        }
                        if old_faces.contains(m as usize) {
                            let k = choose|k: int| 0 <= k < old_faces.len() && old_faces[k] == m as usize;
                            assert(faces@[k] == m as usize);
                        }
                    } else {
                        if shown {
                            assert(faces@[faces@.len() - 1] == i);
                        } else if faces@.contains(m as usize) {
                            let k = choose|k: int| 0 <= k < faces@.len() && faces@[k] == m as usize;
                            assert(old_faces[k] < i);
                        }
                    }
                }
            }
        } else {
            proof {
                assert(!face_shown::<S, T, C>(*context, sub@, i as int));
            }
        }
        i = i + 1;
    }
    faces
}

/// Triangle indices of a quad whose first vertex is `begin`, with occlusion
/// levels `levels` at its four corners: the quad is split along the diagonal
/// whose corners are less occluded together.
pub fn quad_indices(begin: u32, levels: [u16; 4]) -> (r: [u32; 6])
    requires
        begin + 3 <= u32::MAX,
    ensures
        levels[0] + levels[2] < levels[1] + levels[3] ==> r == [begin, (begin + 1) as u32, (begin + 2) as u32, begin, (begin + 2) as u32, (begin + 3) as u32],
        !(levels[0] + levels[2] < levels[1] + levels[3]) ==> r == [begin, (begin + 1) as u32, (begin + 3) as u32, (begin + 1) as u32, (begin + 2) as u32, (begin + 3) as u32],
{
    if (levels[0] as u32 + levels[2] as u32) < (levels[1] as u32 + levels[3] as u32) {
        [begin, begin + 1, begin + 2, begin, begin + 2, begin + 3]
    } else {
        [begin, begin + 1, begin + 3, begin + 1, begin + 2, begin + 3]
    }
}

} // verus!

use vstd::prelude::*;

use crate::material::{
    created, created_in_order, find_identical, lemma_find_identical_prefix, VoxelMaterial, VoxelMaterialId,
    VoxelMaterialStorage,
};
use crate::voxel::{
    coord_to_index, count, lemma_coord_index_roundtrip, lemma_width_facts, spec_coord_to_index, spec_count,
    spec_width, width, Data, NestedVoxel, Voxel,
};

verus! {

/// One voxel of a submodel.
#[derive(Clone, Copy, Debug, PartialEq, Eq, Structural)]
pub struct Instance {
    /// the index references the index within the dimensions of the
    ///  `SubModelData` this `Instance` is contained in.
    pub index: usize,
    /// The material references to an index in the materials slice
    ///  of the `ModelData` this `Instance` is contained in.
    pub material: usize,
    /// Reference to a bone in the `ModelData`.
    /// Ignored if the `ModelData` doesn't have bones.
    pub bone: usize,
}

/// The subvoxel of a voxel with `subdiv` subdivisions that the voxel at
/// `index` of a submodel of `dims` fills: the submodel's y axis runs along
/// the voxel's z axis and its z axis along the voxel's y axis; voxels outside
/// the subvoxel grid fill nothing.
pub open spec fn placed(subdiv: usize, dims: [usize; 3], index: int) -> Option<int> {
    let w = spec_width(subdiv) as int;
    let x = index % dims[0] as int;
    let y = (index / (dims[0] * dims[1])) % dims[2] as int;
    let z = (index / dims[0] as int) % dims[1] as int;
    if x < w && y < w && z < w {
        Some(spec_coord_to_index(subdiv, x, y, z))
    } else {
        None
    }
}

/// The position in `voxels` of the last voxel that falls in subvoxel `k`,
/// if any does.
pub open spec fn fill_source(subdiv: usize, dims: [usize; 3], voxels: Seq<Instance>, k: int) -> Option<int>
    decreases voxels.len(),
{
    if voxels.len() == 0 {
        None
    } else if placed(subdiv, dims, voxels.last().index as int) == Some(k) {
        Some(voxels.len() - 1)
    } else {
        fill_source(subdiv, dims, voxels.drop_last(), k)
    }
}

/// The material of each voxel of a submodel, in order.
pub open spec fn used_materials<M>(materials: Seq<M>, voxels: Seq<Instance>) -> Seq<M> {
    Seq::new(voxels.len(), |j: int| materials[voxels[j].material as int])
}

/// Build a detail voxel from a submodel: the subvoxels its voxels fall in
/// are filled, all others are empty. Each material the submodel uses is
/// added to `atlas` once, when first used, and fills with the id it got:
/// the atlas id of the first stored material that looks like it. The atlas
/// ends as creating the material of each voxel in turn leaves it: a material
/// that is already stored adds nothing, so each used material is added once,
/// in the order of first use.
pub fn build_voxel<V: Data + Default, M: VoxelMaterial, H>(
    materials: &Vec<M>,
    dims: [usize; 3],
    voxels: &Vec<Instance>,
    atlas: &mut VoxelMaterialStorage<M, H>,
) -> (r: NestedVoxel<V>) where V::Child: Voxel, <V::Child as Voxel>::Data: Default
    requires
        old(atlas).wf(),
        voxels@.len() > 0 ==> dims[0] > 0 && dims[1] > 0 && dims[2] > 0,
        dims[0] * dims[1] <= usize::MAX,
        forall|j: int| 0 <= j < voxels@.len() ==> (#[trigger] voxels@[j]).material < materials@.len(),
        forall|m: int|
            0 <= m < materials@.len() ==> 1 <= (#[trigger] materials@[m]).spec_dimension() && 2
                * materials@[m].spec_dimension() <= usize::MAX,
    ensures
        final(atlas).wf(),
        created_in_order(
            old(atlas).spec_materials(),
            used_materials(materials@, voxels@),
            final(atlas).spec_materials(),
        ),
        final(atlas).spec_materials().subrange(0, old(atlas).spec_materials().len() as int)
            == old(atlas).spec_materials(),
        r is Detail,
        r.spec_detail().len() == spec_count(V::SUBDIV),
        forall|k: int|
            0 <= k < spec_count(V::SUBDIV) ==> (#[trigger] r.spec_detail()[k]).spec_visible() == fill_source(
                V::SUBDIV,
                dims,
                voxels@,
                k,
            ) is Some,
        forall|k: int| 0 <= k < spec_count(V::SUBDIV) ==> !(#[trigger] r.spec_detail()[k]).spec_is_detail(),
        forall|k: int|
            0 <= k < spec_count(V::SUBDIV) ==> (#[trigger] r.spec_detail()[k]).spec_fill() == match fill_source(
                V::SUBDIV,
                dims,
                voxels@,
                k,
            ) {
                Some(j) => Some(
                    VoxelMaterialId(
                        find_identical(final(atlas).spec_materials(), materials@[voxels@[j].material as int]) as u32,
                    ),
                ),
                None => None,
            },
        forall|k: int|
            0 <= k < spec_count(V::SUBDIV) && (#[trigger] r.spec_detail()[k]).spec_fill() is Some
                ==> r.spec_detail()[k].spec_fill().unwrap().0 < final(atlas).spec_materials().len(),
{
    proof {
        V::lemma_subdiv_valid();
        lemma_width_facts(V::SUBDIV);
    }
    let s = V::SUBDIV;
    let w = width(s);
    let n = count(s);
    let ghost base = atlas.spec_materials();
    // the atlas id of each material, once it is used
    let mut handles: Vec<Option<VoxelMaterialId>> = Vec::new();
    let mut m: usize = 0;
    while m < materials.len()
        invariant
            m <= materials@.len(),
            handles@.len() == m,
            forall|i: int| 0 <= i < m ==> (#[trigger] handles@[i]).is_none(),
        decreases materials@.len() - m,
    {
        handles.push(None);
        m = m + 1;
    }
    let mut detail: Vec<V::Child> = Vec::new();
    let mut k: usize = 0;
    while k < n
        invariant
            k <= n,
            n == spec_count(s),
            detail@.len() == k,
            forall|i: int|
                0 <= i < k ==> !(#[trigger] detail@[i]).spec_visible() && !detail@[i].spec_is_detail()
                    && detail@[i].spec_fill() is None,
        decreases n - k,
    {
        detail.push(<V::Child as Voxel>::new_empty(Default::default()));
        k = k + 1;
    }
    let ghost mut states: Seq<Seq<M>> = seq![base];
    let mut j: usize = 0;
    while j < voxels.len()
        invariant
            j <= voxels@.len(),
            s == V::SUBDIV,
            crate::voxel::valid_subdiv(s),
            spec_count(s) <= usize::MAX,
            w == spec_width(s),
            voxels@.len() > 0 ==> dims[0] > 0 && dims[1] > 0 && dims[2] > 0,
            dims[0] * dims[1] <= usize::MAX,
            handles@.len() == materials@.len(),
            forall|i: int| 0 <= i < voxels@.len() ==> (#[trigger] voxels@[i]).material < materials@.len(),
            forall|i: int|
                0 <= i < materials@.len() ==> 1 <= (#[trigger] materials@[i]).spec_dimension() && 2
                    * materials@[i].spec_dimension() <= usize::MAX,
            atlas.wf(),
            states.len() == j + 1,
            states[0] == base,
            states[j as int] == atlas.spec_materials(),
            forall|i: int|
                0 <= i < j ==> created(
                    #[trigger] states[i],
                    used_materials(materials@, voxels@)[i],
                    states[i + 1],
                ),
            atlas.spec_materials().subrange(0, base.len() as int) == base,
            base.len() <= atlas.spec_materials().len(),
            detail@.len() == spec_count(s),
            forall|i: int|
                0 <= i < spec_count(s) ==> (#[trigger] detail@[i]).spec_visible() == fill_source(
                    s,
                    dims,
                    voxels@.take(j as int),
                    i,
                ) is Some,
            forall|i: int| 0 <= i < spec_count(s) ==> !(#[trigger] detail@[i]).spec_is_detail(),
            forall|i: int|
                0 <= i < spec_count(s) ==> (#[trigger] detail@[i]).spec_fill() == match fill_source(
                    s,
                    dims,
                    voxels@.take(j as int),
                    i,
                ) {
                    Some(v) => handles@[voxels@[v].material as int],
                    None => None,
                },
            forall|i: int| 0 <= i < j ==> (#[trigger] handles@[voxels@[i].material as int]) is Some,
            forall|m: int|
                0 <= m < handles@.len() && (#[trigger] handles@[m]) is Some ==> {
                    &&& find_identical(atlas.spec_materials(), materials@[m]) < atlas.spec_materials().len()
                    &&& handles@[m] == Some(
                        VoxelMaterialId(find_identical(atlas.spec_materials(), materials@[m]) as u32),
                    )
                    &&& handles@[m].unwrap().0 < atlas.spec_materials().len()
                },
        decreases voxels@.len() - j,
    {
        let instance = voxels[j];
        let ghost before_step = atlas.spec_materials();
        proof {
            if handles@[instance.material as int] is Some {
                assert(find_identical(before_step, materials@[instance.material as int]) < before_step.len());
                assert(created(before_step, materials@[instance.material as int], before_step)) by {
                    reveal(created);
                }
            }
        }
        let handle = match handles[instance.material] {
            Some(h) => h,
            None => {
                let ghost before = atlas.spec_materials();
                let h = atlas.create(&materials[instance.material]);
                proof {
                    assert(atlas.spec_materials().subrange(0, base.len() as int) =~= atlas.spec_materials().subrange(
                        0,
                        before.len() as int,
                    ).subrange(0, base.len() as int));
                    assert(before.len() <= atlas.spec_materials().len());
                    let fin = atlas.spec_materials();
                    assert(fin.take(before.len() as int) =~= before) by {
                        assert(fin.subrange(0, before.len() as int) == before);
                    }
                    assert forall|m: int| 0 <= m < handles@.len() && (#[trigger] handles@[m]) is Some implies
                        find_identical(fin, materials@[m]) == find_identical(before, materials@[m]) by {
                        lemma_find_identical_prefix(fin, materials@[m], before.len() as int);
                    }
                }
                let ghost hs = handles@;
                handles.set(instance.material, Some(h));
                proof {
                    assert forall|i: int| 0 <= i < spec_count(s) implies (#[trigger] detail@[i]).spec_fill()
                        == match fill_source(s, dims, voxels@.take(j as int), i) {
                        Some(v) => handles@[voxels@[v].material as int],
                        None => None,
                    } by {
                        lemma_fill_source_bounds(s, dims, voxels@.take(j as int), i);
                        if let Some(v) = fill_source(s, dims, voxels@.take(j as int), i) {
                            assert(voxels@.take(j as int)[v] == voxels@[v]);
                            assert(hs[voxels@[v].material as int] is Some);
                        }
                    }
                }
                h
            },
        };
        let index = instance.index;
        let d0 = dims[0];
        let d1 = dims[1];
        let d2 = dims[2];
        proof {
            assert(d0 * d1 > 0) by (nonlinear_arith)
                requires
                    d0 > 0, d1 > 0,
            ;
        }
        let x = index % d0;
        let y = (index / (d0 * d1)) % d2;
        let z = (index / d0) % d1;
        proof {
            assert(voxels@.take(j + 1).drop_last() =~= voxels@.take(j as int));
            assert(voxels@.take(j + 1).last() == instance);
            assert(handles@[instance.material as int] == Some(handle));
        }
        if x < w && y < w && z < w {
            proof {
                lemma_coord_index_roundtrip(s, x as int, y as int, z as int);
            }
            let i = coord_to_index(s, x, y, z);
            detail.set(i, <V::Child as Voxel>::new_filled(Default::default(), handle));
            proof {
                assert(placed(s, dims, instance.index as int) == Some(i as int));
                assert(fill_source(s, dims, voxels@.take(j + 1), i as int) == Some(j as int));
            }
        } else {
            proof {
                assert(placed(s, dims, instance.index as int) is None);
            }
        }
        proof {
            assert(used_materials(materials@, voxels@)[j as int] == materials@[instance.material as int]);
            assert(created(before_step, used_materials(materials@, voxels@)[j as int], atlas.spec_materials()));
            lemma_states_push(states, used_materials(materials@, voxels@), j as int, atlas.spec_materials());
            states = states.push(atlas.spec_materials());
        }
        j = j + 1;
    }
    proof {
        assert(voxels@.take(j as int) =~= voxels@);
        assert(states.len() == used_materials(materials@, voxels@).len() + 1);
        assert(created_in_order(base, used_materials(materials@, voxels@), atlas.spec_materials()));
        assert forall|k: int| 0 <= k < spec_count(s) implies (#[trigger] detail@[k]).spec_fill() == match fill_source(
            s,
            dims,
            voxels@,
            k,
        ) {
            Some(v) => Some(
                VoxelMaterialId(find_identical(atlas.spec_materials(), materials@[voxels@[v].material as int]) as u32),
            ),
            None => None,
        } by {
            lemma_fill_source_bounds(s, dims, voxels@, k);
            if let Some(v) = fill_source(s, dims, voxels@, k) {
                assert(handles@[voxels@[v].material as int] is Some);
            }
        }
        assert forall|k: int| 0 <= k < spec_count(s) && (#[trigger] detail@[k]).spec_fill() is Some implies detail@[k].spec_fill().unwrap().0
            < atlas.spec_materials().len() by {
            lemma_fill_source_bounds(s, dims, voxels@, k);
            if let Some(v) = fill_source(s, dims, voxels@, k) {
                assert(handles@[voxels@[v].material as int] is Some);
            }
        }
    }
    NestedVoxel::Detail { detail, data: Default::default() }
}

/// Recording the materials after one more creation keeps the record of
/// the creations so far.
proof fn lemma_states_push<M: VoxelMaterial>(states: Seq<Seq<M>>, used: Seq<M>, j: int, next: Seq<M>)
    requires
        states.len() == j + 1,
        0 <= j < used.len(),
        forall|i: int| 0 <= i < j ==> created(#[trigger] states[i], used[i], states[i + 1]),
        created(states[j], used[j], next),
    ensures
        states.push(next).len() == j + 2,
        states.push(next)[0] == states[0],
        states.push(next)[j + 1] == next,
        forall|i: int| 0 <= i < j + 1 ==> created(#[trigger] states.push(next)[i], used[i], states.push(next)[i + 1]),
{
    let s2 = states.push(next);
    assert forall|i: int| 0 <= i < j + 1 implies created(#[trigger] s2[i], used[i], s2[i + 1]) by {
        if i < j {
            assert(s2[i] == states[i] && s2[i + 1] == states[i + 1]);
        }
    }
}

/// The voxel that `fill_source` names is one of `voxels`.
proof fn lemma_fill_source_bounds(subdiv: usize, dims: [usize; 3], voxels: Seq<Instance>, k: int)
    ensures
        fill_source(subdiv, dims, voxels, k) matches Some(v) ==> 0 <= v < voxels.len(),
    decreases voxels.len(),
{
    if voxels.len() > 0 {
        lemma_fill_source_bounds(subdiv, dims, voxels.drop_last(), k);
    }
}

} // verus!

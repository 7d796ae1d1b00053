use vstd::prelude::*;

use crate::material::{
    find_identical, lemma_find_identical_prefix, ColoredMaterial, VoxelMaterial, VoxelMaterialId, VoxelMaterialStorage,
};
use crate::vox::VoxContents;
use crate::voxel::{
    count, coord_to_index, lemma_coord_index_roundtrip, lemma_width_facts, spec_coord_to_index, spec_count,
    spec_index_to_coord, spec_width, width, Data, NestedVoxel, SimpleVoxel, Voxel,
};

verus! {

/// Offset that centres `size` voxels among `w`, rounded toward zero.
pub open spec fn centre_offset(w: int, size: int) -> int {
    let d = w - size;
    if d >= 0 {
        d / 2
    } else {
        -((-d) / 2)
    }
}

/// The subvoxel that voxel `v = (x, y, z, color)` of a model of `size`
/// lands in once the model is centred in a voxel of `subdiv` subdivisions;
/// none for color 0, which is empty, or when it falls outside.
pub open spec fn landing(subdiv: usize, size: (u32, u32, u32), v: (u8, u8, u8, u8)) -> Option<int> {
    let w = spec_width(subdiv) as int;
    let x = v.0 + centre_offset(w, size.0 as int);
    let y = v.1 + centre_offset(w, size.1 as int);
    let z = v.2 + centre_offset(w, size.2 as int);
    if v.3 > 0 && 0 <= x < w && 0 <= y < w && 0 <= z < w {
        Some(spec_coord_to_index(subdiv, x, y, z))
    } else {
        None
    }
}

/// The color of each subvoxel after the voxels are placed in order; a later
/// voxel replaces an earlier one in the same subvoxel.
pub open spec fn expanded(subdiv: usize, size: (u32, u32, u32), voxels: Seq<(u8, u8, u8, u8)>) -> Seq<Option<u8>>
    decreases voxels.len(),
{
    if voxels.len() == 0 {
        Seq::new(spec_count(subdiv), |i: int| None)
    } else {
        let prev = expanded(subdiv, size, voxels.drop_last());
        match landing(subdiv, size, voxels.last()) {
            Some(i) => prev.update(i, Some(voxels.last().3)),
            None => prev,
        }
    }
}

proof fn lemma_expanded_len(subdiv: usize, size: (u32, u32, u32), voxels: Seq<(u8, u8, u8, u8)>)
    requires
        crate::voxel::valid_subdiv(subdiv),
    ensures
        expanded(subdiv, size, voxels).len() == spec_count(subdiv),
    decreases voxels.len(),
{
    if voxels.len() > 0 {
        lemma_expanded_len(subdiv, size, voxels.drop_last());
        let v = voxels.last();
        let w = spec_width(subdiv) as int;
        if landing(subdiv, size, v) is Some {
            lemma_coord_index_roundtrip(
                subdiv,
                v.0 + centre_offset(w, size.0 as int),
                v.1 + centre_offset(w, size.1 as int),
                v.2 + centre_offset(w, size.2 as int),
            );
        }
    }
}

/// Centring leaves as much room before the model as after it, up to one
/// subvoxel, and the extra subvoxel goes after the model (when it fits) or
/// is cut from its end (when it does not): twice the offset is the room
/// left over, rounded toward zero to an even number.
pub proof fn lemma_centre_offset(w: int, size: int)
    ensures
        w >= size ==> 0 <= (w - size) - 2 * centre_offset(w, size) <= 1,
        w < size ==> -1 <= (w - size) - 2 * centre_offset(w, size) <= 0,
{
}

/// A model voxel `v = (x, y, z, color)` of a non-empty color lands in the
/// subvoxel at coordinate (x, y, z) shifted by the centring offsets, axis by
/// axis, exactly when that coordinate lies in the subvoxel grid; voxels of
/// color 0 land nowhere.
pub proof fn lemma_landing_coord(subdiv: usize, size: (u32, u32, u32), v: (u8, u8, u8, u8))
    requires
        crate::voxel::valid_subdiv(subdiv),
    ensures
        ({
            let w = spec_width(subdiv) as int;
            let (x, y, z) = (
                v.0 + centre_offset(w, size.0 as int),
                v.1 + centre_offset(w, size.1 as int),
                v.2 + centre_offset(w, size.2 as int),
            );
            &&& landing(subdiv, size, v) is Some <==> (v.3 > 0 && 0 <= x < w && 0 <= y < w && 0 <= z < w)
            &&& landing(subdiv, size, v) matches Some(i) ==> 0 <= i < spec_count(subdiv)
                && spec_index_to_coord(subdiv, i) == (x, y, z)
        }),
{
    let w = spec_width(subdiv) as int;
    let (x, y, z) = (
        v.0 + centre_offset(w, size.0 as int),
        v.1 + centre_offset(w, size.1 as int),
        v.2 + centre_offset(w, size.2 as int),
    );
    if landing(subdiv, size, v) is Some {
        lemma_coord_index_roundtrip(subdiv, x, y, z);
    }
}

/// A model of one voxel of a non-empty color fills exactly the subvoxel at
/// the voxel's centred coordinate, with its color; every other subvoxel
/// stays empty.
pub proof fn lemma_expanded_single(subdiv: usize, size: (u32, u32, u32), v: (u8, u8, u8, u8), k: int)
    requires
        crate::voxel::valid_subdiv(subdiv),
        0 <= k < spec_count(subdiv),
    ensures
        ({
            let w = spec_width(subdiv) as int;
            let at = (
                v.0 + centre_offset(w, size.0 as int),
                v.1 + centre_offset(w, size.1 as int),
                v.2 + centre_offset(w, size.2 as int),
            );
            expanded(subdiv, size, seq![v])[k] == if v.3 > 0 && spec_index_to_coord(subdiv, k) == at {
                Some(v.3)
            } else {
                None
            }
        }),
{
    let w = spec_width(subdiv) as int;
    let one = seq![v];
    assert(one.drop_last() =~= Seq::<(u8, u8, u8, u8)>::empty());
    assert(one.last() == v);
    lemma_landing_coord(subdiv, size, v);
    crate::voxel::lemma_index_coord_roundtrip(subdiv, k);
    lemma_expanded_len(subdiv, size, one.drop_last());
    if let Some(i) = landing(subdiv, size, v) {
        crate::voxel::lemma_index_coord_roundtrip(subdiv, i);
    }
}

/// The material of a subvoxel of the given color.
pub open spec fn colored(c: Option<u8>, ids: Seq<VoxelMaterialId>) -> Option<VoxelMaterialId> {
    match c {
        Some(i) => Some(ids[i as int]),
        None => None,
    }
}

/// The subvoxels of model `voxels` of `size`, centred in a voxel of
/// `T::SUBDIV` subdivisions; color `i` is material `ids[i]`.
fn expand_model<T: Data<Child = SimpleVoxel>>(
    size: (u32, u32, u32),
    voxels: &Vec<(u8, u8, u8, u8)>,
    ids: &Vec<VoxelMaterialId>,
) -> (r: Vec<SimpleVoxel>)
    requires
        ids@.len() == 256,
    ensures
        r@.len() == spec_count(T::SUBDIV),
        forall|i: int|
            0 <= i < r@.len() ==> (#[trigger] r@[i]).spec_material() == colored(
                expanded(T::SUBDIV, size, voxels@)[i],
                ids@,
            ),
{
    proof {
        T::lemma_subdiv_valid();
        lemma_width_facts(T::SUBDIV);
        lemma_expanded_len(T::SUBDIV, size, voxels@);
    }
    let s = T::SUBDIV;
    let n = count(s);
    let w = width(s);
    let wi = w as i64;
    let x_off = (wi - size.0 as i64) / 2;
    let y_off = (wi - size.1 as i64) / 2;
    let z_off = (wi - size.2 as i64) / 2;
    let mut detail: Vec<SimpleVoxel> = Vec::new();
    let mut k: usize = 0;
    while k < n
        invariant
            k <= n,
            n == spec_count(s),
            detail@.len() == k,
            forall|i: int| 0 <= i < k ==> (#[trigger] detail@[i]).spec_material().is_none(),
        decreases n - k,
    {
        detail.push(SimpleVoxel::new_empty(()));
        k = k + 1;
    }
    proof {
        assert(forall|i: int| 0 <= i < detail@.len() ==> (#[trigger] detail@[i]).spec_material() == colored(
            expanded(s, size, voxels@.take(0))[i],
            ids@,
        ));
    }
    let mut j: usize = 0;
    while j < voxels.len()
        invariant
            j <= voxels@.len(),
            s == T::SUBDIV,
            crate::voxel::valid_subdiv(s),
            spec_count(s) <= usize::MAX,
            w == spec_width(s),
            wi == w,
            x_off == centre_offset(w as int, size.0 as int),
            y_off == centre_offset(w as int, size.1 as int),
            z_off == centre_offset(w as int, size.2 as int),
            ids@.len() == 256,
            detail@.len() == spec_count(s),
            forall|i: int|
                0 <= i < detail@.len() ==> (#[trigger] detail@[i]).spec_material() == colored(
                    expanded(s, size, voxels@.take(j as int))[i],
                    ids@,
                ),
        decreases voxels@.len() - j,
    {
        let (x, y, z, c) = voxels[j];
        let m = ids[c as usize];
        let xx = x as i64 + x_off;
        let yy = y as i64 + y_off;
        let zz = z as i64 + z_off;
        proof {
            assert(voxels@.take(j + 1).drop_last() =~= voxels@.take(j as int));
            assert(voxels@.take(j + 1).last() == voxels@[j as int]);
            lemma_expanded_len(s, size, voxels@.take(j as int));
        }
        if c > 0 && 0 <= xx && xx < wi && 0 <= yy && yy < wi && 0 <= zz && zz < wi {
            proof {
                lemma_coord_index_roundtrip(s, xx as int, yy as int, zz as int);
            }
            let index = coord_to_index(s, xx as usize, yy as usize, zz as usize);
            detail.set(index, SimpleVoxel::new_filled((), m));
        }
        j = j + 1;
    }
    proof {
        assert(voxels@.take(j as int) =~= voxels@);
    }
    detail
}

/// The id a palette entry gets in `materials`: the first identical stored material.
pub open spec fn palette_ids(materials: Seq<ColoredMaterial>, palette: Seq<ColoredMaterial>) -> Seq<VoxelMaterialId> {
    Seq::new(256, |k: int| VoxelMaterialId(find_identical(materials, palette[k]) as u32))
}

/// The stored materials after the entries of `palette` are added in order
/// to `materials`: an entry identical to a stored material is not added again.
pub open spec fn stored_after(materials: Seq<ColoredMaterial>, palette: Seq<ColoredMaterial>) -> Seq<ColoredMaterial>
    decreases palette.len(),
{
    if palette.len() == 0 {
        materials
    } else {
        let s = stored_after(materials, palette.drop_last());
        if find_identical(s, palette.last()) < s.len() {
            s
        } else {
            s.push(palette.last())
        }
    }
}

/// Load the models of a MagicaVoxel file. Each model is centred in a detail
/// voxel and cropped to it. Any palette materials that don't exist in
/// `store` yet are added to it, and color `i` of a model becomes the stored
/// material identical to palette entry `i`.
pub fn load_vox<T: Data<Child = SimpleVoxel> + Default, H>(
    contents: &VoxContents,
    palette: &Vec<ColoredMaterial>,
    store: &mut VoxelMaterialStorage<ColoredMaterial, H>,
) -> (r: Vec<NestedVoxel<T>>)
    requires
        old(store).wf(),
        palette@.len() == 256,
    ensures
        final(store).wf(),
        final(store).spec_materials() == stored_after(old(store).spec_materials(), palette@),
        old(store).spec_materials().len() <= final(store).spec_materials().len(),
        final(store).spec_materials().subrange(0, old(store).spec_materials().len() as int)
            == old(store).spec_materials(),
        forall|k: int|
            0 <= k < 256 ==> find_identical(final(store).spec_materials(), #[trigger] palette@[k])
                < final(store).spec_materials().len(),
        r@.len() == if contents@.sizes.len() < contents@.models.len() {
            contents@.sizes.len()
        } else {
            contents@.models.len()
        },
        forall|j: int|
            0 <= j < r@.len() ==> (#[trigger] r@[j]) is Detail && r@[j].spec_detail().len() == spec_count(T::SUBDIV)
                && forall|i: int|
                0 <= i < spec_count(T::SUBDIV) ==> (#[trigger] r@[j].spec_detail()[i]).spec_material() == colored(
                    expanded(T::SUBDIV, contents@.sizes[j], contents@.models[j])[i],
                    palette_ids(final(store).spec_materials(), palette@),
                ),
{
    let ghost base = store.spec_materials().len();
    let ghost first = store.spec_materials();
    let mut ids: Vec<VoxelMaterialId> = Vec::new();
    let mut k: usize = 0;
    while k < 256
        invariant
            k <= 256,
            palette@.len() == 256,
            store.wf(),
            base <= store.spec_materials().len(),
            store.spec_materials().subrange(0, base as int) == first,
            first.len() == base,
            ids@.len() == k,
            store.spec_materials() == stored_after(first, palette@.take(k as int)),
            forall|i: int|
                0 <= i < k ==> find_identical(store.spec_materials(), #[trigger] palette@[i])
                    < store.spec_materials().len(),
            forall|i: int|
                0 <= i < k ==> #[trigger] ids@[i] == VoxelMaterialId(
                    find_identical(store.spec_materials(), palette@[i]) as u32,
                ),
        decreases 256 - k,
    {
        let ghost before = store.spec_materials();
        let id = store.create(&palette[k]);
        proof {
            assert(store.spec_materials().subrange(0, base as int) =~= store.spec_materials().subrange(
                0,
                before.len() as int,
            ).subrange(0, base as int));
            let now = store.spec_materials();
            assert(palette@.take(k + 1).drop_last() =~= palette@.take(k as int));
            assert(palette@.take(k + 1).last() == palette@[k as int]);
            if find_identical(before, palette@[k as int]) == before.len() {
                assert(now =~= before.push(palette@[k as int]));
                assert(now.len() == before.len() + 1);
                assert(now.take(before.len() as int) =~= before);
                assert(now.drop_last() =~= before);
                assert(palette@[k as int].spec_submaterial(now[before.len() as int], 0));
                assert(find_identical(now, palette@[k as int]) == before.len());
                assert forall|i: int| 0 <= i < k implies find_identical(now, #[trigger] palette@[i])
                    == find_identical(before, palette@[i]) by {
                    lemma_find_identical_prefix(now, palette@[i], before.len() as int);
                }
            }
        }
        ids.push(id);
        k = k + 1;
    }
    proof {
        assert(ids@ =~= palette_ids(store.spec_materials(), palette@));
        assert(palette@.take(256) =~= palette@);
    }
    let n = if contents.sizes.len() < contents.models.len() {
        contents.sizes.len()
    } else {
        contents.models.len()
    };
    let mut out: Vec<NestedVoxel<T>> = Vec::new();
    let mut j: usize = 0;
    while j < n
        invariant
            j <= n,
            n <= contents.sizes@.len(),
            n <= contents.models@.len(),
            out@.len() == j,
            ids@.len() == 256,
            forall|m: int|
                0 <= m < j ==> (#[trigger] out@[m]) is Detail && out@[m].spec_detail().len() == spec_count(T::SUBDIV)
                    && forall|i: int|
                    0 <= i < spec_count(T::SUBDIV) ==> (#[trigger] out@[m].spec_detail()[i]).spec_material()
                        == colored(expanded(T::SUBDIV, contents@.sizes[m], contents@.models[m])[i], ids@),
        decreases n - j,
    {
        let detail = expand_model::<T>(contents.sizes[j], &contents.models[j], &ids);
        proof {
            assert(contents@.models[j as int] == contents.models@[j as int]@);
        }
        out.push(NestedVoxel::Detail { detail, data: T::default() });
        j = j + 1;
    }
    out
}

} // verus!

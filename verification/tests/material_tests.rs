use amethyst_voxel::material::{
    atlas_size, mip_levels, ColoredMaterial, TexturedMaterial, Tiling, VoxelMaterial, VoxelMaterialId,
    VoxelMaterialStorage,
};
use amethyst_voxel::model::{build_voxel, Instance};
use amethyst_voxel::voxel::{Data, NestedVoxel, SimpleVoxel, Voxel};

fn textured(size: usize, tiling: Tiling) -> TexturedMaterial {
    TexturedMaterial {
        size,
        tiling,
        albedo_alpha: (0..size * size).map(|i| [i as u8, 0, 0, 255]).collect(),
        emission: Vec::new(),
        metallic_roughness: vec![[1, 2]],
    }
}

#[test]
fn tiling_axes() {
    assert!(Tiling::Both.horizontal() && Tiling::Both.vertical());
    assert!(Tiling::Horizontal.horizontal() && !Tiling::Horizontal.vertical());
    assert!(!Tiling::Vertical.horizontal() && Tiling::Vertical.vertical());
    assert!(!Tiling::Neither.horizontal() && !Tiling::Neither.vertical());
    assert_eq!(Tiling::default(), Tiling::Both);
}

#[test]
fn colored_material_pixels() {
    let m = ColoredMaterial::default();
    assert_eq!(m.albedo_alpha(3, 4), [255, 255, 255, 255]);
    assert_eq!(m.emission(0, 0), [0, 0, 0]);
    assert_eq!(m.metallic_roughness(0, 0), [8, 250]);
    assert_eq!(m.dimension(), 1);
    assert_eq!(m.submaterials().len(), 1);
    assert_eq!(m.sub_side(3), 0);
    assert_eq!(m.tiling(), Tiling::Both);
}

#[test]
fn textured_material_pixels_fall_back() {
    let m = textured(2, Tiling::Horizontal);
    assert_eq!(m.albedo_alpha(1, 1), [3, 0, 0, 255]);
    assert_eq!(m.albedo_alpha(0, 2), [0, 0, 0, 255]);
    assert_eq!(m.emission(0, 0), [0, 0, 0]);
    assert_eq!(m.metallic_roughness(0, 0), [1, 2]);
    assert_eq!(m.metallic_roughness(1, 0), [240, 8]);
    let subs = m.submaterials();
    assert_eq!(subs.len(), 1);
    assert_eq!(subs[0].albedo_alpha, m.albedo_alpha);
    assert_eq!(m.tiling(), Tiling::Horizontal);
}

#[test]
fn storage_hands_out_consecutive_ids() {
    let mut store: VoxelMaterialStorage<TexturedMaterial, u8> = VoxelMaterialStorage::default();
    assert_eq!(store.size(), 1);
    assert_eq!(store.grid(), 4);
    assert!(store.handle().is_none());
    assert_eq!(store.create(&textured(1, Tiling::Both)), VoxelMaterialId(0));
    assert_eq!(store.grid(), 4);
    assert_eq!(store.create(&textured(4, Tiling::Both)), VoxelMaterialId(1));
    assert_eq!(store.grid(), 8);
    assert_eq!(store.create(&textured(2, Tiling::Both)), VoxelMaterialId(2));
    assert_eq!(store.grid(), 8);
    assert_eq!(store.len(), 3);
    assert_eq!(store.material(1).size, 4);
}

#[test]
fn atlas_sizes() {
    assert_eq!(atlas_size(0, 4), 32);
    assert_eq!(atlas_size(64, 4), 32);
    assert_eq!(atlas_size(65, 4), 64);
    assert_eq!(atlas_size(100, 16), 256);
    assert_eq!(mip_levels(4), 1);
    assert_eq!(mip_levels(8), 2);
    assert_eq!(mip_levels(16), 3);
    assert_eq!(mip_levels(0), 1);
}

#[test]
fn baking_the_atlas() {
    let mut store: VoxelMaterialStorage<ColoredMaterial, &'static str> = VoxelMaterialStorage::new();
    for i in 0..70u8 {
        store.create(&ColoredMaterial { alpha: i, ..ColoredMaterial::default() });
    }
    assert!(store.prepare_atlas());
    assert_eq!(store.size(), 64);
    store.finish_atlas("atlas");
    assert_eq!(store.handle(), Some(&"atlas"));
    assert!(!store.prepare_atlas());
    assert_eq!(store.size(), 64);
    assert_eq!(store.mip_levels(), 1);
}

#[test]
fn texels_of_the_atlas() {
    let mut store: VoxelMaterialStorage<TexturedMaterial, ()> = VoxelMaterialStorage::new();
    store.create(&textured(2, Tiling::Both));
    store.create(&textured(2, Tiling::Neither));
    store.prepare_atlas();
    // grid 4, size 32: 8 slots per row; border 1
    assert_eq!(store.texel(0, 0), Some((0, 1, 1)));
    assert_eq!(store.texel(1, 1), Some((0, 0, 0)));
    assert_eq!(store.texel(3, 2), Some((0, 0, 1)));
    assert_eq!(store.texel(4, 0), Some((1, 0, 0)));
    assert_eq!(store.texel(7, 3), Some((1, 1, 1)));
    assert_eq!(store.texel(8, 0), None);
    assert_eq!(store.texel(0, 4), None);
}

#[test]
fn atlas_corners() {
    let mut store: VoxelMaterialStorage<TexturedMaterial, ()> = VoxelMaterialStorage::new();
    store.create(&textured(2, Tiling::Both));
    store.create(&textured(2, Tiling::Vertical));
    store.prepare_atlas();
    // material 1 sits in slot 1 of the first row: x from 4, border 1, 2 wide
    assert_eq!(store.corner(1, 0, 0), (5, 1));
    assert_eq!(store.corner(1, 0, 1), (7, 1));
    assert_eq!(store.corner(1, 0, 2), (7, 3));
    assert_eq!(store.corner(1, 0, 3), (5, 3));
    assert_eq!(store.corner(1, 0, 6), (7, 3));
    // unknown materials are one pixel wide: border (4 - 1) / 2 = 1
    assert_eq!(store.corner(9, 0, 0), (5, 5));
    assert_eq!(store.corner(9, 0, 2), (6, 6));
}

#[derive(Clone, Copy, Debug, Default, PartialEq)]
struct Piece;

impl Data for Piece {
    type Child = NestedVoxel<()>;
    const SUBDIV: usize = 1;

    fn lemma_subdiv_valid() {}

    fn spec_visible(&self) -> bool {
        true
    }

    fn spec_render(&self) -> bool {
        false
    }

    fn spec_skin(&self) -> Option<u8> {
        None
    }

    fn visible(&self) -> bool {
        true
    }

    fn render(&self) -> bool {
        false
    }

    fn skin(&self) -> Option<u8> {
        None
    }
}

#[test]
fn build_voxel_from_model() {
    let materials = vec![ColoredMaterial::default(), ColoredMaterial { alpha: 7, ..ColoredMaterial::default() }];
    // dims 3 x 2 x 2: index = x + 3 * y + 6 * z, placed at (x, z, y)
    let voxels = vec![
        Instance { index: 1 + 3, material: 1, bone: 0 },
        Instance { index: 2, material: 0, bone: 0 },
        Instance { index: 6, material: 1, bone: 0 },
    ];
    let mut atlas: VoxelMaterialStorage<ColoredMaterial, ()> = VoxelMaterialStorage::new();
    let v: NestedVoxel<Piece> = build_voxel(&materials, [3, 2, 2], &voxels, &mut atlas);
    assert!(v.is_detail());
    // each material is added once, in order of first use
    assert_eq!(atlas.len(), 2);
    assert_eq!(atlas.material(0).alpha, 7);
    // (1, 1, 0) lands at (1, 0, 1) = 1 + 4
    match v.get(5).unwrap() {
        NestedVoxel::Material { material, .. } => assert_eq!(*material, VoxelMaterialId(0)),
        _ => panic!("expected a filled subvoxel"),
    }
    // (0, 0, 1) lands at (0, 1, 0) = 2
    match v.get(2).unwrap() {
        NestedVoxel::Material { material, .. } => assert_eq!(*material, VoxelMaterialId(0)),
        _ => panic!("expected a filled subvoxel"),
    }
    // x = 2 lies outside the two subvoxels along x
    let visible = (0..8).filter(|&i| v.child_visible(i)).count();
    assert_eq!(visible, 2);
}

#[test]
fn simple_voxels_from_ids() {
    let s = SimpleVoxel::new_filled((), VoxelMaterialId(3));
    assert_eq!(s.material().map(|m| m.index()), Some(3));
}

#[test]
fn identical_materials_share_an_id() {
    let mut store: VoxelMaterialStorage<ColoredMaterial, ()> = VoxelMaterialStorage::new();
    let red = ColoredMaterial { albedo: [255, 0, 0], ..ColoredMaterial::default() };
    let blue = ColoredMaterial { albedo: [0, 0, 255], ..ColoredMaterial::default() };
    assert_eq!(store.create(&red), VoxelMaterialId(0));
    assert_eq!(store.create(&blue), VoxelMaterialId(1));
    assert!(store.prepare_atlas());
    store.finish_atlas(());
    assert_eq!(store.create(&red), VoxelMaterialId(0));
    assert_eq!(store.len(), 2);
    // nothing new: the baked atlas stays valid
    assert!(!store.prepare_atlas());
    let mut textures: VoxelMaterialStorage<TexturedMaterial, ()> = VoxelMaterialStorage::new();
    assert_eq!(textures.create(&textured(2, Tiling::Both)), VoxelMaterialId(0));
    assert_eq!(textures.create(&textured(2, Tiling::Neither)), VoxelMaterialId(1));
    assert_eq!(textures.create(&textured(2, Tiling::Both)), VoxelMaterialId(0));
    assert_eq!(textures.len(), 2);
}

#[test]
fn atlas_is_smallest_that_fits() {
    for count in [0usize, 1, 63, 64, 65, 200, 1000] {
        for grid in [4usize, 8, 16] {
            let size = atlas_size(count, grid);
            assert!(count * grid * grid <= size * size);
            assert!(size == 32 || (size / 2) * (size / 2) < count * grid * grid);
            assert!(size.is_power_of_two() && size >= 32);
        }
    }
}

#[test]
fn quad_corner_lands_on_first_texel() {
    let mut store: VoxelMaterialStorage<TexturedMaterial, ()> = VoxelMaterialStorage::new();
    for i in 0..20 {
        store.create(&TexturedMaterial { size: 2, tiling: Tiling::Both, albedo_alpha: vec![[i, 0, 0, 0]], emission: Vec::new(), metallic_roughness: Vec::new() });
    }
    store.prepare_atlas();
    for m in 0..20u32 {
        let (x, y) = store.corner(m, 0, 0);
        assert_eq!(store.texel(x, y), Some((m as usize, 0, 0)));
    }
}

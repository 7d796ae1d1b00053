use amethyst_voxel::material::VoxelMaterialId;
use amethyst_voxel::voxel::{
    coord_to_index, count, index_to_coord, last, width, Data, NestedVoxel, SimpleVoxel, Voxel,
};

#[derive(Clone, Copy, Debug, Default, PartialEq)]
struct Chunky;

impl Data for Chunky {
    type Child = SimpleVoxel;
    const SUBDIV: usize = 2;

    fn lemma_subdiv_valid() {}

    fn spec_visible(&self) -> bool {
        true
    }

    fn spec_render(&self) -> bool {
        false
    }

    fn spec_skin(&self) -> Option<u8> {
        None
    }

    fn visible(&self) -> bool {
        true
    }

    fn render(&self) -> bool {
        false
    }

    fn skin(&self) -> Option<u8> {
        None
    }
}

#[test]
fn grid_constants() {
    assert_eq!(width(2), 4);
    assert_eq!(last(2), 3);
    assert_eq!(count(2), 64);
    assert_eq!(width(0), 1);
    assert_eq!(count(0), 1);
}

#[test]
fn coord_index_roundtrip() {
    assert_eq!(coord_to_index(2, 1, 2, 3), 1 + 2 * 4 + 3 * 16);
    for i in 0..64 {
        let (x, y, z) = index_to_coord(2, i);
        assert_eq!(coord_to_index(2, x, y, z), i);
    }
    assert_eq!(index_to_coord(2, 57), (1, 2, 3));
}

#[test]
fn nested_voxel_children() {
    let mut children = Vec::new();
    for i in 0..70 {
        if i % 2 == 0 {
            children.push(SimpleVoxel::new_filled((), VoxelMaterialId(i as u32)));
        } else {
            children.push(SimpleVoxel::new_empty(()));
        }
    }
    let v: NestedVoxel<Chunky> = NestedVoxel::from_iter(Chunky, children);
    assert!(v.is_detail());
    assert!(v.visible());
    assert!(!v.render());
    assert!(v.get(63).is_some());
    assert!(v.get(64).is_none());
    assert!(v.child_visible(2));
    assert!(!v.child_visible(3));
    assert!(v.child_render(3));
    assert_eq!(v.get(4).unwrap().material(), Some(VoxelMaterialId(4)));
    assert_eq!(*v.data(), Chunky);
}

#[test]
fn simple_voxel_kinds() {
    let empty = SimpleVoxel::new_empty(());
    let full = SimpleVoxel::new_filled((), VoxelMaterialId(7));
    assert!(!empty.visible());
    assert!(empty.render());
    assert!(full.visible());
    assert!(!full.render());
    assert_eq!(full.material(), Some(VoxelMaterialId(7)));
    assert_eq!(empty.material(), None);
    let solid: NestedVoxel<Chunky> = NestedVoxel::new_filled(Chunky, VoxelMaterialId(3));
    assert!(solid.visible());
    assert!(!solid.is_detail());
    let air: NestedVoxel<Chunky> = NestedVoxel::new_empty(Chunky);
    assert!(!air.visible());
    assert!(air.render());
}

#[test]
fn subdivision_four_has_4096_subvoxels() {
    assert_eq!(width(4), 16);
    assert_eq!(count(4), 4096);
}

#[test]
fn default_and_material_voxels() {
    let d: NestedVoxel<Chunky> = NestedVoxel::default();
    assert!(matches!(d, NestedVoxel::Empty { .. }));
    let m: NestedVoxel<Chunky> = NestedVoxel::from_material(VoxelMaterialId(5));
    assert!(matches!(m, NestedVoxel::Material { material: VoxelMaterialId(5), .. }));
    let mut e: NestedVoxel<Chunky> = NestedVoxel::new_empty(Chunky);
    *e.data_mut() = Chunky;
    assert!(matches!(e, NestedVoxel::Empty { .. }));
}

use amethyst_voxel::ambient_occlusion::{
    blend_skins, occlusion_level, process_occlusion, SharedVertexData, Vertex,
};
use amethyst_voxel::context::{grid_div, grid_mod, ChildContext, Context, VoxelContext, WorldContext};
use amethyst_voxel::material::VoxelMaterialId;
use amethyst_voxel::side::{Above, Back, Below, Front, Left, Right, Side};
use amethyst_voxel::triangulate::{detail_faces, quad_indices};
use amethyst_voxel::voxel::{Data, NestedVoxel, SimpleVoxel, Voxel};

#[derive(Clone, Copy, Debug, Default, PartialEq)]
struct Cube;

impl Data for Cube {
    type Child = SimpleVoxel;
    const SUBDIV: usize = 1;

    fn lemma_subdiv_valid() {}

    fn spec_visible(&self) -> bool {
        true
    }

    fn spec_render(&self) -> bool {
        false
    }

    fn spec_skin(&self) -> Option<u8> {
        None
    }

    fn visible(&self) -> bool {
        true
    }

    fn render(&self) -> bool {
        false
    }

    fn skin(&self) -> Option<u8> {
        None
    }
}

/// A 2x2x2 voxel whose subvoxels at the given indices are filled.
fn cube(filled: &[usize]) -> NestedVoxel<Cube> {
    let children = (0..8)
        .map(|i| {
            if filled.contains(&i) {
                SimpleVoxel::new_filled((), VoxelMaterialId(i as u32))
            } else {
                SimpleVoxel::new_empty(())
            }
        })
        .collect();
    NestedVoxel::from_iter(Cube, children)
}

#[test]
fn floor_division() {
    assert_eq!(grid_div(5, 4), 1);
    assert_eq!(grid_div(-1, 4), -1);
    assert_eq!(grid_div(-4, 4), -1);
    assert_eq!(grid_div(-5, 4), -2);
    assert_eq!(grid_mod(5, 4), 1);
    assert_eq!(grid_mod(-1, 4), 3);
    assert_eq!(grid_mod(-4, 4), 0);
    for x in -9..9 {
        assert_eq!(grid_div(x, 4) * 4 + grid_mod(x, 4), x);
    }
}

#[test]
fn voxel_context_sees_only_its_voxel() {
    let v = cube(&[0, 7]);
    let ctx = VoxelContext::new(&v);
    assert!(!ctx.visible(0, 0, 0));
    assert!(!ctx.visible(5, 0, 0));
    assert!(!ctx.render(0, 0, 0));
    assert!(!ctx.render(1, 0, 0));
    assert!(ctx.render(-1, 0, 0));
    assert!(ctx.render(2, 0, 0));
    assert_eq!(ctx.subvoxel(1, 1, 1).unwrap().material(), Some(VoxelMaterialId(7)));
    assert!(ctx.subvoxel(2, 0, 0).is_none());
}

#[test]
fn world_context_crosses_chunks() {
    let a = cube(&[1]);
    let b = cube(&[0]);
    let chunks: Vec<Option<&NestedVoxel<Cube>>> = vec![Some(&a), Some(&b), None, None];
    // window of 2 x 2 x 1 chunks; the context is for chunk (0, 0, 0)
    let ctx = WorldContext::new([0, 0, 0], [2, 2, 1], &chunks);
    assert!(ctx.visible(1, 0, 0));
    assert!(!ctx.visible(0, 0, 0));
    // x = 2 is the first subvoxel of chunk (1, 0, 0)
    assert!(ctx.visible(2, 0, 0));
    assert!(!ctx.visible(3, 0, 0));
    // chunk (0, 1, 0) is not loaded, chunk (-1, 0, 0) is outside
    assert!(!ctx.visible(0, 2, 0));
    assert!(!ctx.render(0, 2, 0));
    assert!(!ctx.visible(-1, 0, 0));
    assert_eq!(ctx.subvoxel(2, 0, 0).unwrap().material(), Some(VoxelMaterialId(0)));
    let other = WorldContext::new([1, 0, 0], [2, 2, 1], &chunks);
    assert!(other.visible(-1, 0, 0));
}

#[test]
fn detail_context_resolves_neighbours() {
    let inner = cube(&[0]);
    let children: Vec<NestedVoxel<Cube>> = vec![
        inner.clone(),
        NestedVoxel::new_filled(Cube, VoxelMaterialId(3)),
        NestedVoxel::new_empty(Cube),
        NestedVoxel::new_empty(Cube),
        NestedVoxel::new_empty(Cube),
        NestedVoxel::new_empty(Cube),
        NestedVoxel::new_empty(Cube),
        NestedVoxel::new_empty(Cube),
    ];
    let outer: NestedVoxel<Big> = NestedVoxel::from_iter(Big, children);
    let ctx = VoxelContext::new(&outer);
    let child = ctx.child(0, 0, 0);
    assert!(child.visible(0, 0, 0));
    assert!(!child.visible(1, 0, 0));
    // coordinate 2 along x lies in the solid neighbour (1, 0, 0), which has no subvoxels
    assert!(!child.visible(2, 0, 0));
    // an empty subvoxel inside lets its neighbours show; a neighbour without
    // subvoxels has nothing to report
    assert!(child.render(1, 0, 0));
    assert!(!child.render(0, 2, 0));
}

#[derive(Clone, Copy, Debug, Default, PartialEq)]
struct Big;

impl Data for Big {
    type Child = NestedVoxel<Cube>;
    const SUBDIV: usize = 1;

    fn lemma_subdiv_valid() {}

    fn spec_visible(&self) -> bool {
        true
    }

    fn spec_render(&self) -> bool {
        false
    }

    fn spec_skin(&self) -> Option<u8> {
        None
    }

    fn visible(&self) -> bool {
        true
    }

    fn render(&self) -> bool {
        false
    }

    fn skin(&self) -> Option<u8> {
        None
    }
}

#[test]
fn corner_levels() {
    assert_eq!(occlusion_level([0, 0, 0, 0]), 0);
    assert_eq!(occlusion_level([0, 0, 1, 0]), 1);
    assert_eq!(occlusion_level([1, 1, 0, 0]), 2);
    assert_eq!(occlusion_level([1, 0, 0, 1]), 3);
    assert_eq!(occlusion_level([1, 1, 1, 0]), 3);
    assert_eq!(process_occlusion([0; 8]), 0);
    assert_eq!(process_occlusion([1; 8]), 0xfff);
    // only the cell at (0, 0, 0): level 1 on -x, -y and -z
    assert_eq!(process_occlusion([1, 0, 0, 0, 0, 0, 0, 0]), (1 << 10) | (1 << 6) | (1 << 2));
}

#[test]
fn unskinned_vertices() {
    assert_eq!(blend_skins([None; 8]), [(0, 255), (0, 0), (0, 0), (0, 0)]);
}

#[test]
fn shared_data_of_a_leaf() {
    let leaf = SimpleVoxel::new_filled((), VoxelMaterialId(1));
    let ctx = VoxelContext::new(&leaf);
    match SharedVertexData::build(&leaf, &ctx) {
        SharedVertexData::Small { occlusion } => {
            for v in occlusion.iter() {
                assert_eq!(v.occlusion(), 0xfff);
            }
        }
        _ => panic!("a leaf has eight corners"),
    }
}

#[test]
fn shared_data_of_a_detail_voxel() {
    let v = cube(&[0]);
    let ctx = VoxelContext::new(&v);
    let shared = SharedVertexData::build(&v, &ctx);
    match &shared {
        SharedVertexData::Big { occlusion, width, .. } => {
            assert_eq!(*width, 3);
            assert_eq!(occlusion.len(), 27);
            // the vertex at (1, 1, 1) touches the filled cell (0, 0, 0) only
            assert_eq!(occlusion[1 + 3 + 9].occlusion(), (1 << 10) | (1 << 6) | (1 << 2));
            assert_eq!(occlusion[2 + 6 + 18].occlusion(), 0);
        }
        _ => panic!("a detail voxel has a vertex grid"),
    }
    match shared.sub(0, 0, 0) {
        SharedVertexData::Small { occlusion } => {
            assert_eq!(occlusion[7].occlusion(), (1 << 10) | (1 << 6) | (1 << 2));
            let levels = SharedVertexData::Small { occlusion }.quad_levels::<Left>();
            assert_eq!(levels.len(), 4);
        }
        _ => panic!("a leaf subvoxel has its cell corners"),
    }
}

#[test]
fn shared_data_of_a_nested_detail_voxel() {
    let children: Vec<NestedVoxel<Cube>> = vec![
        cube(&[0]),
        NestedVoxel::new_filled(Cube, VoxelMaterialId(3)),
        NestedVoxel::new_empty(Cube),
        NestedVoxel::new_empty(Cube),
        NestedVoxel::new_empty(Cube),
        NestedVoxel::new_empty(Cube),
        NestedVoxel::new_empty(Cube),
        NestedVoxel::new_empty(Cube),
    ];
    let outer: NestedVoxel<Big> = NestedVoxel::from_iter(Big, children);
    let ctx = VoxelContext::new(&outer);
    let shared = SharedVertexData::build(&outer, &ctx);
    match &shared {
        SharedVertexData::Big { detail, width, occlusion } => {
            assert_eq!(*width, 3);
            assert_eq!(occlusion.len(), 27);
            // only subvoxel 0 has subvoxels of its own
            assert_eq!(detail.len(), 1);
            match detail.get(&0) {
                Some(SharedVertexData::Big { occlusion, width, detail }) => {
                    assert_eq!(*width, 3);
                    assert!(detail.is_empty());
                    assert_eq!(occlusion[1 + 3 + 9].occlusion(), (1 << 10) | (1 << 6) | (1 << 2));
                }
                _ => panic!("the detail subvoxel has its own vertex grid"),
            }
        }
        _ => panic!("a detail voxel has a vertex grid"),
    }
    match shared.sub(0, 0, 0) {
        SharedVertexData::Borrowed { target } => match target.sub(0, 0, 0) {
            SharedVertexData::Small { occlusion } => {
                assert_eq!(occlusion[7].occlusion(), (1 << 10) | (1 << 6) | (1 << 2));
            }
            _ => panic!("a leaf subvoxel has its cell corners"),
        },
        _ => panic!("a detail subvoxel borrows its data"),
    }
    match shared.sub(1, 0, 0) {
        SharedVertexData::Small { .. } => {}
        _ => panic!("a subvoxel without subvoxels has its cell corners"),
    }
}

#[test]
fn side_directions() {
    assert_eq!((Left::DX, Left::DY, Left::DZ), (1, 0, 0));
    assert_eq!((Right::DX, Right::DY, Right::DZ), (-1, 0, 0));
    assert_eq!((Below::DX, Below::DY, Below::DZ), (0, 1, 0));
    assert_eq!((Above::DX, Above::DY, Above::DZ), (0, -1, 0));
    assert_eq!((Back::DX, Back::DY, Back::DZ), (0, 0, 1));
    assert_eq!((Front::DX, Front::DY, Front::DZ), (0, 0, -1));
    assert_eq!(Left::offset::<Cube>(), 1);
    assert_eq!(Below::offset::<Cube>(), 2);
    assert_eq!(Front::offset::<Cube>(), -4);
    assert!(Left::accept::<Cube>(0, 0, 0));
    assert!(!Left::accept::<Cube>(1, 0, 0));
    assert!(Right::accept::<Cube>(1, 0, 0));
    assert!(!Front::accept::<Cube>(0, 0, 0));
    assert_eq!(Left::orientation()[2], [1, 0, 0]);
    assert_eq!(Front::orientation()[2], [0, 0, -1]);
}

#[test]
fn neighbour_through_offset() {
    // the neighbour of (0, 1, 0) towards +x is (1, 1, 0), one index further
    let i = 0 + 2;
    let j = (i as isize + Left::offset::<Cube>()) as usize;
    assert_eq!(j, 1 + 2);
}

#[test]
fn faces_between_subvoxels() {
    // two filled subvoxels side by side along x: the face between them is hidden
    let v = cube(&[0, 1]);
    let ctx = VoxelContext::new(&v);
    match &v {
        NestedVoxel::Detail { detail, .. } => {
            assert_eq!(detail_faces::<Left, NestedVoxel<Cube>, _>(&ctx, detail), vec![1]);
            assert_eq!(detail_faces::<Right, NestedVoxel<Cube>, _>(&ctx, detail), vec![0]);
            assert_eq!(detail_faces::<Below, NestedVoxel<Cube>, _>(&ctx, detail), vec![0, 1]);
        }
        _ => panic!("detail voxel expected"),
    }
}

#[test]
fn quad_diagonals() {
    assert_eq!(quad_indices(10, [0, 1, 0, 1]), [10, 11, 12, 10, 12, 13]);
    assert_eq!(quad_indices(10, [1, 0, 1, 0]), [10, 11, 13, 11, 12, 13]);
    assert_eq!(quad_indices(0, [1, 1, 1, 1]), [0, 1, 3, 1, 2, 3]);
}

#[test]
fn unit_voxel_keeps_one_child() {
    let a = SimpleVoxel::new_filled((), VoxelMaterialId(4));
    let b = SimpleVoxel::new_empty(());
    let v: NestedVoxel<()> = NestedVoxel::from_iter((), vec![a, b]);
    match &v {
        NestedVoxel::Detail { detail, .. } => {
            assert_eq!(detail.len(), 1);
            assert_eq!(detail[0].material(), Some(VoxelMaterialId(4)));
        }
        _ => panic!("detail voxel expected"),
    }
    let ctx = VoxelContext::new(&v);
    assert!(!ctx.render(0, 0, 0));
    assert!(ctx.render(1, 0, 0));
    assert!(ctx.render(0, -1, 0));
}

#[test]
fn shared_data_of_a_unit_voxel() {
    let v: NestedVoxel<()> = NestedVoxel::from_iter((), vec![SimpleVoxel::new_filled((), VoxelMaterialId(2))]);
    let ctx = VoxelContext::new(&v);
    match SharedVertexData::build(&v, &ctx) {
        SharedVertexData::Big { occlusion, detail, width } => {
            assert_eq!(width, 2);
            assert!(detail.is_empty());
            let codes: Vec<u16> = occlusion.iter().map(|o| o.occlusion()).collect();
            assert_eq!(codes, vec![0x111, 0x411, 0x141, 0x441, 0x114, 0x414, 0x144, 0x444]);
            for o in occlusion.iter() {
                assert_eq!(o.skins(), [(0, 255), (0, 0), (0, 0), (0, 0)]);
            }
        }
        _ => panic!("a detail voxel has a vertex grid"),
    }
}

#[test]
fn vertices_keep_their_fields() {
    let v = Vertex::new(0x444, [(1, 200), (2, 55), (0, 0), (0, 0)]);
    assert_eq!(v.occlusion(), 0x444);
    assert_eq!(v.skins(), [(1, 200), (2, 55), (0, 0), (0, 0)]);
    let corners = SharedVertexData::Small { occlusion: [v; 8] };
    // the -x face reads bits 10..12 of its corners
    let levels = corners.quad_levels::<Right>();
    assert_eq!(levels[0].0, 1);
}

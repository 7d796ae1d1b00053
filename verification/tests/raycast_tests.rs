use amethyst_voxel::material::VoxelMaterialId;
use amethyst_voxel::raycast::{probe, Intersection, Probe};
use amethyst_voxel::voxel::{Data, NestedVoxel, SimpleVoxel, Voxel};

#[derive(Clone, Copy, Debug, Default, PartialEq)]
struct Grid;

impl Data for Grid {
    type Child = SimpleVoxel;
    const SUBDIV: usize = 1;

    fn lemma_subdiv_valid() {}

    fn spec_visible(&self) -> bool {
        true
    }

    fn spec_render(&self) -> bool {
        false
    }

    fn spec_skin(&self) -> Option<u8> {
        None
    }

    fn visible(&self) -> bool {
        true
    }

    fn render(&self) -> bool {
        false
    }

    fn skin(&self) -> Option<u8> {
        None
    }
}

fn hit(index: usize, inner: Option<Intersection<[f32; 3]>>) -> Intersection<[f32; 3]> {
    Intersection {
        inner: inner.map(Box::new),
        index,
        position: [index as f32, 0.0, 0.0],
        normal: [0.0, 1.0, 0.0],
    }
}

#[test]
fn intersection_levels() {
    let i = hit(1, Some(hit(2, Some(hit(3, None)))));
    assert_eq!(i.level(0).unwrap().index, 1);
    assert_eq!(i.level(1).unwrap().index, 2);
    assert_eq!(i.level(2).unwrap().index, 3);
    assert!(i.level(3).is_none());
    assert_eq!(i.innermost().index, 3);
    assert_eq!(i.innermost().position, [3.0, 0.0, 0.0]);
    let single = hit(9, None);
    assert_eq!(single.innermost().index, 9);
    assert!(single.level(1).is_none());
}

#[test]
fn probe_cells() {
    let mut children = Vec::new();
    for i in 0..8 {
        if i == 5 {
            children.push(SimpleVoxel::new_filled((), VoxelMaterialId(1)));
        } else {
            children.push(SimpleVoxel::new_empty(()));
        }
    }
    let v: NestedVoxel<Grid> = NestedVoxel::from_iter(Grid, children);
    // index 5 = (1, 0, 1)
    assert_eq!(probe(&v, [1, 0, 1]), Probe::Hit(5));
    assert_eq!(probe(&v, [0, 0, 0]), Probe::Miss);
    assert_eq!(probe(&v, [2, 0, 0]), Probe::Miss);
    assert_eq!(probe(&v, [-1, 0, 1]), Probe::Miss);
    let solid: NestedVoxel<Grid> = NestedVoxel::new_filled(Grid, VoxelMaterialId(2));
    assert_eq!(probe(&solid, [0, 0, 0]), Probe::Miss);
}

#[test]
fn probe_descends_into_detail() {
    let inner = NestedVoxel::from_iter(Grid, vec![SimpleVoxel::new_filled((), VoxelMaterialId(1)); 8]);
    let mut children: Vec<NestedVoxel<Grid>> = Vec::new();
    for i in 0..8 {
        if i == 3 {
            children.push(inner.clone());
        } else if i == 4 {
            children.push(NestedVoxel::new_filled(Grid, VoxelMaterialId(4)));
        } else {
            children.push(NestedVoxel::new_empty(Grid));
        }
    }
    let outer: NestedVoxel<Outer> = NestedVoxel::from_iter(Outer, children);
    assert_eq!(probe(&outer, [1, 1, 0]), Probe::Descend(3));
    assert_eq!(probe(&outer, [0, 0, 1]), Probe::Hit(4));
    assert_eq!(probe(&outer, [0, 0, 0]), Probe::Miss);
}

#[derive(Clone, Copy, Debug, Default, PartialEq)]
struct Outer;

impl Data for Outer {
    type Child = NestedVoxel<Grid>;
    const SUBDIV: usize = 1;

    fn lemma_subdiv_valid() {}

    fn spec_visible(&self) -> bool {
        true
    }

    fn spec_render(&self) -> bool {
        false
    }

    fn spec_skin(&self) -> Option<u8> {
        None
    }

    fn visible(&self) -> bool {
        true
    }

    fn render(&self) -> bool {
        false
    }

    fn skin(&self) -> Option<u8> {
        None
    }
}

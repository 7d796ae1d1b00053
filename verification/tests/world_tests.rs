use amethyst_voxel::world::{Answer, Chunk, Fetch, Limits, VoxelWorld};

type World = VoxelWorld<u32, u32>;

fn ready(world: &World, index: usize) -> Option<u32> {
    world.chunk(index).get().copied()
}

#[test]
fn new_world_is_empty() {
    let world = World::new([2, 3, 4]);
    assert_eq!(world.dims(), [2, 3, 4]);
    assert_eq!(world.origin(), [0, 0, 0]);
    assert!(!world.is_loaded());
    for i in 0..24 {
        assert!(matches!(world.chunk(i), Chunk::NotNeeded));
    }
    assert_eq!(world.limits().from, [None, None, None]);
    assert_eq!(world.limits().to, [None, None, None]);
}

#[test]
fn chunk_index_uses_x_fastest() {
    let world = World::new([2, 3, 4]);
    assert_eq!(world.chunk_index([1, 2, 3]), Some(1 + 2 * 2 + 3 * 6));
    assert_eq!(world.chunk_index([0, 0, 0]), Some(0));
    assert_eq!(world.chunk_index([2, 0, 0]), None);
    assert_eq!(world.chunk_index([-1, 0, 0]), None);
    assert_eq!(world.chunk_index([0, 0, 4]), None);
    assert_eq!(world.slot_at([1, 1, 1]), Some(1 + 2 + 6));
    assert_eq!(world.slot_at([0, 3, 0]), None);
}

#[test]
fn get_only_sees_ready_chunks() {
    let mut world = World::new([2, 2, 1]);
    world.install(1, Chunk::Ready(11));
    world.install(2, Chunk::NotReady(5));
    assert_eq!(world.get([1, 0, 0]).copied(), Some(11));
    assert_eq!(world.get([0, 1, 0]), None);
    assert_eq!(world.get([0, 0, 0]), None);
    assert_eq!(world.get([5, 0, 0]), None);
}

#[test]
fn recenter_keeps_chunks_at_their_coordinates() {
    let mut world = World::new([3, 1, 1]);
    world.install(0, Chunk::Ready(10));
    world.install(1, Chunk::Ready(11));
    world.install(2, Chunk::NotReady(7));
    let plans = world.recenter([1, 0, 0]);
    assert_eq!(world.origin(), [1, 0, 0]);
    // chunk coordinate 1 and 2 stay, coordinate 3 is new
    assert_eq!(ready(&world, 0), Some(11));
    assert!(matches!(world.chunk(1), Chunk::NotReady(7)));
    assert!(matches!(world.chunk(2), Chunk::NotNeeded));
    assert_eq!(world.get([1, 0, 0]).copied(), Some(11));
    assert_eq!(plans.len(), 3);
    assert_eq!(plans[0].index, 0);
    assert_eq!(plans[0].coord, [1, 0, 0]);
    assert_eq!(plans[0].fetch, Fetch::Keep);
    assert_eq!(plans[0].dropped, Some(10));
    // the dropped chunk was at chunk coordinate 0, the slot now stands for 1
    assert_eq!(plans[0].dropped_coord, [0, 0, 0]);
    assert_eq!(plans[1].index, 1);
    assert_eq!(plans[1].fetch, Fetch::Poll);
    assert_eq!(plans[1].dropped, None);
    assert_eq!(plans[2].index, 2);
    assert_eq!(plans[2].coord, [3, 0, 0]);
    assert_eq!(plans[2].fetch, Fetch::Load);
    assert_eq!(plans[2].dropped, None);
}

#[test]
fn recenter_backwards_walks_in_reverse() {
    let mut world = World::new([3, 1, 1]);
    world.install(0, Chunk::Ready(10));
    world.install(1, Chunk::Ready(11));
    world.install(2, Chunk::Ready(12));
    let plans = world.recenter([-1, 0, 0]);
    assert_eq!(ready(&world, 0), None);
    assert_eq!(ready(&world, 1), Some(10));
    assert_eq!(ready(&world, 2), Some(11));
    let order: Vec<usize> = plans.iter().map(|p| p.index).collect();
    assert_eq!(order, vec![2, 1, 0]);
    assert_eq!(plans[0].dropped, Some(12));
    assert_eq!(plans[0].dropped_coord, [2, 0, 0]);
    assert_eq!(plans[0].fetch, Fetch::Keep);
    assert_eq!(plans[2].fetch, Fetch::Load);
    assert_eq!(plans[2].coord, [-1, 0, 0]);
}

#[test]
fn recenter_in_place_changes_nothing() {
    let mut world = World::new([2, 2, 2]);
    for i in 0..8 {
        world.install(i, Chunk::Ready(i as u32));
    }
    let plans = world.recenter([0, 0, 0]);
    for i in 0..8 {
        assert_eq!(ready(&world, i), Some(i as u32));
        assert_eq!(plans[i].index, i);
        assert_eq!(plans[i].fetch, Fetch::Keep);
        assert_eq!(plans[i].dropped, None);
    }
}

#[test]
fn recenter_far_away_drops_everything() {
    let mut world = World::new([2, 2, 1]);
    for i in 0..4 {
        world.install(i, Chunk::Ready(20 + i as u32));
    }
    let plans = world.recenter([100, -100, 7]);
    let mut dropped: Vec<u32> = plans.iter().filter_map(|p| p.dropped).collect();
    dropped.sort();
    assert_eq!(dropped, vec![20, 21, 22, 23]);
    for p in &plans {
        assert_eq!(p.fetch, Fetch::Load);
    }
    for i in 0..4 {
        assert!(matches!(world.chunk(i), Chunk::NotNeeded));
    }
}

#[test]
fn recenter_diagonal_move() {
    let mut world = World::new([2, 2, 2]);
    for i in 0..8 {
        world.install(i, Chunk::Ready(i as u32));
    }
    // move by (+1, -1, +1): only old position (1, 0, 1) = slot 5 stays,
    // now at window position (0, 1, 0) = slot 2
    world.recenter([1, -1, 1]);
    assert_eq!(ready(&world, 2), Some(5));
    for i in [0usize, 1, 3, 4, 5, 6, 7] {
        assert_eq!(ready(&world, i), None);
    }
}

#[test]
fn window_origin_centres_and_clamps() {
    let mut world = World::new([4, 3, 5]);
    assert_eq!(world.window_origin([10, 10, 10]), [8, 9, 8]);
    world.set_limits(Limits { from: [Some(9), None, Some(0)], to: [None, Some(5), Some(3)] });
    assert_eq!(world.window_origin([10, 10, 10]), [9, 5, 3]);
    assert_eq!(world.window_origin([-10, -10, -10]), [9, -11, 0]);
    assert_eq!(world.limits().to, [None, Some(5), Some(3)]);
}

#[test]
fn unloaded_flag() {
    let mut world = World::new([1, 1, 1]);
    world.mark_unloaded();
    assert!(!world.is_loaded());
}

#[test]
fn recenter_requests_only_within_limits() {
    let mut world = World::new([3, 1, 1]);
    world.set_limits(Limits { from: [Some(0), None, None], to: [Some(3), None, None] });
    let plans = world.recenter([2, 0, 0]);
    let fetches: Vec<(isize, Fetch)> = plans.iter().map(|p| (p.coord[0], p.fetch)).collect();
    assert_eq!(fetches, vec![(2, Fetch::Load), (3, Fetch::Load), (4, Fetch::Skip)]);
    let plans = world.recenter([-2, 0, 0]);
    let fetches: Vec<(isize, Fetch)> = plans.iter().map(|p| (p.coord[0], p.fetch)).collect();
    assert_eq!(fetches, vec![(0, Fetch::Load), (-1, Fetch::Skip), (-2, Fetch::Skip)]);
    for p in &plans {
        assert!(matches!(world.chunk(p.index), Chunk::NotNeeded));
    }
}

#[test]
fn recenter_drops_at_the_old_coordinate() {
    let mut world = World::new([2, 1, 1]);
    world.install(0, Chunk::Ready(30));
    world.install(1, Chunk::Ready(31));
    let plans = world.recenter([5, 0, 0]);
    let dropped: Vec<(u32, [isize; 3])> = plans.iter().filter_map(|p| p.dropped.map(|e| (e, p.dropped_coord))).collect();
    assert_eq!(dropped, vec![(30, [0, 0, 0]), (31, [1, 0, 0])]);
}

#[test]
fn settle_fills_slots_with_answers() {
    let mut world = World::new([2, 1, 1]);
    world.settle(0, Answer::Ready(5));
    world.settle(1, Answer::Pending(9));
    assert_eq!(ready(&world, 0), Some(5));
    assert!(matches!(world.chunk(1), Chunk::NotReady(9)));
    world.settle(1, Answer::Retry);
    assert!(!world.is_loaded());
    assert!(matches!(world.chunk(1), Chunk::NotReady(9)));
}

use vstd::prelude::*;
use vstd::arithmetic::div_mod::lemma_fundamental_div_mod_converse;

verus! {

/// Chunk coordinates to denote the rendering limits of a `VoxelWorld`.
/// `None` specifies a non-existing limit, the world will be infinite in that direction.
/// `Some` specifies an existing inclusive limit, chunk past this limit will not be requested.
#[derive(Clone, Copy, Debug)]
pub struct Limits {
    pub from: [Option<isize>; 3],
    pub to: [Option<isize>; 3],
}

/// A slot of the chunk window of a `VoxelWorld`.
pub enum Chunk<Q, E> {
    /// Nothing is loaded or requested here.
    NotNeeded,
    /// A load was requested; `Q` is the pending request.
    NotReady(Q),
    /// The chunk is loaded; `E` refers to it.
    Ready(E),
}

impl<Q, E> Chunk<Q, E> {
    /// The loaded chunk, if any.
    pub fn get(&self) -> (r: Option<&E>)
        ensures
            match self {
                Chunk::Ready(e) => r == Some(e),
                _ => r.is_none(),
            },
    {
        match self {
            Chunk::NotNeeded => None,
            Chunk::NotReady(_) => None,
            Chunk::Ready(e) => Some(e),
        }
    }
}

/// What has to be done to fill a slot after the window moved.
#[derive(Clone, Copy, Debug, PartialEq, Eq, Structural)]
pub enum Fetch {
    /// Nothing was loaded or requested for this position: request it.
    Load,
    /// A request for this position is pending in the slot: poll it.
    Poll,
    /// The chunk is loaded and stays.
    Keep,
    /// Nothing is here and the position lies past the world's limits: it
    /// is not requested and stays empty.
    Skip,
}

/// The work for one slot of the window, in the order the window is walked.
pub struct ChunkPlan<E> {
    /// Slot of the window.
    pub index: usize,
    /// Chunk coordinate of the slot.
    pub coord: [isize; 3],
    /// What to do to fill the slot.
    pub fetch: Fetch,
    /// A loaded chunk that was in this slot and left the window.
    pub dropped: Option<E>,
    /// Chunk coordinate the slot had before the window moved: where the
    /// dropped chunk was, and where its changes belong.
    pub dropped_coord: [isize; 3],
}

/// What a source answered to a request for a chunk.
pub enum Answer<Q, E> {
    /// The chunk is loaded; `E` refers to it.
    Ready(E),
    /// The chunk is being loaded; `Q` is the pending request.
    Pending(Q),
    /// The source cannot take the request now: ask again later.
    Retry,
}

/// A dynamically loaded infinite world: a window of `dims` chunks whose
/// lowest corner is the chunk coordinate `origin`.
pub struct VoxelWorld<Q, E> {
    loaded: bool,
    limits: Limits,
    data: Vec<Chunk<Q, E>>,
    dims: [usize; 3],
    origin: [isize; 3],
}

/// Number of slots of a window with the given dimensions.
pub open spec fn volume(dims: [usize; 3]) -> int {
    dims[0] * dims[1] * dims[2]
}

/// Slot of window position `(x, y, z)`, x fastest.
pub open spec fn slot(dims: [usize; 3], x: int, y: int, z: int) -> int {
    z * dims[0] * dims[1] + y * dims[0] + x
}

/// `(x, y, z)` is a position of the window.
pub open spec fn in_window(dims: [usize; 3], x: int, y: int, z: int) -> bool {
    0 <= x < dims[0] && 0 <= y < dims[1] && 0 <= z < dims[2]
}

/// Walking order along one axis: backwards when the window moves towards lower coordinates.
pub open spec fn walk(d: int, off: int, c: int) -> int {
    if off < 0 {
        d - 1 - c
    } else {
        c
    }
}

/// Step of the walk at which window position `(x, y, z)` is visited.
pub open spec fn walk_rank(dims: [usize; 3], off: [int; 3], x: int, y: int, z: int) -> int {
    slot(
        dims,
        walk(dims[0] as int, off[0], x),
        walk(dims[1] as int, off[1], y),
        walk(dims[2] as int, off[2], z),
    )
}

/// How far the window moves when its corner goes from `from` to `to`.
pub open spec fn shift(from: [isize; 3], to: [isize; 3]) -> [int; 3] {
    [to[0] - from[0], to[1] - from[1], to[2] - from[2]]
}

/// The chunk that window position `(x, y, z)` holds after the window moved by `off`:
/// the one that was at the same world coordinate, or nothing.
pub open spec fn arriving<Q, E>(old: Seq<Chunk<Q, E>>, dims: [usize; 3], off: [int; 3], x: int, y: int, z: int) -> Chunk<Q, E> {
    if in_window(dims, x + off[0], y + off[1], z + off[2]) {
        old[slot(dims, x + off[0], y + off[1], z + off[2])]
    } else {
        Chunk::NotNeeded
    }
}

/// The chunk that slot `(x, y, z)` gives up when the window moved by `off`:
/// nothing when its chunk moved to another slot, else the chunk itself,
/// whose world coordinate left the window.
pub open spec fn leaving<Q, E>(old: Seq<Chunk<Q, E>>, dims: [usize; 3], off: [int; 3], x: int, y: int, z: int) -> Chunk<Q, E> {
    if in_window(dims, x - off[0], y - off[1], z - off[2]) {
        Chunk::NotNeeded
    } else {
        old[slot(dims, x, y, z)]
    }
}

/// The work owed to a slot that now holds `c`.
pub open spec fn fetch_for<Q, E>(c: Chunk<Q, E>) -> Fetch {
    match c {
        Chunk::NotNeeded => Fetch::Load,
        Chunk::NotReady(_) => Fetch::Poll,
        Chunk::Ready(_) => Fetch::Keep,
    }
}

/// The loaded chunk in `c`, if any.
pub open spec fn ready_in<Q, E>(c: Chunk<Q, E>) -> Option<E> {
    match c {
        Chunk::Ready(e) => Some(e),
        _ => None,
    }
}

/// Coordinate `c` lies within the inclusive limits `from` and `to` of an axis.
pub open spec fn axis_within(from: Option<isize>, to: Option<isize>, c: int) -> bool {
    &&& from matches Some(f) ==> f <= c
    &&& to matches Some(t) ==> c <= t
}

/// Chunk coordinate `coord` lies within `limits` on every axis.
pub open spec fn within_limits(limits: Limits, coord: [isize; 3]) -> bool {
    &&& axis_within(limits.from[0], limits.to[0], coord[0] as int)
    &&& axis_within(limits.from[1], limits.to[1], coord[1] as int)
    &&& axis_within(limits.from[2], limits.to[2], coord[2] as int)
}

/// The work owed to a slot at chunk coordinate `coord` that now holds `c`:
/// an empty slot is requested only within the limits.
pub open spec fn fetch_at<Q, E>(c: Chunk<Q, E>, limits: Limits, coord: [isize; 3]) -> Fetch {
    match c {
        Chunk::NotNeeded => if within_limits(limits, coord) {
            Fetch::Load
        } else {
            Fetch::Skip
        },
        _ => fetch_for(c),
    }
}

/// The plan for window position `(x, y, z)` when the corner of a window over
/// `old` with `limits` moves from `from` to `to`.
pub open spec fn plan_at<Q, E>(
    old: Seq<Chunk<Q, E>>,
    dims: [usize; 3],
    limits: Limits,
    from: [isize; 3],
    to: [isize; 3],
    x: int,
    y: int,
    z: int,
) -> ChunkPlan<E> {
    let off = shift(from, to);
    let coord = [(x + to[0]) as isize, (y + to[1]) as isize, (z + to[2]) as isize];
    ChunkPlan {
        index: slot(dims, x, y, z) as usize,
        coord,
        fetch: fetch_at(arriving(old, dims, off, x, y, z), limits, coord),
        dropped: ready_in(leaving(old, dims, off, x, y, z)),
        dropped_coord: [(x + from[0]) as isize, (y + from[1]) as isize, (z + from[2]) as isize],
    }
}

/// Moving the window's corner from `from` to `to` along an axis of `d` chunks
/// keeps every coordinate the walk computes within `isize`.
pub open spec fn shift_fits(d: usize, from: isize, to: isize) -> bool {
    &&& isize::MIN <= to - from <= isize::MAX
    &&& d == 0 || (to + d - 1 <= isize::MAX && to - from + d - 1 <= isize::MAX)
}

/// Looking up `coord` in a window with corner `origin` computes
/// `coord - origin` axis by axis, stopping at the first axis out of range.
pub open spec fn lookup_fits(coord: [isize; 3], origin: [isize; 3], dims: [usize; 3]) -> bool {
    let r = |i: int| 0 <= coord[i] - origin[i] < dims[i];
    let f = |i: int| isize::MIN <= coord[i] - origin[i] <= isize::MAX;
    f(0) && (r(0) ==> f(1) && (r(1) ==> f(2)))
}

/// Position of the window's corner that is centred on chunk `center`, kept
/// within the limits on each axis.
pub open spec fn clamp_origin(center: isize, d: usize, from: Option<isize>, to: Option<isize>) -> int {
    let o = center - d / 2;
    let lo = match from {
        Some(f) => if o < f { f as int } else { o },
        None => o,
    };
    match to {
        Some(t) => if t < lo { t as int } else { lo },
        None => lo,
    }
}

/// The corner of a window of `dims` chunks can move from `from` to `to`.
pub open spec fn window_shift_fits(dims: [usize; 3], from: [isize; 3], to: [isize; 3]) -> bool {
    &&& shift_fits(dims[0], from[0], to[0])
    &&& shift_fits(dims[1], from[1], to[1])
    &&& shift_fits(dims[2], from[2], to[2])
}

/// What slot `(x, y, z)` holds after the first `k` steps of the walk that
/// moves the window by `off`: its new chunk once visited; before that,
/// nothing if its chunk was already moved to a visited slot, else its old chunk.
#[verifier::opaque]
spec fn walked<Q, E>(old: Seq<Chunk<Q, E>>, dims: [usize; 3], off: [int; 3], k: int, x: int, y: int, z: int) -> Chunk<Q, E> {
    if walk_rank(dims, off, x, y, z) < k {
        arriving(old, dims, off, x, y, z)
    } else if in_window(dims, x - off[0], y - off[1], z - off[2])
        && walk_rank(dims, off, x - off[0], y - off[1], z - off[2]) < k {
        Chunk::NotNeeded
    } else {
        old[slot(dims, x, y, z)]
    }
}

/// Whether chunk coordinate `coord` lies within `limits`.
fn limits_hold(limits: &Limits, coord: [isize; 3]) -> (r: bool)
    ensures
        r == within_limits(*limits, coord),
{
    let mut i: usize = 0;
    while i < 3
        invariant
            0 <= i <= 3,
            forall|j: int| 0 <= j < i ==> axis_within(limits.from[j], limits.to[j], #[trigger] coord[j] as int),
        decreases 3 - i,
    {
        let c = coord[i];
        if let Some(f) = limits.from[i] {
            if c < f {
                return false;
            }
        }
        if let Some(t) = limits.to[i] {
            if t < c {
                return false;
            }
        }
        i = i + 1;
    }
    true
}

fn fetch_of<Q, E>(c: &Chunk<Q, E>) -> (r: Fetch)
    ensures
        r == fetch_for(*c),
{
    match c {
        Chunk::NotNeeded => Fetch::Load,
        Chunk::NotReady(_) => Fetch::Poll,
        Chunk::Ready(_) => Fetch::Keep,
    }
}

pub(crate) proof fn lemma_slot_bounds(dims: [usize; 3], x: int, y: int, z: int)
    requires
        in_window(dims, x, y, z),
    ensures
        0 <= slot(dims, x, y, z) < volume(dims),
        0 <= z * dims[0] <= z * dims[0] * dims[1] <= slot(dims, x, y, z),
        0 <= y * dims[0] <= slot(dims, x, y, z),
{
    let d0 = dims[0] as int;
    let d1 = dims[1] as int;
    let d2 = dims[2] as int;
    assert(0 <= z * d0 <= z * d0 * d1) by (nonlinear_arith)
        requires
            0 <= z, 1 <= d0, 1 <= d1,
    ;
    assert(0 <= y * d0) by (nonlinear_arith)
        requires
            0 <= y, 1 <= d0,
    ;
    assert(y * d0 + x < d0 * d1) by (nonlinear_arith)
        requires
            0 <= y < d1, 0 <= x < d0,
    ;
    assert(z * d0 * d1 + d0 * d1 <= d0 * d1 * d2) by (nonlinear_arith)
        requires
            0 <= z < d2, 1 <= d0, 1 <= d1,
    ;
}

proof fn lemma_slot_injective(dims: [usize; 3], x: int, y: int, z: int, a: int, b: int, c: int)
    requires
        in_window(dims, x, y, z),
        in_window(dims, a, b, c),
        slot(dims, x, y, z) == slot(dims, a, b, c),
    ensures
        x == a && y == b && z == c,
{
    let d0 = dims[0] as int;
    let d1 = dims[1] as int;
    let p = d0 * d1;
    assert(y * d0 + x < p && b * d0 + a < p) by (nonlinear_arith)
        requires
            0 <= y < d1, 0 <= x < d0, 0 <= b < d1, 0 <= a < d0, p == d0 * d1,
    ;
    assert(0 <= y * d0 && 0 <= b * d0) by (nonlinear_arith)
        requires
            0 <= y, 0 <= b, 0 <= d0,
    ;
    assert(z * d0 * d1 == p * z && c * d0 * d1 == p * c) by (nonlinear_arith)
        requires
            p == d0 * d1,
    ;
    let n = slot(dims, x, y, z);
    lemma_fundamental_div_mod_converse(n, p, z, y * d0 + x);
    lemma_fundamental_div_mod_converse(n, p, c, b * d0 + a);
    assert(y * d0 == d0 * y && b * d0 == d0 * b) by (nonlinear_arith);
    lemma_fundamental_div_mod_converse(y * d0 + x, d0, y, x);
    lemma_fundamental_div_mod_converse(b * d0 + a, d0, b, a);
}

proof fn lemma_slot_monotone(dims: [usize; 3], x: int, y: int, z: int, a: int, b: int, c: int)
    requires
        in_window(dims, x, y, z),
        in_window(dims, a, b, c),
        x <= a, y <= b, z <= c,
    ensures
        slot(dims, x, y, z) <= slot(dims, a, b, c),
        (x, y, z) != (a, b, c) ==> slot(dims, x, y, z) < slot(dims, a, b, c),
{
    let d0 = dims[0] as int;
    let d1 = dims[1] as int;
    assert(z * d0 * d1 <= c * d0 * d1) by (nonlinear_arith)
        requires
            z <= c, 0 <= d0, 0 <= d1,
    ;
    assert(y * d0 <= b * d0) by (nonlinear_arith)
        requires
            y <= b, 0 <= d0,
    ;
    if (x, y, z) != (a, b, c) {
        if z < c {
            assert(z * d0 * d1 + d0 * d1 <= c * d0 * d1) by (nonlinear_arith)
                requires
                    z < c, 0 <= d0, 0 <= d1,
            ;
            assert(y * d0 + x < d0 * d1 && 0 <= b * d0 + a) by (nonlinear_arith)
                requires
                    0 <= y < d1, 0 <= x < d0, 0 <= b, 0 <= a, 0 <= d0,
            ;
        } else if y < b {
            assert(y * d0 + d0 <= b * d0) by (nonlinear_arith)
                requires
                    y < b, 0 <= d0,
            ;
        }
    }
}

/// A window position has exactly one step of the walk, and a chunk that the
/// window keeps is never walked past before its new slot is reached.
proof fn lemma_rank_injective(dims: [usize; 3], off: [int; 3], x: int, y: int, z: int, a: int, b: int, c: int)
    requires
        in_window(dims, x, y, z),
        in_window(dims, a, b, c),
        walk_rank(dims, off, x, y, z) == walk_rank(dims, off, a, b, c),
    ensures
        x == a && y == b && z == c,
{
    lemma_slot_injective(
        dims,
        walk(dims[0] as int, off[0], x),
        walk(dims[1] as int, off[1], y),
        walk(dims[2] as int, off[2], z),
        walk(dims[0] as int, off[0], a),
        walk(dims[1] as int, off[1], b),
        walk(dims[2] as int, off[2], c),
    );
}

/// The source of a kept chunk is walked no earlier than its target, and
/// strictly later unless the window does not move.
proof fn lemma_source_after_target(dims: [usize; 3], off: [int; 3], x: int, y: int, z: int)
    requires
        in_window(dims, x, y, z),
        in_window(dims, x + off[0], y + off[1], z + off[2]),
    ensures
        walk_rank(dims, off, x, y, z) <= walk_rank(dims, off, x + off[0], y + off[1], z + off[2]),
        off[0] != 0 || off[1] != 0 || off[2] != 0 ==> walk_rank(dims, off, x, y, z) < walk_rank(
            dims,
            off,
            x + off[0],
            y + off[1],
            z + off[2],
        ),
{
    let d0 = dims[0] as int;
    let d1 = dims[1] as int;
    let d2 = dims[2] as int;
    lemma_slot_monotone(
        dims,
        walk(d0, off[0], x),
        walk(d1, off[1], y),
        walk(d2, off[2], z),
        walk(d0, off[0], x + off[0]),
        walk(d1, off[1], y + off[1]),
        walk(d2, off[2], z + off[2]),
    );
}

/// What the walk finds at its `k`-th position: the chunk that arrives there
/// is still in its old slot, and once it has been taken, the slot holds what
/// leaves the window.
proof fn lemma_walk_visit<Q, E>(
    old: Seq<Chunk<Q, E>>,
    dims: [usize; 3],
    off: [int; 3],
    k: int,
    before: Seq<Chunk<Q, E>>,
    x: int,
    y: int,
    z: int,
)
    requires
        before.len() == volume(dims),
        in_window(dims, x, y, z),
        walk_rank(dims, off, x, y, z) == k,
        forall|a: int, b: int, c: int|
            in_window(dims, a, b, c) ==> #[trigger] before[slot(dims, a, b, c)] == walked(old, dims, off, k, a, b, c),
    ensures
        in_window(dims, x + off[0], y + off[1], z + off[2]) ==> before[slot(
            dims,
            x + off[0],
            y + off[1],
            z + off[2],
        )] == arriving(old, dims, off, x, y, z),
        (if in_window(dims, x + off[0], y + off[1], z + off[2]) {
            before.update(slot(dims, x + off[0], y + off[1], z + off[2]), Chunk::NotNeeded)
        } else {
            before
        })[slot(dims, x, y, z)] == leaving(old, dims, off, x, y, z),
{
    reveal(walked);
    let moved = off[0] != 0 || off[1] != 0 || off[2] != 0;
    let (qx, qy, qz) = (x + off[0], y + off[1], z + off[2]);
    lemma_slot_bounds(dims, x, y, z);
    assert(before[slot(dims, x, y, z)] == walked(old, dims, off, k, x, y, z));
    if in_window(dims, qx, qy, qz) {
        lemma_slot_bounds(dims, qx, qy, qz);
        lemma_source_after_target(dims, off, x, y, z);
        if walk_rank(dims, off, qx, qy, qz) == k {
            lemma_rank_injective(dims, off, x, y, z, qx, qy, qz);
        }
        assert(before[slot(dims, qx, qy, qz)] == walked(old, dims, off, k, qx, qy, qz));
        assert(qx - off[0] == x && qy - off[1] == y && qz - off[2] == z);
        if moved && slot(dims, qx, qy, qz) == slot(dims, x, y, z) {
            lemma_slot_injective(dims, qx, qy, qz, x, y, z);
        }
    }
    if in_window(dims, x - off[0], y - off[1], z - off[2]) && moved {
        lemma_source_after_target(dims, off, x - off[0], y - off[1], z - off[2]);
        assert(x - off[0] + off[0] == x && y - off[1] + off[1] == y && z - off[2] + off[2] == z);
    }
}

/// One step of the walk: after the chunk arriving at the `k`-th position has
/// been moved there, the slots hold what `walked` says after `k + 1` steps.
proof fn lemma_walk_step<Q, E>(
    old: Seq<Chunk<Q, E>>,
    dims: [usize; 3],
    off: [int; 3],
    k: int,
    before: Seq<Chunk<Q, E>>,
    after: Seq<Chunk<Q, E>>,
    x: int,
    y: int,
    z: int,
)
    requires
        before.len() == volume(dims),
        in_window(dims, x, y, z),
        walk_rank(dims, off, x, y, z) == k,
        forall|a: int, b: int, c: int|
            in_window(dims, a, b, c) ==> #[trigger] before[slot(dims, a, b, c)] == walked(old, dims, off, k, a, b, c),
        after == (if in_window(dims, x + off[0], y + off[1], z + off[2]) {
            before.update(slot(dims, x + off[0], y + off[1], z + off[2]), Chunk::NotNeeded)
        } else {
            before
        }).update(slot(dims, x, y, z), arriving(old, dims, off, x, y, z)),
    ensures
        after.len() == volume(dims),
        forall|a: int, b: int, c: int|
            in_window(dims, a, b, c) ==> #[trigger] after[slot(dims, a, b, c)] == walked(old, dims, off, k + 1, a, b, c),
{
    reveal(walked);
    let (qx, qy, qz) = (x + off[0], y + off[1], z + off[2]);
    lemma_slot_bounds(dims, x, y, z);
    if in_window(dims, qx, qy, qz) {
        lemma_slot_bounds(dims, qx, qy, qz);
        lemma_source_after_target(dims, off, x, y, z);
    }
    assert forall|a: int, b: int, c: int| in_window(dims, a, b, c) implies #[trigger] after[slot(dims, a, b, c)]
        == walked(old, dims, off, k + 1, a, b, c) by {
        assert(before[slot(dims, a, b, c)] == walked(old, dims, off, k, a, b, c));
        lemma_slot_bounds(dims, a, b, c);
        if (a, b, c) != (x, y, z) {
            if slot(dims, a, b, c) == slot(dims, x, y, z) {
                lemma_slot_injective(dims, a, b, c, x, y, z);
            }
            if walk_rank(dims, off, a, b, c) == k {
                lemma_rank_injective(dims, off, a, b, c, x, y, z);
            }
            if in_window(dims, a - off[0], b - off[1], c - off[2]) && walk_rank(
                dims,
                off,
                a - off[0],
                b - off[1],
                c - off[2],
            ) == k {
                lemma_rank_injective(dims, off, a - off[0], b - off[1], c - off[2], x, y, z);
            }
            if in_window(dims, qx, qy, qz) && slot(dims, a, b, c) == slot(dims, qx, qy, qz) {
                lemma_slot_injective(dims, a, b, c, qx, qy, qz);
            }
        }
    }
}

/// Empty slot `src` (when given) into slot `index`. Returns the work owed to
/// `index` for the chunk it now holds, and the loaded chunk it gave up.
fn move_chunk<Q, E>(data: &mut Vec<Chunk<Q, E>>, index: usize, src: Option<usize>) -> (r: (Fetch, Option<E>))
    requires
        index < old(data)@.len(),
        src matches Some(s) ==> s < old(data)@.len(),
    ensures
        ({
            let mid = match src {
                Some(s) => old(data)@.update(s as int, Chunk::NotNeeded),
                None => old(data)@,
            };
            let moved = match src {
                Some(s) => old(data)@[s as int],
                None => Chunk::NotNeeded,
            };
            &&& final(data)@ == mid.update(index as int, moved)
            &&& r.0 == fetch_for(moved)
            &&& r.1 == ready_in(mid[index as int])
        }),
{
    let mut moved: Chunk<Q, E> = Chunk::NotNeeded;
    if let Some(s) = src {
        std::mem::swap(&mut moved, &mut data[s]);
    }
    let fetch = fetch_of(&moved);
    std::mem::swap(&mut moved, &mut data[index]);
    let dropped = match moved {
        Chunk::Ready(e) => Some(e),
        _ => None,
    };
    (fetch, dropped)
}

/// Advancing the walk's counters `(cx, cy, cz)`, x fastest, advances the step they stand for by one.
proof fn lemma_counter_step(n: int, d0: int, d1: int, d2: int, k0: int, cx0: int, cy0: int, cz0: int, cx: int, cy: int, cz: int)
    requires
        n == d0 * d1 * d2,
        k0 == cz0 * d0 * d1 + cy0 * d0 + cx0,
        0 <= cx0 < d0, 0 <= cy0 < d1, 0 <= cz0,
        (cx0 + 1 < d0 && cx == cx0 + 1 && cy == cy0 && cz == cz0) || (cx0 + 1 == d0 && cx == 0 && ((cy0 + 1 < d1
            && cy == cy0 + 1 && cz == cz0) || (cy0 + 1 == d1 && cy == 0 && cz == cz0 + 1))),
    ensures
        k0 + 1 == cz * d0 * d1 + cy * d0 + cx,
        k0 + 1 < n ==> cx < d0 && cy < d1 && cz < d2,
{
    assert(k0 + 1 == cz * d0 * d1 + cy * d0 + cx) by (nonlinear_arith)
        requires
            k0 == cz0 * d0 * d1 + cy0 * d0 + cx0,
            (cx0 + 1 < d0 && cx == cx0 + 1 && cy == cy0 && cz == cz0) || (cx0 + 1 == d0 && cx == 0 && ((cy0 + 1
                < d1 && cy == cy0 + 1 && cz == cz0) || (cy0 + 1 == d1 && cy == 0 && cz == cz0 + 1))),
    ;
    if k0 + 1 < n {
        assert(cz < d2) by (nonlinear_arith)
            requires
                k0 + 1 == cz * d0 * d1 + cy * d0 + cx,
                k0 + 1 < n,
                n == d0 * d1 * d2,
                cx >= 0, cy >= 0, cz >= 0, d0 >= 1, d1 >= 1,
        ;
    }
}

/// Appending the plan of the `k`-th position of the walk keeps every plan at
/// the step of its position.
proof fn lemma_plans_step<Q, E>(
    old: Seq<Chunk<Q, E>>,
    dims: [usize; 3],
    limits: Limits,
    from: [isize; 3],
    to: [isize; 3],
    k: int,
    plans: Seq<ChunkPlan<E>>,
    x: int,
    y: int,
    z: int,
)
    requires
        plans.len() == k + 1,
        in_window(dims, x, y, z),
        walk_rank(dims, shift(from, to), x, y, z) == k,
        plans[k] == plan_at(old, dims, limits, from, to, x, y, z),
        forall|a: int, b: int, c: int|
            in_window(dims, a, b, c) && walk_rank(dims, shift(from, to), a, b, c) < k ==> plans[#[trigger] walk_rank(
                dims,
                shift(from, to),
                a,
                b,
                c,
            )] == plan_at(old, dims, limits, from, to, a, b, c),
    ensures
        forall|a: int, b: int, c: int|
            in_window(dims, a, b, c) && walk_rank(dims, shift(from, to), a, b, c) < k + 1 ==> plans[#[trigger] walk_rank(
                dims,
                shift(from, to),
                a,
                b,
                c,
            )] == plan_at(old, dims, limits, from, to, a, b, c),
{
    assert forall|a: int, b: int, c: int|
        in_window(dims, a, b, c) && walk_rank(dims, shift(from, to), a, b, c) < k + 1 implies plans[#[trigger] walk_rank(
            dims,
            shift(from, to),
            a,
            b,
            c,
        )] == plan_at(old, dims, limits, from, to, a, b, c) by {
        if walk_rank(dims, shift(from, to), a, b, c) == k {
            lemma_rank_injective(dims, shift(from, to), a, b, c, x, y, z);
        }
    }
}

/// Slot of an in-window position, computed without overflow.
pub(crate) fn slot_of(dims: [usize; 3], x: usize, y: usize, z: usize) -> (r: usize)
    requires
        in_window(dims, x as int, y as int, z as int),
        volume(dims) <= isize::MAX,
    ensures
        r == slot(dims, x as int, y as int, z as int),
{
    proof {
        lemma_slot_bounds(dims, x as int, y as int, z as int);
    }
    z * dims[0] * dims[1] + y * dims[0] + x
}

impl<Q, E> VoxelWorld<Q, E> {
    pub closed spec fn spec_data(&self) -> Seq<Chunk<Q, E>> {
        self.data@
    }

    pub closed spec fn spec_dims(&self) -> [usize; 3] {
        self.dims
    }

    pub closed spec fn spec_origin(&self) -> [isize; 3] {
        self.origin
    }

    pub closed spec fn spec_loaded(&self) -> bool {
        self.loaded
    }

    pub closed spec fn spec_limits(&self) -> Limits {
        self.limits
    }

    /// The window holds one slot per position, its slots can be numbered by
    /// an `isize`, and the chunk coordinates it covers fit an `isize`.
    pub open spec fn wf(&self) -> bool {
        &&& self.spec_data().len() == volume(self.spec_dims())
        &&& volume(self.spec_dims()) <= isize::MAX
        &&& volume(self.spec_dims()) > 0 ==> {
            &&& self.spec_origin()[0] + self.spec_dims()[0] - 1 <= isize::MAX
            &&& self.spec_origin()[1] + self.spec_dims()[1] - 1 <= isize::MAX
            &&& self.spec_origin()[2] + self.spec_dims()[2] - 1 <= isize::MAX
        }
    }

    /// The chunk at window position `(x, y, z)`.
    pub open spec fn chunk_at(&self, x: int, y: int, z: int) -> Chunk<Q, E> {
        self.spec_data()[slot(self.spec_dims(), x, y, z)]
    }

    /// The window covers chunk coordinate `(x, y, z)`.
    pub open spec fn covers(&self, x: int, y: int, z: int) -> bool {
        in_window(
            self.spec_dims(),
            x - self.spec_origin()[0],
            y - self.spec_origin()[1],
            z - self.spec_origin()[2],
        )
    }

    /// The chunk at chunk coordinate `(x, y, z)`, where the window covers it.
    pub open spec fn chunk_at_coord(&self, x: int, y: int, z: int) -> Chunk<Q, E> {
        self.chunk_at(x - self.spec_origin()[0], y - self.spec_origin()[1], z - self.spec_origin()[2])
    }

    /// Create a new world with a window of `dims` chunks, none of them needed yet.
    pub fn new(dims: [usize; 3]) -> (r: Self)
        requires
            dims[0] * dims[1] <= usize::MAX,
            volume(dims) <= isize::MAX,
        ensures
            r.wf(),
            r.spec_dims() == dims,
            r.spec_origin() == [0isize, 0isize, 0isize],
            !r.spec_loaded(),
            r.spec_limits() == (Limits { from: [None, None, None], to: [None, None, None] }),
            forall|i: int| 0 <= i < r.spec_data().len() ==> r.spec_data()[i] is NotNeeded,
    {
        let n = dims[0] * dims[1] * dims[2];
        let mut data: Vec<Chunk<Q, E>> = Vec::new();
        let mut i: usize = 0;
        while i < n
            invariant
                0 <= i <= n,
                data@.len() == i,
                forall|j: int| 0 <= j < i ==> data@[j] is NotNeeded,
            decreases n - i,
        {
            data.push(Chunk::NotNeeded);
            i = i + 1;
        }
        proof {
            let (d0, d1, d2) = (dims[0] as int, dims[1] as int, dims[2] as int);
            if volume(dims) > 0 {
                assert(d0 <= d0 * d1 * d2 && d1 <= d0 * d1 * d2 && d2 <= d0 * d1 * d2) by (nonlinear_arith)
                    requires
                        d0 * d1 * d2 > 0, d0 >= 0, d1 >= 0, d2 >= 0,
                ;
            }
        }
        VoxelWorld {
            loaded: false,
            limits: Limits { from: [None, None, None], to: [None, None, None] },
            data,
            dims,
            origin: [0, 0, 0],
        }
    }

    /// The slot that holds chunk coordinate `coord`, if the window covers it.
    pub fn chunk_index(&self, coord: [isize; 3]) -> (r: Option<usize>)
        requires
            self.wf(),
            lookup_fits(coord, self.spec_origin(), self.spec_dims()),
        ensures
            ({
                let (x, y, z) = (
                    coord[0] - self.spec_origin()[0],
                    coord[1] - self.spec_origin()[1],
                    coord[2] - self.spec_origin()[2],
                );
                match r {
                    Some(i) => in_window(self.spec_dims(), x, y, z) && i == slot(self.spec_dims(), x, y, z),
                    None => !in_window(self.spec_dims(), x, y, z),
                }
            }),
    {
        let c0 = coord[0] - self.origin[0];
        if c0 < 0 || c0 as usize >= self.dims[0] {
            return None;
        }
        let c1 = coord[1] - self.origin[1];
        if c1 < 0 || c1 as usize >= self.dims[1] {
            return None;
        }
        let c2 = coord[2] - self.origin[2];
        if c2 < 0 || c2 as usize >= self.dims[2] {
            return None;
        }
        Some(slot_of(self.dims, c0 as usize, c1 as usize, c2 as usize))
    }

    /// The loaded chunk at chunk coordinate `coord`, if the window covers it
    /// and the chunk is loaded.
    pub fn get(&self, coord: [isize; 3]) -> (r: Option<&E>)
        requires
            self.wf(),
            lookup_fits(coord, self.spec_origin(), self.spec_dims()),
        ensures
            ({
                let (x, y, z) = (
                    coord[0] - self.spec_origin()[0],
                    coord[1] - self.spec_origin()[1],
                    coord[2] - self.spec_origin()[2],
                );
                if in_window(self.spec_dims(), x, y, z) {
                    match self.chunk_at(x, y, z) {
                        Chunk::Ready(e) => r == Some(&e),
                        _ => r.is_none(),
                    }
                } else {
                    r.is_none()
                }
            }),
    {
        match self.chunk_index(coord) {
            Some(i) => {
                proof {
                    let (x, y, z) = (
                        coord[0] - self.spec_origin()[0],
                        coord[1] - self.spec_origin()[1],
                        coord[2] - self.spec_origin()[2],
                    );
                    lemma_slot_bounds(self.dims, x, y, z);
                }
                self.data[i].get()
            },
            None => None,
        }
    }

    /// Move the window so that its lowest corner is the chunk coordinate
    /// `origin`. Every chunk whose coordinate stays in the window moves to
    /// the slot of that coordinate; the other slots are emptied. The result
    /// lists, in the order the slots are walked, what each slot now needs
    /// (an empty slot past the world's limits is not requested), and which
    /// loaded chunk left the window from it, with the coordinate it had.
    #[verifier::rlimit(60)]
    pub fn recenter(&mut self, origin: [isize; 3]) -> (plans: Vec<ChunkPlan<E>>)
        requires
            old(self).wf(),
            window_shift_fits(old(self).spec_dims(), old(self).spec_origin(), origin),
        ensures
            final(self).wf(),
            final(self).spec_dims() == old(self).spec_dims(),
            final(self).spec_origin() == origin,
            final(self).spec_loaded() == old(self).spec_loaded(),
            final(self).spec_limits() == old(self).spec_limits(),
            forall|x: int, y: int, z: int|
                in_window(old(self).spec_dims(), x, y, z) ==> #[trigger] final(self).chunk_at(x, y, z)
                    == arriving(
                    old(self).spec_data(),
                    old(self).spec_dims(),
                    shift(old(self).spec_origin(), origin),
                    x,
                    y,
                    z,
                ),
            forall|x: int, y: int, z: int|
                old(self).covers(x, y, z) && final(self).covers(x, y, z) ==> #[trigger] final(self).chunk_at_coord(
                    x,
                    y,
                    z,
                ) == old(self).chunk_at_coord(x, y, z),
            forall|x: int, y: int, z: int|
                !old(self).covers(x, y, z) && final(self).covers(x, y, z) ==> #[trigger] final(self).chunk_at_coord(
                    x,
                    y,
                    z,
                ) is NotNeeded,
            forall|x: int, y: int, z: int|
                old(self).covers(x, y, z) && !final(self).covers(x, y, z) ==> plans@[walk_rank(
                    old(self).spec_dims(),
                    shift(old(self).spec_origin(), origin),
                    x - old(self).spec_origin()[0],
                    y - old(self).spec_origin()[1],
                    z - old(self).spec_origin()[2],
                )].dropped == ready_in(#[trigger] old(self).chunk_at_coord(x, y, z)) && plans@[walk_rank(
                    old(self).spec_dims(),
                    shift(old(self).spec_origin(), origin),
                    x - old(self).spec_origin()[0],
                    y - old(self).spec_origin()[1],
                    z - old(self).spec_origin()[2],
                )].dropped_coord == [x as isize, y as isize, z as isize],
            plans@.len() == volume(old(self).spec_dims()),
            forall|i: int|
                0 <= i < plans@.len() && (#[trigger] plans@[i]).fetch is Load ==> within_limits(
                    old(self).spec_limits(),
                    plans@[i].coord,
                ),
            forall|x: int, y: int, z: int|
                in_window(old(self).spec_dims(), x, y, z) ==> plans@[#[trigger] walk_rank(
                    old(self).spec_dims(),
                    shift(old(self).spec_origin(), origin),
                    x,
                    y,
                    z,
                )] == plan_at(
                    old(self).spec_data(),
                    old(self).spec_dims(),
                    old(self).spec_limits(),
                    old(self).spec_origin(),
                    origin,
                    x,
                    y,
                    z,
                ),
    {
        let ghost old_data = self.data@;
        let ghost dims = self.dims;
        let ghost from = self.origin;
        let ghost off = shift(from, origin);
        let ghost loaded = self.loaded;
        let ghost limits = self.limits;
        let d0 = self.dims[0];
        let d1 = self.dims[1];
        let d2 = self.dims[2];
        let o0: isize = origin[0] - self.origin[0];
        let o1: isize = origin[1] - self.origin[1];
        let o2: isize = origin[2] - self.origin[2];
        let n = self.data.len();
        let mut plans: Vec<ChunkPlan<E>> = Vec::new();
        let mut k: usize = 0;
        let mut cx: usize = 0;
        let mut cy: usize = 0;
        let mut cz: usize = 0;
        proof {
            assert forall|x: int, y: int, z: int| in_window(dims, x, y, z) implies #[trigger] self.data@[slot(
                dims,
                x,
                y,
                z,
            )] == walked(old_data, dims, off, 0, x, y, z) by {
                reveal(walked);
                let (a, b, c) = (x - off[0], y - off[1], z - off[2]);
                if in_window(dims, a, b, c) {
                    lemma_slot_bounds(
                        dims,
                        walk(dims[0] as int, off[0], a),
                        walk(dims[1] as int, off[1], b),
                        walk(dims[2] as int, off[2], c),
                    );
                }
                lemma_slot_bounds(
                    dims,
                    walk(dims[0] as int, off[0], x),
                    walk(dims[1] as int, off[1], y),
                    walk(dims[2] as int, off[2], z),
                );
            }
            assert(0 * d0 * d1 == 0) by (nonlinear_arith);
            if n > 0 {
                assert(1 <= d0 <= n && 1 <= d1 <= n && 1 <= d2 <= n) by (nonlinear_arith)
                    requires
                        n == d0 * d1 * d2, n > 0, d0 >= 0, d1 >= 0, d2 >= 0,
                ;
            }
        }
        while k < n
            invariant
                n == volume(dims),
                n <= isize::MAX,
                n > 0 ==> 1 <= d0 <= n && 1 <= d1 <= n && 1 <= d2 <= n,
                n > 0 ==> from[0] + d0 - 1 <= isize::MAX && from[1] + d1 - 1 <= isize::MAX && from[2] + d2 - 1
                    <= isize::MAX,
                self.data@.len() == n,
                self.dims == dims,
                self.origin == from,
                self.loaded == loaded,
                self.limits == limits,
                dims[0] == d0 && dims[1] == d1 && dims[2] == d2,
                off == shift(from, origin),
                off[0] == o0 && off[1] == o1 && off[2] == o2,
                window_shift_fits(dims, from, origin),
                0 <= k <= n,
                k == cz * d0 * d1 + cy * d0 + cx,
                k < n ==> cx < d0 && cy < d1 && cz < d2,
                plans@.len() == k,
                forall|i: int|
                    0 <= i < k && (#[trigger] plans@[i]).fetch is Load ==> within_limits(limits, plans@[i].coord),
                forall|x: int, y: int, z: int|
                    in_window(dims, x, y, z) && walk_rank(dims, off, x, y, z) < k ==> plans@[#[trigger] walk_rank(
                        dims,
                        off,
                        x,
                        y,
                        z,
                    )] == plan_at(old_data, dims, limits, from, origin, x, y, z),
                forall|x: int, y: int, z: int|
                    in_window(dims, x, y, z) ==> #[trigger] self.data@[slot(dims, x, y, z)] == walked(
                        old_data,
                        dims,
                        off,
                        k as int,
                        x,
                        y,
                        z,
                    ),
            decreases n - k,
        {
            let x: usize = if o0 < 0 { d0 - 1 - cx } else { cx };
            let y: usize = if o1 < 0 { d1 - 1 - cy } else { cy };
            let z: usize = if o2 < 0 { d2 - 1 - cz } else { cz };
            let ghost (px, py, pz) = (x as int, y as int, z as int);
            assert(walk_rank(dims, off, px, py, pz) == k);
            let index = slot_of(self.dims, x, y, z);
            let sx: isize = x as isize + o0;
            let sy: isize = y as isize + o1;
            let sz: isize = z as isize + o2;
            let ghost (qx, qy, qz) = (sx as int, sy as int, sz as int);
            let ghost data0 = self.data@;
            proof {
                lemma_walk_visit(old_data, dims, off, k as int, data0, px, py, pz);
                lemma_slot_bounds(dims, px, py, pz);
            }
            let src: Option<usize> = if 0 <= sx && sx < d0 as isize && 0 <= sy && sy < d1 as isize && 0 <= sz
                && sz < d2 as isize {
                proof {
                    lemma_slot_bounds(dims, qx, qy, qz);
                }
                Some(slot_of(self.dims, sx as usize, sy as usize, sz as usize))
            } else {
                None
            };
            let (fetch, dropped) = move_chunk(&mut self.data, index, src);
            let coord = [x as isize + origin[0], y as isize + origin[1], z as isize + origin[2]];
            let fetch = if fetch == Fetch::Load && !limits_hold(&self.limits, coord) {
                Fetch::Skip
            } else {
                fetch
            };
            let plan = ChunkPlan {
                index,
                coord,
                fetch,
                dropped,
                dropped_coord: [x as isize + self.origin[0], y as isize + self.origin[1], z as isize + self.origin[2]],
            };
            proof {
                assert(plan == plan_at(old_data, dims, limits, from, origin, px, py, pz));
            }
            plans.push(plan);
            proof {
                lemma_walk_step(old_data, dims, off, k as int, data0, self.data@, px, py, pz);
                lemma_plans_step(old_data, dims, limits, from, origin, k as int, plans@, px, py, pz);
            }
            let ghost (k0, cx0, cy0, cz0) = (k as int, cx as int, cy as int, cz as int);
            k = k + 1;
            cx = cx + 1;
            if cx == d0 {
                cx = 0;
                cy = cy + 1;
                if cy == d1 {
                    cy = 0;
                    cz = cz + 1;
                }
            }
            proof {
                lemma_counter_step(n as int, d0 as int, d1 as int, d2 as int, k0, cx0, cy0, cz0, cx as int, cy as int, cz as int);
            }
        }
        proof {
            assert forall|x: int, y: int, z: int| in_window(dims, x, y, z) implies walk_rank(dims, off, x, y, z) < n
                && self.data@[slot(dims, x, y, z)] == arriving(old_data, dims, off, x, y, z) by {
                reveal(walked);
                assert(self.data@[slot(dims, x, y, z)] == walked(old_data, dims, off, n as int, x, y, z));
                lemma_slot_bounds(
                    dims,
                    walk(dims[0] as int, off[0], x),
                    walk(dims[1] as int, off[1], y),
                    walk(dims[2] as int, off[2], z),
                );
            }
        }
        self.origin = origin;
        proof {
            assert forall|x: int, y: int, z: int| old(self).covers(x, y, z) && !self.covers(x, y, z) implies plans@[walk_rank(
                dims,
                off,
                x - from[0],
                y - from[1],
                z - from[2],
            )].dropped == ready_in(#[trigger] old(self).chunk_at_coord(x, y, z)) by {
                let (a, b, c) = (x - from[0], y - from[1], z - from[2]);
                assert(a - off[0] == x - origin[0] && b - off[1] == y - origin[1] && c - off[2] == z - origin[2]);
                assert(plans@[walk_rank(dims, off, a, b, c)] == plan_at(old_data, dims, limits, from, origin, a, b, c));
            }
            assert forall|x: int, y: int, z: int| self.covers(x, y, z) implies #[trigger] self.chunk_at_coord(x, y, z)
                == if old(self).covers(x, y, z) { old(self).chunk_at_coord(x, y, z) } else { Chunk::NotNeeded } by {
                let (a, b, c) = (x - origin[0], y - origin[1], z - origin[2]);
                assert(a + off[0] == x - from[0] && b + off[1] == y - from[1] && c + off[2] == z - from[2]);
                assert(self.chunk_at(a, b, c) == arriving(old_data, dims, off, a, b, c));
            }
        }
        plans
    }

    /// The slot of window position `pos`, if the window has it.
    pub fn slot_at(&self, pos: [isize; 3]) -> (r: Option<usize>)
        requires
            self.wf(),
        ensures
            match r {
                Some(i) => in_window(self.spec_dims(), pos[0] as int, pos[1] as int, pos[2] as int) && i == slot(
                    self.spec_dims(),
                    pos[0] as int,
                    pos[1] as int,
                    pos[2] as int,
                ),
                None => !in_window(self.spec_dims(), pos[0] as int, pos[1] as int, pos[2] as int),
            },
    {
        if 0 <= pos[0] && (pos[0] as usize) < self.dims[0] && 0 <= pos[1] && (pos[1] as usize) < self.dims[1]
            && 0 <= pos[2] && (pos[2] as usize) < self.dims[2] {
            Some(slot_of(self.dims, pos[0] as usize, pos[1] as usize, pos[2] as usize))
        } else {
            None
        }
    }

    /// The corner of the window centred on chunk `center`, kept within the
    /// world's limits on each axis.
    pub fn window_origin(&self, center: [isize; 3]) -> (r: [isize; 3])
        requires
            forall|i: int| 0 <= i < 3 ==> center[i] - self.spec_dims()[i] / 2 >= isize::MIN,
        ensures
            forall|i: int|
                0 <= i < 3 ==> r[i] == clamp_origin(
                    #[trigger] center[i],
                    self.spec_dims()[i],
                    self.spec_limits().from[i],
                    self.spec_limits().to[i],
                ),
    {
        let mut r: [isize; 3] = [0, 0, 0];
        let mut i: usize = 0;
        while i < 3
            invariant
                0 <= i <= 3,
                forall|j: int| 0 <= j < 3 ==> center[j] - self.spec_dims()[j] / 2 >= isize::MIN,
                forall|j: int|
                    0 <= j < i ==> r[j] == clamp_origin(
                        #[trigger] center[j],
                        self.spec_dims()[j],
                        self.spec_limits().from[j],
                        self.spec_limits().to[j],
                    ),
            decreases 3 - i,
        {
            let half = (self.dims[i] / 2) as isize;
            let o = center[i] - half;
            let lo = match self.limits.from[i] {
                Some(f) => if o < f { f } else { o },
                None => o,
            };
            let v = match self.limits.to[i] {
                Some(t) => if t < lo { t } else { lo },
                None => lo,
            };
            r[i] = v;
            i = i + 1;
        }
        r
    }

    /// The chunk in slot `index`.
    pub fn chunk(&self, index: usize) -> (r: &Chunk<Q, E>)
        requires
            index < self.spec_data().len(),
        ensures
            *r == self.spec_data()[index as int],
    {
        &self.data[index]
    }

    /// Put `chunk` in slot `index`.
    pub fn install(&mut self, index: usize, chunk: Chunk<Q, E>)
        requires
            index < old(self).spec_data().len(),
        ensures
            final(self).spec_data() == old(self).spec_data().update(index as int, chunk),
            final(self).spec_dims() == old(self).spec_dims(),
            final(self).spec_origin() == old(self).spec_origin(),
            final(self).spec_loaded() == old(self).spec_loaded(),
            final(self).spec_limits() == old(self).spec_limits(),
    {
        self.data.set(index, chunk);
    }

    /// Fill slot `index` with what the source answered to its request: a
    /// loaded or pending chunk goes into the slot; a request to retry leaves
    /// the slot empty and marks the world as not fully loaded.
    pub fn settle(&mut self, index: usize, answer: Answer<Q, E>)
        requires
            index < old(self).spec_data().len(),
        ensures
            final(self).spec_data() == match answer {
                Answer::Ready(e) => old(self).spec_data().update(index as int, Chunk::Ready(e)),
                Answer::Pending(q) => old(self).spec_data().update(index as int, Chunk::NotReady(q)),
                Answer::Retry => old(self).spec_data(),
            },
            final(self).spec_loaded() == (old(self).spec_loaded() && !(answer is Retry)),
            final(self).spec_dims() == old(self).spec_dims(),
            final(self).spec_origin() == old(self).spec_origin(),
            final(self).spec_limits() == old(self).spec_limits(),
    {
        match answer {
            Answer::Ready(e) => self.data.set(index, Chunk::Ready(e)),
            Answer::Pending(q) => self.data.set(index, Chunk::NotReady(q)),
            Answer::Retry => self.loaded = false,
        }
    }

    /// Record the limits of the source that fills this world.
    pub fn set_limits(&mut self, limits: Limits)
        ensures
            final(self).spec_limits() == limits,
            final(self).spec_data() == old(self).spec_data(),
            final(self).spec_dims() == old(self).spec_dims(),
            final(self).spec_origin() == old(self).spec_origin(),
            final(self).spec_loaded() == old(self).spec_loaded(),
    {
        self.limits = limits;
    }

    /// Record that a chunk could not be requested yet.
    pub fn mark_unloaded(&mut self)
        ensures
            !final(self).spec_loaded(),
            final(self).spec_limits() == old(self).spec_limits(),
            final(self).spec_data() == old(self).spec_data(),
            final(self).spec_dims() == old(self).spec_dims(),
            final(self).spec_origin() == old(self).spec_origin(),
    {
        self.loaded = false;
    }

    /// Whether every chunk of the window could be requested.
    pub fn is_loaded(&self) -> (r: bool)
        ensures
            r == self.spec_loaded(),
    {
        self.loaded
    }

    /// The limits of the source that fills this world.
    pub fn limits(&self) -> (r: Limits)
        ensures
            r == self.spec_limits(),
    {
        self.limits
    }

    /// Number of chunks of the window along each axis.
    pub fn dims(&self) -> (r: [usize; 3])
        ensures
            r == self.spec_dims(),
    {
        self.dims
    }

    /// Chunk coordinate of the window's lowest corner.
    pub fn origin(&self) -> (r: [isize; 3])
        ensures
            r == self.spec_origin(),
    {
        self.origin
    }

}


/// System that keeps the worlds loaded around the camera.
pub struct WorldLoaderSystem<V>(pub core::marker::PhantomData<V>);

impl<V> WorldLoaderSystem<V> {
    pub fn new() -> (r: Self) {
        WorldLoaderSystem(core::marker::PhantomData)
    }
}


/// Moving the window onto its own corner keeps every chunk in its slot, and
/// no chunk leaves the window.
pub proof fn lemma_recenter_in_place<Q, E>(old: Seq<Chunk<Q, E>>, dims: [usize; 3], x: int, y: int, z: int)
    requires
        in_window(dims, x, y, z),
    ensures
        arriving(old, dims, [0int, 0int, 0int], x, y, z) == old[slot(dims, x, y, z)],
        leaving(old, dims, [0int, 0int, 0int], x, y, z) is NotNeeded,
{
}

} // verus!

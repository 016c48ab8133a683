use vstd::prelude::*;
use crate::geometry::{
    Rect, rect_wf, spec_overlaps, spec_distance, spec_center_x, spec_center_y,
    is_closest, closest_idx, lemma_closest_unique, lemma_overlaps_self, lemma_center_in_interior,
    MAX_GRID_DIM,
};
use crate::tile::{
    Grid, Tile, grid_wf, in_interior, in_h_run, in_v_run, floor_tile, wall_tile, create_room,
    make_h_tunnel, make_v_tunnel,
};
use crate::rng::{rand_range, rand_coin};

verus! {

/// Bounds and budgets for dungeon generation: room dimensions are drawn
/// from `[min_room_size, max_room_size)`, at most `max_room_attempts`
/// candidates are tried, and a candidate after the first must lie within
/// `max_connection_distance` of an accepted room.
#[derive(Clone, Copy, Debug, PartialEq, Eq, Structural)]
pub struct MapGenConfig {
    pub min_room_size: i32,
    pub max_room_size: i32,
    pub max_room_attempts: i32,
    pub max_connection_distance: i32,
}

/// Why a configuration was rejected.
#[derive(Clone, Copy, Debug, PartialEq, Eq, Structural)]
pub enum ConfigError {
    /// The smallest room dimension must be at least one cell.
    RoomSizeNotPositive,
    /// Dimensions are drawn from `[min, max)`, so the minimum must lie
    /// strictly below the maximum.
    EmptyRoomSizeRange,
    /// The attempt budget cannot be negative.
    NegativeAttemptBudget,
}

/// A configuration the sampler can always satisfy.
pub open spec fn config_wf(c: MapGenConfig) -> bool {
    1 <= c.min_room_size && c.min_room_size < c.max_room_size && 0 <= c.max_room_attempts
}

/// Rooms drawn under `c` always fit a `w` by `h` grid: the widest possible
/// room still leaves a free column and row for the sampled origin.
pub open spec fn config_fits(c: MapGenConfig, w: int, h: int) -> bool {
    c.max_room_size <= w && c.max_room_size <= h
}

impl MapGenConfig {
    /// Validate a configuration eagerly: once these checks pass, sampling
    /// can never fail mid-generation.
    pub fn new(
        min_room_size: i32,
        max_room_size: i32,
        max_room_attempts: i32,
        max_connection_distance: i32,
    ) -> (r: Result<MapGenConfig, ConfigError>)
        ensures
            r == (if min_room_size < 1 {
                Err::<MapGenConfig, ConfigError>(ConfigError::RoomSizeNotPositive)
            } else if min_room_size >= max_room_size {
                Err::<MapGenConfig, ConfigError>(ConfigError::EmptyRoomSizeRange)
            } else if max_room_attempts < 0 {
                Err::<MapGenConfig, ConfigError>(ConfigError::NegativeAttemptBudget)
            } else {
                Ok::<MapGenConfig, ConfigError>(
                    MapGenConfig {
                        min_room_size,
                        max_room_size,
                        max_room_attempts,
                        max_connection_distance,
                    },
                )
            }),
            r is Ok ==> config_wf(r->Ok_0),
    {
        if min_room_size < 1 {
            Err(ConfigError::RoomSizeNotPositive)
        } else if min_room_size >= max_room_size {
            Err(ConfigError::EmptyRoomSizeRange)
        } else if max_room_attempts < 0 {
            Err(ConfigError::NegativeAttemptBudget)
        } else {
            Ok(
                MapGenConfig {
                    min_room_size,
                    max_room_size,
                    max_room_attempts,
                    max_connection_distance,
                },
            )
        }
    }

    /// Eager check that rooms drawn under this configuration fit the grid.
    pub fn fits_grid(&self, width: i32, height: i32) -> (b: bool)
        ensures
            b == config_fits(*self, width as int, height as int),
    {
        self.max_room_size <= width && self.max_room_size <= height
    }
}

/// The room is a well-formed rectangle lying fully inside a `w` by `h`
/// grid.
pub open spec fn room_fits(r: Rect, w: int, h: int) -> bool {
    rect_wf(r) && 0 <= r.x1 && r.x2 <= w && 0 <= r.y1 && r.y2 <= h
}

/// What placement guarantees of a finished (or in-progress) dungeon: the
/// grid has its full dimensions; every accepted room fits the grid; no two
/// accepted rooms overlap; every accepted room's interior is carved to
/// floor; and the start position is the center of the first accepted room.
pub open spec fn placement_ok(
    rooms: Seq<Rect>,
    g: Seq<Vec<Tile>>,
    start: (i32, i32),
    w: int,
    h: int,
) -> bool {
    &&& grid_wf(g, w, h)
    &&& forall|i: int| 0 <= i < rooms.len() ==> room_fits(#[trigger] rooms[i], w, h)
    &&& forall|i: int, j: int|
        #![trigger rooms[i], rooms[j]]
        0 <= i < j < rooms.len() ==> !spec_overlaps(rooms[i], rooms[j])
    &&& forall|i: int, x: int, y: int|
        0 <= i < rooms.len() && #[trigger] in_interior(rooms[i], x, y) ==> g[x]@[y] == floor_tile()
    &&& rooms.len() > 0 ==> ((start.0 as int) == spec_center_x(rooms[0]) && (start.1 as int)
        == spec_center_y(rooms[0]))
}

/// No two distinct accepted rooms of a placement overlap, whichever order
/// they are compared in.
pub proof fn lemma_rooms_disjoint(
    rooms: Seq<Rect>,
    g: Seq<Vec<Tile>>,
    start: (i32, i32),
    w: int,
    h: int,
    i: int,
    j: int,
)
    requires
        placement_ok(rooms, g, start, w, h),
        0 <= i < rooms.len(),
        0 <= j < rooms.len(),
        i != j,
    ensures
        !spec_overlaps(rooms[i], rooms[j]),
{
}

/// Every cell of every accepted room's interior is floor: carving a room
/// sets its whole interior, and no later carve ever walls a cell back up.
pub proof fn lemma_room_interiors_floor(
    rooms: Seq<Rect>,
    g: Seq<Vec<Tile>>,
    start: (i32, i32),
    w: int,
    h: int,
    i: int,
    x: int,
    y: int,
)
    requires
        placement_ok(rooms, g, start, w, h),
        0 <= i < rooms.len(),
        in_interior(rooms[i], x, y),
    ensures
        g[x]@[y] == floor_tile(),
        !g[x]@[y].blocks,
{
}

/// An attempt's acceptance test: the candidate must overlap no accepted
/// room, and — unless it is the very first room — lie strictly within the
/// connection distance of at least one accepted room. The first candidate
/// is accepted unconditionally.
pub open spec fn spec_accepts(rooms: Seq<Rect>, cand: Rect, max_dist: int) -> bool {
    (forall|j: int| 0 <= j < rooms.len() ==> !spec_overlaps(cand, #[trigger] rooms[j])) && (
    rooms.len() == 0 || exists|j: int|
        0 <= j < rooms.len() && spec_distance(cand, #[trigger] rooms[j]) < max_dist)
}

/// The cells a successful placement turns to floor: the candidate's
/// interior, plus — for every room after the first — the L-shaped corridor
/// between the nearest accepted room's center and the candidate's center.
/// `coin` picks whether the horizontal or the vertical leg is carved from
/// the neighbor's center first.
pub open spec fn placed_floor(rooms: Seq<Rect>, cand: Rect, coin: bool, x: int, y: int) -> bool {
    in_interior(cand, x, y) || (rooms.len() > 0 && {
        let near = rooms[closest_idx(cand, rooms)];
        let cx = spec_center_x(near);
        let cy = spec_center_y(near);
        let nx = spec_center_x(cand);
        let ny = spec_center_y(cand);
        if coin {
            in_h_run(cy, cx, nx, x, y) || in_v_run(nx, cy, ny, x, y)
        } else {
            in_v_run(cx, cy, ny, x, y) || in_h_run(ny, cx, nx, x, y)
        }
    })
}

/// Placement is a function of its random draws: from equal room sequences,
/// an attempt with the same drawn candidate and the same coin is accepted
/// under the same condition and turns exactly the same cells to floor, so
/// a fixed draw sequence always produces the same dungeon.
pub proof fn lemma_placement_deterministic(
    rooms1: Seq<Rect>,
    rooms2: Seq<Rect>,
    cand: Rect,
    coin: bool,
    max_dist: int,
    x: int,
    y: int,
)
    requires
        rooms1 == rooms2,
    ensures
        spec_accepts(rooms1, cand, max_dist) == spec_accepts(rooms2, cand, max_dist),
        placed_floor(rooms1, cand, coin, x, y) == placed_floor(rooms2, cand, coin, x, y),
{
}

/// The room's spans are sizes the sampler can draw under `c`: both lie in
/// `[min_room_size, max_room_size)`.
pub open spec fn room_sized(r: Rect, c: MapGenConfig) -> bool {
    c.min_room_size <= r.x2 - r.x1 < c.max_room_size && c.min_room_size <= r.y2 - r.y1
        < c.max_room_size
}

/// The accepted-room sequence that replaying the drawn candidates
/// produces: each candidate is appended exactly when the acceptance test
/// passes against the rooms accepted before it.
pub open spec fn accepted_rooms(cands: Seq<Rect>, max_dist: int) -> Seq<Rect>
    decreases cands.len(),
{
    if cands.len() == 0 {
        Seq::empty()
    } else {
        let prev = accepted_rooms(cands.drop_last(), max_dist);
        if spec_accepts(prev, cands.last(), max_dist) {
            prev.push(cands.last())
        } else {
            prev
        }
    }
}

/// The coin flips consumed by the accepted attempts, aligned entry for
/// entry with `accepted_rooms`.
pub open spec fn accepted_coins(cands: Seq<Rect>, coins: Seq<bool>, max_dist: int) -> Seq<bool>
    decreases cands.len(),
{
    if cands.len() == 0 {
        Seq::empty()
    } else {
        let prev = accepted_coins(cands.drop_last(), coins.drop_last(), max_dist);
        if spec_accepts(accepted_rooms(cands.drop_last(), max_dist), cands.last(), max_dist) {
            prev.push(coins.last())
        } else {
            prev
        }
    }
}

/// `(x, y)` was carved by some accepted placement step: it lies in that
/// step's room interior or on the corridor the step carved toward its
/// nearest predecessor.
pub open spec fn carved_cells(rooms: Seq<Rect>, coins: Seq<bool>, x: int, y: int) -> bool
    decreases rooms.len(),
{
    if rooms.len() == 0 {
        false
    } else {
        carved_cells(rooms.drop_last(), coins.drop_last(), x, y) || placed_floor(
            rooms.drop_last(),
            rooms.last(),
            coins.last(),
            x,
            y,
        )
    }
}

/// The dungeon that replaying the drawn candidates and coins produces.
/// Besides the placement guarantees (`placement_ok` of the accepted
/// rooms), every in-range cell is floor exactly when some accepted step
/// carved it and is wall otherwise — so the floor set is precisely the
/// union of accepted-room interiors and their corridors, and every cell is
/// one of the two tile values. With no accepted room the start stays at
/// the origin.
pub open spec fn replay_ok(
    cands: Seq<Rect>,
    coins: Seq<bool>,
    max_dist: int,
    g: Seq<Vec<Tile>>,
    start: (i32, i32),
    w: int,
    h: int,
) -> bool {
    let rooms = accepted_rooms(cands, max_dist);
    let rcoins = accepted_coins(cands, coins, max_dist);
    &&& placement_ok(rooms, g, start, w, h)
    &&& rooms.len() == 0 ==> start == (0i32, 0i32)
    &&& forall|x: int, y: int|
        0 <= x < w && 0 <= y < h ==> (#[trigger] g[x]@[y]) == (if carved_cells(
            rooms,
            rcoins,
            x,
            y,
        ) {
            floor_tile()
        } else {
            wall_tile()
        })
}

/// The dungeon is exactly what replaying some full sequence of draws
/// sampled under `c` produces: one candidate and one coin per attempt,
/// every candidate an in-grid room of a drawable size.
pub open spec fn generated_ok(
    c: MapGenConfig,
    g: Seq<Vec<Tile>>,
    start: (i32, i32),
    w: int,
    h: int,
) -> bool {
    exists|cands: Seq<Rect>, coins: Seq<bool>|
        {
            &&& cands.len() == c.max_room_attempts
            &&& coins.len() == cands.len()
            &&& (forall|i: int|
                0 <= i < cands.len() ==> room_fits(#[trigger] cands[i], w, h) && room_sized(
                    cands[i],
                    c,
                ))
            &&& #[trigger] replay_ok(cands, coins, c.max_connection_distance as int, g, start, w, h)
        }
}

/// Entry `k` of `rooms` is one of the candidates in `cands`.
pub open spec fn room_among(rooms: Seq<Rect>, cands: Seq<Rect>, k: int) -> bool {
    exists|i: int| 0 <= i < cands.len() && rooms[k] == #[trigger] cands[i]
}

/// Entry `k` of `rooms` lies strictly within `max_dist` of an earlier
/// entry of `rooms`.
pub open spec fn near_earlier_room(rooms: Seq<Rect>, k: int, max_dist: int) -> bool {
    exists|j: int| 0 <= j < k && spec_distance(rooms[k], #[trigger] rooms[j]) < max_dist
}

/// What the acceptance fold guarantees of the rooms it returns: no more
/// rooms than candidates; at least one room whenever any candidate exists,
/// because the first candidate is accepted unconditionally; every accepted
/// room is one of the candidates; and every room after the first lies
/// strictly within the connection distance of an earlier accepted room.
pub proof fn lemma_accepted_rooms_facts(cands: Seq<Rect>, max_dist: int)
    ensures
        accepted_rooms(cands, max_dist).len() <= cands.len(),
        cands.len() >= 1 ==> accepted_rooms(cands, max_dist).len() >= 1,
        forall|k: int|
            0 <= k < accepted_rooms(cands, max_dist).len() ==> #[trigger] room_among(
                accepted_rooms(cands, max_dist),
                cands,
                k,
            ),
        forall|k: int|
            1 <= k < accepted_rooms(cands, max_dist).len() ==> #[trigger] near_earlier_room(
                accepted_rooms(cands, max_dist),
                k,
                max_dist,
            ),
    decreases cands.len(),
{
    if cands.len() > 0 {
        let prev_c = cands.drop_last();
        lemma_accepted_rooms_facts(prev_c, max_dist);
        let prev = accepted_rooms(prev_c, max_dist);
        let rooms = accepted_rooms(cands, max_dist);
        let cand = cands.last();
        if prev.len() == 0 {
            assert(spec_accepts(prev, cand, max_dist));
        }
        assert forall|k: int| 0 <= k < rooms.len() implies #[trigger] room_among(
            rooms,
            cands,
            k,
        ) by {
            if k < prev.len() {
                assert(room_among(prev, prev_c, k));
                let i0 = choose|i: int| 0 <= i < prev_c.len() && prev[k] == #[trigger] prev_c[i];
                assert(0 <= i0 < cands.len() && rooms[k] == cands[i0]);
            } else {
                assert(rooms[k] == cands[cands.len() - 1]);
            }
        }
        assert forall|k: int| 1 <= k < rooms.len() implies #[trigger] near_earlier_room(
            rooms,
            k,
            max_dist,
        ) by {
            if k < prev.len() {
                assert(near_earlier_room(prev, k, max_dist));
                let j0 = choose|j: int|
                    0 <= j < k && spec_distance(prev[k], #[trigger] prev[j]) < max_dist;
                assert(rooms[k] == prev[k] && rooms[j0] == prev[j0]);
                assert(0 <= j0 < k && spec_distance(rooms[k], rooms[j0]) < max_dist);
            } else {
                // `k` names the just-pushed room; its acceptance test
                // supplies a near predecessor since the prior set was
                // non-empty.
                assert(spec_accepts(prev, cand, max_dist));
                assert(prev.len() >= 1);
                let j0 = choose|j: int|
                    0 <= j < prev.len() && spec_distance(cand, #[trigger] prev[j]) < max_dist;
                assert(rooms[k] == cand && rooms[j0] == prev[j0]);
                assert(0 <= j0 < k && spec_distance(rooms[k], rooms[j0]) < max_dist);
            }
        }
    }
}

/// The generation state: the grid carved so far, the accepted rooms in
/// acceptance order, and the start position (the first room's center).
pub struct RoomPlacer {
    pub width: i32,
    pub height: i32,
    pub grid: Grid,
    pub rooms: Vec<Rect>,
    pub start: (i32, i32),
}

impl RoomPlacer {
    /// Everything the placement loop maintains.
    pub open spec fn wf(self) -> bool {
        &&& 1 <= self.width <= MAX_GRID_DIM
        &&& 1 <= self.height <= MAX_GRID_DIM
        &&& placement_ok(
            self.rooms@,
            self.grid@,
            self.start,
            self.width as int,
            self.height as int,
        )
    }

    /// A fresh placer: an all-wall grid of the given dimensions, no rooms,
    /// and a placeholder start position at the origin.
    #[verifier::loop_isolation(false)]
    pub fn new(width: i32, height: i32) -> (p: RoomPlacer)
        requires
            1 <= width <= MAX_GRID_DIM,
            1 <= height <= MAX_GRID_DIM,
        ensures
            p.wf(),
            p.width == width,
            p.height == height,
            p.rooms@.len() == 0,
            p.start.0 == 0 && p.start.1 == 0,
            forall|x: int, y: int|
                0 <= x < width && 0 <= y < height ==> #[trigger] p.grid@[x]@[y] == wall_tile(),
    {
        let mut grid: Grid = Vec::new();
        let mut x: i32 = 0;
        while x < width
            invariant
                0 <= x <= width,
                grid@.len() == x as int,
                forall|i: int|
                    0 <= i < x as int ==> (#[trigger] grid@[i])@.len() == height as int,
                forall|i: int, j: int|
                    0 <= i < x as int && 0 <= j < height as int ==> #[trigger] grid@[i]@[j]
                        == wall_tile(),
            decreases width - x,
        {
            let mut column: Vec<Tile> = Vec::new();
            let mut y: i32 = 0;
            while y < height
                invariant
                    0 <= y <= height,
                    column@.len() == y as int,
                    forall|j: int| 0 <= j < y as int ==> #[trigger] column@[j] == wall_tile(),
                decreases height - y,
            {
                column.push(Tile::wall());
                y = y + 1;
            }
            grid.push(column);
            x = x + 1;
        }
        RoomPlacer { width, height, grid, rooms: Vec::new(), start: (0, 0) }
    }

    /// One attempt of the placement loop: validate the candidate against
    /// every accepted room, and on acceptance carve its interior, connect
    /// it to its nearest predecessor (skipped for the first room), record
    /// the start position (first room only), and append it to the accepted
    /// sequence. A rejected candidate changes nothing.
    #[verifier::loop_isolation(false)]
    pub fn try_place(&mut self, cand: Rect, coin: bool, max_dist: i32) -> (accepted: bool)
        requires
            old(self).wf(),
            room_fits(cand, old(self).width as int, old(self).height as int),
        ensures
            final(self).wf(),
            final(self).width == old(self).width,
            final(self).height == old(self).height,
            accepted == spec_accepts(old(self).rooms@, cand, max_dist as int),
            !accepted ==> final(self).grid@ == old(self).grid@ && final(self).rooms@ == old(
                self,
            ).rooms@ && final(self).start == old(self).start,
            accepted ==> final(self).rooms@ == old(self).rooms@.push(cand),
            accepted ==> forall|x: int, y: int|
                0 <= x < old(self).width && 0 <= y < old(self).height
                    ==> #[trigger] final(self).grid@[x]@[y] == (if placed_floor(
                    old(self).rooms@,
                    cand,
                    coin,
                    x,
                    y,
                ) {
                    floor_tile()
                } else {
                    old(self).grid@[x]@[y]
                }),
            accepted && old(self).rooms@.len() == 0 ==> (final(self).start.0 as int)
                == spec_center_x(cand) && (final(self).start.1 as int) == spec_center_y(cand),
            accepted && old(self).rooms@.len() > 0 ==> final(self).start == old(self).start,
    {
        let ghost w = old(self).width as int;
        let ghost h = old(self).height as int;
        let mut overlap = false;
        let mut i: usize = 0;
        while i < self.rooms.len()
            invariant
                i <= self.rooms@.len(),
                overlap == exists|j: int|
                    0 <= j < i as int && spec_overlaps(cand, #[trigger] self.rooms@[j]),
            decreases self.rooms@.len() - i,
        {
            if cand.intersect_with(&self.rooms[i]) {
                overlap = true;
            }
            i = i + 1;
        }
        let mut near = false;
        let mut k: usize = 0;
        while k < self.rooms.len()
            invariant
                k <= self.rooms@.len(),
                near == exists|j: int|
                    0 <= j < k as int && spec_distance(cand, #[trigger] self.rooms@[j])
                        < max_dist,
            decreases self.rooms@.len() - k,
        {
            let d = cand.distance_to(&self.rooms[k]);
            if d < max_dist {
                near = true;
            }
            k = k + 1;
        }
        let accepted = !overlap && (self.rooms.len() == 0 || near);
        if !accepted {
            return false;
        }
        let ghost rooms0 = self.rooms@;
        let ghost grid0 = self.grid@;
        proof {
            assert(forall|j: int|
                0 <= j < rooms0.len() ==> !spec_overlaps(cand, #[trigger] rooms0[j]));
        }
        create_room(cand, &mut self.grid);
        let ghost g1 = self.grid@;
        let c = cand.center();
        if self.rooms.len() == 0 {
            self.start = c;
            self.rooms.push(cand);
            return true;
        }
        proof {
            lemma_overlaps_self(cand);
            assert(self.rooms@[0] != cand);
        }
        let idx = cand.find_closest(&self.rooms);
        let ghost ci = closest_idx(cand, rooms0);
        proof {
            assert(is_closest(cand, rooms0, idx as int));
            assert(is_closest(cand, rooms0, ci));
            lemma_closest_unique(cand, rooms0, idx as int, ci);
        }
        let near_room = self.rooms[idx];
        proof {
            lemma_center_in_interior(near_room);
            lemma_center_in_interior(cand);
        }
        let cc = near_room.center();
        if coin {
            make_h_tunnel(cc.1, cc.0, c.0, &mut self.grid);
            let ghost g2 = self.grid@;
            make_v_tunnel(c.0, cc.1, c.1, &mut self.grid);
            proof {
                assert forall|x: int, y: int| 0 <= x < w && 0 <= y < h implies
                    #[trigger] self.grid@[x]@[y] == (if placed_floor(rooms0, cand, coin, x, y) {
                        floor_tile()
                    } else {
                        grid0[x]@[y]
                    }) by {
                    assert(g1[x]@[y] == (if in_interior(cand, x, y) {
                        floor_tile()
                    } else {
                        grid0[x]@[y]
                    }));
                    assert(g2[x]@[y] == (if in_h_run(
                        spec_center_y(rooms0[ci]),
                        spec_center_x(rooms0[ci]),
                        spec_center_x(cand),
                        x,
                        y,
                    ) {
                        floor_tile()
                    } else {
                        g1[x]@[y]
                    }));
                }
            }
        } else {
            make_v_tunnel(cc.0, cc.1, c.1, &mut self.grid);
            let ghost g2 = self.grid@;
            make_h_tunnel(c.1, cc.0, c.0, &mut self.grid);
            proof {
                assert forall|x: int, y: int| 0 <= x < w && 0 <= y < h implies
                    #[trigger] self.grid@[x]@[y] == (if placed_floor(rooms0, cand, coin, x, y) {
                        floor_tile()
                    } else {
                        grid0[x]@[y]
                    }) by {
                    assert(g1[x]@[y] == (if in_interior(cand, x, y) {
                        floor_tile()
                    } else {
                        grid0[x]@[y]
                    }));
                    assert(g2[x]@[y] == (if in_v_run(
                        spec_center_x(rooms0[ci]),
                        spec_center_y(rooms0[ci]),
                        spec_center_y(cand),
                        x,
                        y,
                    ) {
                        floor_tile()
                    } else {
                        g1[x]@[y]
                    }));
                }
            }
        }
        self.rooms.push(cand);
        proof {
            let roomsn = rooms0.push(cand);
            let gn = self.grid@;
            assert(grid_wf(gn, w, h));
            assert forall|a: int, b: int|
                #![trigger roomsn[a], roomsn[b]]
                0 <= a < b < roomsn.len() implies !spec_overlaps(roomsn[a], roomsn[b]) by {
                if b == rooms0.len() {
                    assert(!spec_overlaps(cand, rooms0[a]));
                }
            }
            assert forall|a: int, x: int, y: int|
                0 <= a < roomsn.len() && #[trigger] in_interior(roomsn[a], x, y) implies gn[x]@[y]
                == floor_tile() by {
                assert(room_fits(roomsn[a], w, h));
                if a < rooms0.len() {
                    assert(grid0[x]@[y] == floor_tile());
                } else {
                    assert(in_interior(cand, x, y));
                    assert(placed_floor(rooms0, cand, coin, x, y));
                }
            }
            assert(roomsn[0] == rooms0[0]);
        }
        true
    }
}

/// Replay a fixed sequence of drawn candidates and coins through the
/// placement step, one attempt per entry. Generation is deterministic in
/// these draws: the grid and the start position are pinned cell by cell as
/// functions of the arguments alone, so the same draw sequence always
/// yields the same dungeon.
#[verifier::loop_isolation(false)]
pub fn generate_from(
    width: i32,
    height: i32,
    max_dist: i32,
    candidates: &Vec<Rect>,
    coins: &Vec<bool>,
) -> (r: (Grid, (i32, i32)))
    requires
        1 <= width <= MAX_GRID_DIM,
        1 <= height <= MAX_GRID_DIM,
        candidates@.len() == coins@.len(),
        forall|i: int|
            0 <= i < candidates@.len() ==> room_fits(
                #[trigger] candidates@[i],
                width as int,
                height as int,
            ),
    ensures
        grid_wf(r.0@, width as int, height as int),
        replay_ok(candidates@, coins@, max_dist as int, r.0@, r.1, width as int, height as int),
        candidates@.len() >= 1 ==> 0 <= r.1.0 < width && 0 <= r.1.1 < height
            && r.0@[r.1.0 as int]@[r.1.1 as int] == floor_tile(),
{
    let mut placer = RoomPlacer::new(width, height);
    let ghost mut acoins: Seq<bool> = Seq::empty();
    let mut i: usize = 0;
    while i < candidates.len()
        invariant
            i <= candidates@.len(),
            placer.wf(),
            placer.width == width,
            placer.height == height,
            placer.rooms@ == accepted_rooms(candidates@.take(i as int), max_dist as int),
            acoins == accepted_coins(
                candidates@.take(i as int),
                coins@.take(i as int),
                max_dist as int,
            ),
            acoins.len() == placer.rooms@.len(),
            placer.rooms@.len() == 0 ==> placer.start == (0i32, 0i32),
            forall|x: int, y: int|
                0 <= x < width && 0 <= y < height ==> #[trigger] placer.grid@[x]@[y] == (
                if carved_cells(placer.rooms@, acoins, x, y) {
                    floor_tile()
                } else {
                    wall_tile()
                }),
        decreases candidates@.len() - i,
    {
        let cand = candidates[i];
        let coin = coins[i];
        let ghost rooms_before = placer.rooms@;
        let ghost acoins_before = acoins;
        let ghost grid_before = placer.grid@;
        let accepted = placer.try_place(cand, coin, max_dist);
        proof {
            if accepted {
                acoins = acoins_before.push(coin);
            }
            assert(candidates@.take(i as int + 1).drop_last() =~= candidates@.take(i as int));
            assert(coins@.take(i as int + 1).drop_last() =~= coins@.take(i as int));
            assert(candidates@.take(i as int + 1).last() == candidates@[i as int]);
            assert(coins@.take(i as int + 1).last() == coins@[i as int]);
            if accepted {
                assert(placer.rooms@ == rooms_before.push(cand));
                assert(placer.rooms@.drop_last() =~= rooms_before);
                assert(acoins.drop_last() =~= acoins_before);
                assert(placer.rooms@.last() == cand);
                assert(acoins.last() == coin);
            }
            assert(placer.rooms@ == accepted_rooms(
                candidates@.take(i as int + 1),
                max_dist as int,
            ));
            assert(acoins == accepted_coins(
                candidates@.take(i as int + 1),
                coins@.take(i as int + 1),
                max_dist as int,
            ));
            assert forall|x: int, y: int| 0 <= x < width && 0 <= y < height implies #[trigger] placer.grid@[x]@[y]
                == (if carved_cells(placer.rooms@, acoins, x, y) {
                floor_tile()
            } else {
                wall_tile()
            }) by {
                assert(grid_before[x]@[y] == (if carved_cells(rooms_before, acoins_before, x, y) {
                    floor_tile()
                } else {
                    wall_tile()
                }));
                if accepted {
                    assert(carved_cells(placer.rooms@, acoins, x, y) == (carved_cells(
                        rooms_before,
                        acoins_before,
                        x,
                        y,
                    ) || placed_floor(rooms_before, cand, coin, x, y)));
                    assert(placer.grid@[x]@[y] == (if placed_floor(rooms_before, cand, coin, x, y) {
                        floor_tile()
                    } else {
                        grid_before[x]@[y]
                    }));
                }
            }
        }
        i = i + 1;
    }
    proof {
        assert(candidates@.take(candidates@.len() as int) =~= candidates@);
        assert(coins@.take(coins@.len() as int) =~= coins@);
        if candidates@.len() >= 1 {
            lemma_accepted_rooms_facts(candidates@, max_dist as int);
            let first = placer.rooms@[0];
            lemma_center_in_interior(first);
            assert(in_interior(first, placer.start.0 as int, placer.start.1 as int));
        }
    }
    let ghost roomsv = placer.rooms@;
    let r = (placer.grid, placer.start);
    proof {
        assert(placement_ok(roomsv, r.0@, r.1, width as int, height as int));
    }
    r
}

/// Draw one candidate rectangle and one coin per configured attempt, then
/// replay the draws through the placement step. Returns the finished grid
/// and the starting position (the center of the first accepted room, which
/// exists whenever at least one attempt is allowed). The contract binds
/// the whole result: there is a full draw sequence, sampled within the
/// configured bounds, whose replay — rooms, corridors, start, and every
/// single cell — is exactly the returned dungeon.
#[verifier::loop_isolation(false)]
pub fn generate(width: i32, height: i32, config: &MapGenConfig) -> (r: (Grid, (i32, i32)))
    requires
        1 <= width <= MAX_GRID_DIM,
        1 <= height <= MAX_GRID_DIM,
        config_wf(*config),
        config_fits(*config, width as int, height as int),
    ensures
        grid_wf(r.0@, width as int, height as int),
        generated_ok(*config, r.0@, r.1, width as int, height as int),
        config.max_room_attempts >= 1 ==> 0 <= r.1.0 < width && 0 <= r.1.1 < height
            && r.0@[r.1.0 as int]@[r.1.1 as int] == floor_tile(),
{
    let mut cands: Vec<Rect> = Vec::new();
    let mut coinv: Vec<bool> = Vec::new();
    let mut attempt: i32 = 0;
    while attempt < config.max_room_attempts
        invariant
            0 <= attempt,
            attempt <= config.max_room_attempts,
            cands@.len() == attempt as int,
            coinv@.len() == attempt as int,
            forall|i: int|
                0 <= i < cands@.len() ==> room_fits(
                    #[trigger] cands@[i],
                    width as int,
                    height as int,
                ) && room_sized(cands@[i], *config),
        decreases config.max_room_attempts - attempt,
    {
        let rw = rand_range(config.min_room_size, config.max_room_size);
        let rh = rand_range(config.min_room_size, config.max_room_size);
        let x = rand_range(0, width - rw);
        let y = rand_range(0, height - rh);
        cands.push(Rect::new(x, y, rw, rh));
        coinv.push(rand_coin());
        attempt = attempt + 1;
    }
    let r = generate_from(width, height, config.max_connection_distance, &cands, &coinv);
    proof {
        assert(replay_ok(
            cands@,
            coinv@,
            config.max_connection_distance as int,
            r.0@,
            r.1,
            width as int,
            height as int,
        ));
        assert(generated_ok(*config, r.0@, r.1, width as int, height as int));
    }
    r
}

/// Width of the default dungeon grid.
pub const MAP_W: i32 = 70;

/// Height of the default dungeon grid.
pub const MAP_H: i32 = 45;

/// Smallest sampled room dimension.
pub const MIN_ROOM_SIZE: i32 = 3;

/// Exclusive upper bound on sampled room dimensions.
pub const MAX_ROOM_SIZE: i32 = 15;

/// Number of placement attempts per generated dungeon.
pub const MAX_ROOM_NUMBER: i32 = 30;

/// A candidate after the first must lie strictly within this distance of
/// an accepted room.
pub const MAX_ROOM_DISTANCE: i32 = 999;

/// Generate the default dungeon: the standard grid size, room bounds,
/// attempt budget and connection distance. As with `generate`, the result
/// is exactly the replay of a full default-configuration draw sequence.
pub fn make_map() -> (r: (Grid, (i32, i32)))
    ensures
        grid_wf(r.0@, MAP_W as int, MAP_H as int),
        generated_ok(
            (MapGenConfig {
                min_room_size: MIN_ROOM_SIZE,
                max_room_size: MAX_ROOM_SIZE,
                max_room_attempts: MAX_ROOM_NUMBER,
                max_connection_distance: MAX_ROOM_DISTANCE,
            }),
            r.0@,
            r.1,
            MAP_W as int,
            MAP_H as int,
        ),
        0 <= r.1.0 < MAP_W && 0 <= r.1.1 < MAP_H && r.0@[r.1.0 as int]@[r.1.1 as int]
            == floor_tile(),
{
    let config = MapGenConfig {
        min_room_size: MIN_ROOM_SIZE,
        max_room_size: MAX_ROOM_SIZE,
        max_room_attempts: MAX_ROOM_NUMBER,
        max_connection_distance: MAX_ROOM_DISTANCE,
    };
    generate(MAP_W, MAP_H, &config)
}

} // verus!

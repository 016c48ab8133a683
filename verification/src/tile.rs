use vstd::prelude::*;
use crate::geometry::Rect;

verus! {

/// One cell of the dungeon grid: its display glyph, whether it blocks
/// movement, and whether it blocks line of sight. Both flags derive from
/// the same floor/wall state today but are kept separate so they could
/// diverge later.
#[derive(Clone, Copy, Debug, PartialEq, Eq, Structural)]
pub struct Tile {
    pub ch: char,
    pub blocks: bool,
    pub block_sight: bool,
}

/// A passable floor cell.
pub open spec fn floor_tile() -> Tile {
    Tile { ch: '.', blocks: false, block_sight: false }
}

/// An impassable wall cell, which also blocks sight.
pub open spec fn wall_tile() -> Tile {
    Tile { ch: '#', blocks: true, block_sight: true }
}

impl Tile {
    pub fn empty() -> (t: Tile)
        ensures
            t == floor_tile(),
    {
        Tile { ch: '.', blocks: false, block_sight: false }
    }

    pub fn wall() -> (t: Tile)
        ensures
            t == wall_tile(),
    {
        Tile { ch: '#', blocks: true, block_sight: true }
    }
}

/// The dungeon grid: a column per x coordinate, indexed `[x][y]`.
pub type Grid = Vec<Vec<Tile>>;

/// The grid is a full `w` by `h` rectangle of tiles.
pub open spec fn grid_wf(g: Seq<Vec<Tile>>, w: int, h: int) -> bool {
    g.len() == w && (forall|x: int| 0 <= x < w ==> (#[trigger] g[x])@.len() == h)
}

/// Both grids have the same column count and the same column heights.
pub open spec fn same_dims(a: Seq<Vec<Tile>>, b: Seq<Vec<Tile>>) -> bool {
    b.len() == a.len() && (forall|x: int|
        0 <= x < a.len() ==> (#[trigger] b[x])@.len() == a[x]@.len())
}

/// `(x, y)` lies in the half-open interior `[x1, x2) x [y1, y2)` of `r`.
pub open spec fn in_interior(r: Rect, x: int, y: int) -> bool {
    r.x1 <= x < r.x2 && r.y1 <= y < r.y2
}

/// `(x, y)` lies on the horizontal run at row `y0` spanning from `xa` to
/// `xb`, taken half-open over `[min, max)` so argument order is immaterial.
pub open spec fn in_h_run(y0: int, xa: int, xb: int, x: int, y: int) -> bool {
    y == y0 && (if xa <= xb {
        xa <= x < xb
    } else {
        xb <= x < xa
    })
}

/// `(x, y)` lies on the vertical run at column `x0` spanning from `ya` to
/// `yb`, taken half-open over `[min, max)`.
pub open spec fn in_v_run(x0: int, ya: int, yb: int, x: int, y: int) -> bool {
    x == x0 && (if ya <= yb {
        ya <= y < yb
    } else {
        yb <= y < ya
    })
}

/// Movement query: out-of-bounds coordinates are blocked, in-bounds ones
/// blocked exactly when the tile there blocks movement.
pub open spec fn spec_blocked(g: Seq<Vec<Tile>>, x: int, y: int) -> bool {
    !(0 <= x && x < g.len() && 0 <= y && y < g[x]@.len() && !g[x]@[y].blocks)
}

pub fn is_blocked(grid: &Grid, x: i32, y: i32) -> (b: bool)
    ensures
        b == spec_blocked(grid@, x as int, y as int),
{
    if x < 0 || y < 0 {
        return true;
    }
    let xu = x as usize;
    let yu = y as usize;
    if xu >= grid.len() {
        return true;
    }
    if yu >= grid[xu].len() {
        return true;
    }
    grid[xu][yu].blocks
}

/// Set every cell of the room's half-open interior to floor; a room of
/// width `w` carves exactly `w` columns and leaves every other cell alone.
#[verifier::loop_isolation(false)]
pub fn create_room(room: Rect, grid: &mut Grid)
    requires
        0 <= room.x1 <= room.x2,
        0 <= room.y1 <= room.y2,
        room.x2 as int <= old(grid)@.len(),
        forall|i: int|
            0 <= i < old(grid)@.len() ==> room.y2 as int <= (#[trigger] old(grid)@[i])@.len(),
    ensures
        same_dims(old(grid)@, final(grid)@),
        forall|i: int, j: int|
            0 <= i < old(grid)@.len() && 0 <= j < old(grid)@[i]@.len()
                ==> #[trigger] final(grid)@[i]@[j] == (if in_interior(room, i, j) {
                floor_tile()
            } else {
                old(grid)@[i]@[j]
            }),
{
    let mut x = room.x1;
    while x < room.x2
        invariant
            room.x1 <= x <= room.x2,
            same_dims(old(grid)@, grid@),
            forall|i: int, j: int|
                0 <= i < old(grid)@.len() && 0 <= j < old(grid)@[i]@.len()
                    ==> #[trigger] grid@[i]@[j] == (if room.x1 <= i < x && room.y1 <= j
                    < room.y2 {
                    floor_tile()
                } else {
                    old(grid)@[i]@[j]
                }),
        decreases room.x2 - x,
    {
        let mut y = room.y1;
        while y < room.y2
            invariant
                room.y1 <= y <= room.y2,
                room.x1 <= x < room.x2,
                same_dims(old(grid)@, grid@),
                forall|i: int, j: int|
                    0 <= i < old(grid)@.len() && 0 <= j < old(grid)@[i]@.len()
                        ==> #[trigger] grid@[i]@[j] == (if (room.x1 <= i < x && room.y1 <= j
                        < room.y2) || (i == x && room.y1 <= j < y) {
                        floor_tile()
                    } else {
                        old(grid)@[i]@[j]
                    }),
            decreases room.y2 - y,
        {
            grid[x as usize][y as usize] = Tile::empty();
            y = y + 1;
        }
        x = x + 1;
    }
}

/// Carve a one-cell-high horizontal corridor run at row `y`, spanning the
/// half-open range between `x1` and `x2` in either argument order.
#[verifier::loop_isolation(false)]
pub fn make_h_tunnel(y: i32, x1: i32, x2: i32, grid: &mut Grid)
    requires
        0 <= x1,
        0 <= x2,
        x1 as int <= old(grid)@.len(),
        x2 as int <= old(grid)@.len(),
        0 <= y,
        forall|i: int| 0 <= i < old(grid)@.len() ==> (y as int) < (#[trigger] old(grid)@[i])@.len(),
    ensures
        same_dims(old(grid)@, final(grid)@),
        forall|i: int, j: int|
            0 <= i < old(grid)@.len() && 0 <= j < old(grid)@[i]@.len()
                ==> #[trigger] final(grid)@[i]@[j] == (if in_h_run(y as int, x1 as int, x2 as int, i, j) {
                floor_tile()
            } else {
                old(grid)@[i]@[j]
            }),
{
    let lo: i32 = if x1 < x2 { x1 } else { x2 };
    let hi: i32 = if x1 < x2 { x2 } else { x1 };
    let mut x = lo;
    while x < hi
        invariant
            lo <= x <= hi,
            same_dims(old(grid)@, grid@),
            forall|i: int, j: int|
                0 <= i < old(grid)@.len() && 0 <= j < old(grid)@[i]@.len()
                    ==> #[trigger] grid@[i]@[j] == (if j == y as int && lo <= i < x {
                    floor_tile()
                } else {
                    old(grid)@[i]@[j]
                }),
        decreases hi - x,
    {
        grid[x as usize][y as usize] = Tile::empty();
        x = x + 1;
    }
}

/// Carve a one-cell-wide vertical corridor run at column `x`, spanning the
/// half-open range between `y1` and `y2` in either argument order.
#[verifier::loop_isolation(false)]
pub fn make_v_tunnel(x: i32, y1: i32, y2: i32, grid: &mut Grid)
    requires
        0 <= x,
        (x as int) < old(grid)@.len(),
        0 <= y1,
        0 <= y2,
        y1 as int <= old(grid)@[x as int]@.len(),
        y2 as int <= old(grid)@[x as int]@.len(),
    ensures
        same_dims(old(grid)@, final(grid)@),
        forall|i: int, j: int|
            0 <= i < old(grid)@.len() && 0 <= j < old(grid)@[i]@.len()
                ==> #[trigger] final(grid)@[i]@[j] == (if in_v_run(x as int, y1 as int, y2 as int, i, j) {
                floor_tile()
            } else {
                old(grid)@[i]@[j]
            }),
{
    let lo: i32 = if y1 < y2 { y1 } else { y2 };
    let hi: i32 = if y1 < y2 { y2 } else { y1 };
    let mut y = lo;
    while y < hi
        invariant
            lo <= y <= hi,
            same_dims(old(grid)@, grid@),
            forall|i: int, j: int|
                0 <= i < old(grid)@.len() && 0 <= j < old(grid)@[i]@.len()
                    ==> #[trigger] grid@[i]@[j] == (if i == x as int && lo <= j < y {
                    floor_tile()
                } else {
                    old(grid)@[i]@[j]
                }),
        decreases hi - y,
    {
        grid[x as usize][y as usize] = Tile::empty();
        y = y + 1;
    }
}

} // verus!

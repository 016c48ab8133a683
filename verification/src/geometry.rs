use vstd::prelude::*;

verus! {

/// Largest coordinate the geometry works with. Grids and rooms live in
/// `[0, MAX_GRID_DIM]` on both axes, which keeps all derived arithmetic
/// (centers, squared center distances) comfortably inside the machine types.
pub const MAX_GRID_DIM: i32 = 65536;

/// An axis-aligned rectangle given by its bounds. A well-formed room has
/// `x1 < x2` and `y1 < y2`; the carved interior is `[x1, x2) x [y1, y2)`,
/// so a room does not own its surrounding wall.
#[derive(Clone, Copy, Debug, PartialEq, Eq, Structural)]
pub struct Rect {
    pub x1: i32,
    pub y1: i32,
    pub x2: i32,
    pub y2: i32,
}

/// Closed-interval overlap test: rectangles that merely share a boundary
/// edge still count as overlapping, which forces a one-cell gap (or an
/// explicit corridor) between distinct rooms.
pub open spec fn spec_overlaps(a: Rect, b: Rect) -> bool {
    a.x1 <= b.x2 && a.x2 >= b.x1 && a.y1 <= b.y2 && a.y2 >= b.y1
}

/// The rectangle's bounds are ordered and both axes span at least one cell.
pub open spec fn rect_wf(r: Rect) -> bool {
    r.x1 < r.x2 && r.y1 < r.y2
}

/// The rectangle sits inside the coordinate range the geometry supports.
pub open spec fn rect_in_range(r: Rect) -> bool {
    0 <= r.x1 && r.x2 <= MAX_GRID_DIM && 0 <= r.y1 && r.y2 <= MAX_GRID_DIM
}

/// Midpoint of the horizontal span, truncated toward negative infinity;
/// for the non-negative coordinates used here this is ordinary integer
/// truncation.
pub open spec fn spec_center_x(r: Rect) -> int {
    (r.x1 + r.x2) / 2
}

/// Midpoint of the vertical span, truncated like `spec_center_x`.
pub open spec fn spec_center_y(r: Rect) -> int {
    (r.y1 + r.y2) / 2
}

/// Integer square root rounded to the nearest whole number, defined by
/// stepping the candidate root up once each time `n` passes the midpoint
/// between consecutive squares.
pub open spec fn rounded_sqrt(n: int) -> int
    decreases n,
{
    if n <= 0 {
        0
    } else {
        let p = rounded_sqrt(n - 1);
        if n > p * p + p {
            p + 1
        } else {
            p
        }
    }
}

/// `r` is the square root of `n` rounded to the nearest integer: `n` lies
/// strictly above `r*r - r` (the midpoint mark below `r`) and no higher
/// than `r*r + r` (the midpoint mark above). An exact half never occurs,
/// because `r*r + r + 1/4` is not an integer.
pub open spec fn is_rounded_sqrt(n: int, r: int) -> bool {
    0 <= r && if n <= 0 {
        r == 0
    } else {
        r * r - r < n <= r * r + r
    }
}

pub proof fn lemma_rounded_sqrt_correct(n: int)
    ensures
        is_rounded_sqrt(n, rounded_sqrt(n)),
    decreases n,
{
    if n > 0 {
        lemma_rounded_sqrt_correct(n - 1);
        let p = rounded_sqrt(n - 1);
        assert(is_rounded_sqrt(n - 1, p));
        if n > p * p + p {
            assert(rounded_sqrt(n) == p + 1);
            assert((p + 1) * (p + 1) - (p + 1) < n && n <= (p + 1) * (p + 1) + (p + 1))
                by (nonlinear_arith)
                requires
                    0 <= p,
                    p * p + p < n,
                    (n - 1 <= 0 && p == 0) || n - 1 <= p * p + p,
            ;
        } else {
            assert(rounded_sqrt(n) == p);
            assert(p * p - p < n && n <= p * p + p) by (nonlinear_arith)
                requires
                    0 <= p,
                    n <= p * p + p,
                    n > 0,
                    (n - 1 <= 0 && p == 0) || p * p - p < n - 1,
            ;
        }
    }
}

pub proof fn lemma_rounded_sqrt_unique(n: int, a: int, b: int)
    requires
        is_rounded_sqrt(n, a),
        is_rounded_sqrt(n, b),
    ensures
        a == b,
{
    if n > 0 {
        if a < b {
            assert(a * a + a <= (b - 1) * (b - 1) + (b - 1)) by (nonlinear_arith)
                requires
                    0 <= a && a <= b - 1,
            ;
            assert((b - 1) * (b - 1) + (b - 1) == b * b - b) by (nonlinear_arith);
        }
        if b < a {
            assert(b * b + b <= (a - 1) * (a - 1) + (a - 1)) by (nonlinear_arith)
                requires
                    0 <= b && b <= a - 1,
            ;
            assert((a - 1) * (a - 1) + (a - 1) == a * a - a) by (nonlinear_arith);
        }
    }
}

/// Nearest-integer square root of `n`, the rounding step of the Euclidean
/// center distance.
#[verifier::loop_isolation(false)]
pub fn isqrt_round(n: u64) -> (r: u64)
    requires
        n <= 0x4_0000_0000_0000,
    ensures
        r as int == rounded_sqrt(n as int),
        is_rounded_sqrt(n as int, r as int),
{
    let mut r: u64 = 0;
    while r * r + r < n
        invariant
            r == 0 || r * r - r < n,
            r <= 0x800_0000,
        decreases n - r,
    {
        proof {
            assert(r * r >= 0) by (nonlinear_arith);
            assert(r < 0x800_0000) by (nonlinear_arith)
                requires
                    r == 0 || r * r - r < n,
                    n <= 0x4_0000_0000_0000,
                    0 <= r <= 0x800_0000,
            ;
            assert((r + 1) * (r + 1) - (r + 1) == r * r + r) by (nonlinear_arith);
        }
        r = r + 1;
    }
    proof {
        assert(r >= 1 ==> r * r - r >= 0) by (nonlinear_arith);
        assert(is_rounded_sqrt(n as int, r as int));
        lemma_rounded_sqrt_correct(n as int);
        lemma_rounded_sqrt_unique(n as int, r as int, rounded_sqrt(n as int));
    }
    r
}

/// Euclidean distance between the two centers, rounded to the nearest
/// integer.
pub open spec fn spec_distance(a: Rect, b: Rect) -> int {
    let dx = spec_center_x(b) - spec_center_x(a);
    let dy = spec_center_y(b) - spec_center_y(a);
    rounded_sqrt(dx * dx + dy * dy)
}

/// Center distance is symmetric, never negative, and zero from a rectangle
/// to itself.
pub proof fn lemma_distance_properties(a: Rect, b: Rect)
    ensures
        spec_distance(a, b) == spec_distance(b, a),
        spec_distance(a, b) >= 0,
        spec_distance(a, a) == 0,
{
    let dx = spec_center_x(b) - spec_center_x(a);
    let dy = spec_center_y(b) - spec_center_y(a);
    assert(dx * dx == (-dx) * (-dx)) by (nonlinear_arith);
    assert(dy * dy == (-dy) * (-dy)) by (nonlinear_arith);
    lemma_rounded_sqrt_correct(dx * dx + dy * dy);
}

/// The center of a well-formed rectangle with non-negative origin lies
/// strictly inside the rectangle's interior.
pub proof fn lemma_center_in_interior(r: Rect)
    requires
        rect_wf(r),
        0 <= r.x1,
        0 <= r.y1,
    ensures
        r.x1 <= spec_center_x(r) < r.x2,
        r.y1 <= spec_center_y(r) < r.y2,
{
}

/// `i` names the nearest neighbor of `cand` in `rooms`: an entry distinct
/// from `cand` itself whose center distance to `cand` is minimal, and the
/// earliest such entry when several tie.
pub open spec fn is_closest(cand: Rect, rooms: Seq<Rect>, i: int) -> bool {
    &&& 0 <= i < rooms.len()
    &&& rooms[i] != cand
    &&& forall|j: int|
        0 <= j < rooms.len() && #[trigger] rooms[j] != cand ==> spec_distance(cand, rooms[i])
            <= spec_distance(cand, rooms[j])
    &&& forall|j: int|
        0 <= j < i && #[trigger] rooms[j] != cand ==> spec_distance(cand, rooms[i])
            < spec_distance(cand, rooms[j])
}

/// The index that `is_closest` describes; `lemma_closest_unique` shows the
/// description picks exactly one index.
pub open spec fn closest_idx(cand: Rect, rooms: Seq<Rect>) -> int {
    choose|i: int| is_closest(cand, rooms, i)
}

pub proof fn lemma_closest_unique(cand: Rect, rooms: Seq<Rect>, i1: int, i2: int)
    requires
        is_closest(cand, rooms, i1),
        is_closest(cand, rooms, i2),
    ensures
        i1 == i2,
{
}

impl Rect {
    pub fn new(x: i32, y: i32, w: i32, h: i32) -> (r: Rect)
        requires
            i32::MIN <= x + w <= i32::MAX,
            i32::MIN <= y + h <= i32::MAX,
        ensures
            r.x1 == x && r.y1 == y && r.x2 == x + w && r.y2 == y + h,
    {
        Rect { x1: x, y1: y, x2: x + w, y2: y + h }
    }

    pub fn intersect_with(&self, other: &Rect) -> (r: bool)
        ensures
            r == spec_overlaps(*self, *other),
    {
        (self.x1 <= other.x2) && (self.x2 >= other.x1) && (self.y1 <= other.y2)
            && (self.y2 >= other.y1)
    }

    /// Integer-truncated midpoint of each axis.
    pub fn center(&self) -> (c: (i32, i32))
        requires
            0 <= self.x1 + self.x2 <= i32::MAX,
            0 <= self.y1 + self.y2 <= i32::MAX,
        ensures
            c.0 == spec_center_x(*self),
            c.1 == spec_center_y(*self),
    {
        let sx: i32 = self.x1 + self.x2;
        let sy: i32 = self.y1 + self.y2;
        let cx: i32 = ((sx as u32) / 2) as i32;
        let cy: i32 = ((sy as u32) / 2) as i32;
        (cx, cy)
    }

    /// Euclidean center-to-center distance, rounded to the nearest integer.
    pub fn distance_to(&self, other: &Rect) -> (d: i32)
        requires
            rect_wf(*self) && rect_in_range(*self),
            rect_wf(*other) && rect_in_range(*other),
        ensures
            d as int == spec_distance(*self, *other),
            d >= 0,
    {
        proof {
            lemma_center_in_interior(*self);
            lemma_center_in_interior(*other);
        }
        let (sx, sy) = self.center();
        let (ox, oy) = other.center();
        let dx: i64 = (ox as i64) - (sx as i64);
        let dy: i64 = (oy as i64) - (sy as i64);
        proof {
            assert(0 <= dx * dx <= 0x1_0000_0000) by (nonlinear_arith)
                requires
                    -0x1_0000 <= dx <= 0x1_0000,
            ;
            assert(0 <= dy * dy <= 0x1_0000_0000) by (nonlinear_arith)
                requires
                    -0x1_0000 <= dy <= 0x1_0000,
            ;
        }
        let sumsq: i64 = dx * dx + dy * dy;
        let n: u64 = sumsq as u64;
        let r: u64 = isqrt_round(n);
        proof {
            assert(r * r - r < n ==> r <= 0x2_0000) by (nonlinear_arith)
                requires
                    0 <= r,
                    n <= 0x2_0000_0000,
            ;
        }
        r as i32
    }

    /// Index of the nearest distinct entry of `vector`; on a tie the
    /// earliest-inserted entry wins, which keeps placement deterministic
    /// for a fixed draw sequence.
    #[verifier::loop_isolation(false)]
    pub fn find_closest(&self, vector: &Vec<Rect>) -> (idx: usize)
        requires
            rect_wf(*self) && rect_in_range(*self),
            forall|j: int|
                0 <= j < vector@.len() ==> rect_wf(#[trigger] vector@[j]) && rect_in_range(
                    vector@[j],
                ),
            exists|j: int| 0 <= j < vector@.len() && vector@[j] != *self,
        ensures
            is_closest(*self, vector@, idx as int),
    {
        let mut best: usize = 0;
        let mut best_d: i32 = 0;
        let mut found = false;
        let mut j: usize = 0;
        while j < vector.len()
            invariant
                j <= vector@.len(),
                !found ==> forall|k: int| 0 <= k < j ==> vector@[k] == *self,
                found ==> (best as int) < j && vector@[best as int] != *self,
                found ==> (best_d as int) == spec_distance(*self, vector@[best as int]),
                found ==> forall|k: int|
                    0 <= k < j && #[trigger] vector@[k] != *self ==> (best_d as int)
                        <= spec_distance(*self, vector@[k]),
                found ==> forall|k: int|
                    0 <= k < best as int && #[trigger] vector@[k] != *self ==> (best_d as int)
                        < spec_distance(*self, vector@[k]),
            decreases vector@.len() - j,
        {
            let v = vector[j];
            if v != *self {
                let d = self.distance_to(&v);
                if !found || d < best_d {
                    found = true;
                    best = j;
                    best_d = d;
                }
            }
            j += 1;
        }
        best
    }
}

/// Overlap is symmetric: the test reports the same answer whichever
/// rectangle comes first.
pub proof fn lemma_overlaps_symmetric(a: Rect, b: Rect)
    ensures
        spec_overlaps(a, b) == spec_overlaps(b, a),
{
}

/// A well-formed rectangle always overlaps itself, so two rectangles that
/// do not overlap are never equal.
pub proof fn lemma_overlaps_self(a: Rect)
    requires
        rect_wf(a),
    ensures
        spec_overlaps(a, a),
{
}

/// Two rectangles that share exactly one vertical edge (`a.x2 == b.x1`)
/// while their y-spans intersect are reported as overlapping: boundary
/// contact counts as overlap under the closed-interval policy.
pub proof fn lemma_edge_touch_overlaps(a: Rect, b: Rect)
    requires
        rect_wf(a),
        rect_wf(b),
        a.x2 == b.x1,
        a.y1 <= b.y2,
        a.y2 >= b.y1,
    ensures
        spec_overlaps(a, b),
{
}

} // verus!

//! Room rectangles and the carving primitives of the layout generator.
use vstd::prelude::*;

use crate::tile::{map_dims_ok, set_tile, tile_at, Grid, Tile, MAP_HEIGHT, MAP_WIDTH};

verus! {

/// Largest side length of a generated room, interior included.
pub const ROOM_MAX_SIZE: i32 = 10;

/// Smallest side length of a generated room.
pub const ROOM_MIN_SIZE: i32 = 6;

/// Number of room placements attempted per level.
pub const MAX_ROOMS: i32 = 30;

/// A half-open axis-aligned region `[x1, x2) x [y1, y2)` used during
/// level generation.
#[derive(Clone, Copy, Debug, PartialEq, Eq, Structural)]
pub struct Rect {
    pub x1: i32,
    pub y1: i32,
    pub x2: i32,
    pub y2: i32,
}

impl Rect {
    /// Whether two rectangles touch or overlap, borders included.
    pub open spec fn spec_intersects(self, other: Rect) -> bool {
        self.x1 <= other.x2 && self.x2 >= other.x1 && self.y1 <= other.y2 && self.y2 >= other.y1
    }

    /// The rectangle with top-left corner `(x, y)`, width `w` and height `h`.
    pub fn new(x: i32, y: i32, w: i32, h: i32) -> (r: Rect)
        requires
            i32::MIN <= x + w <= i32::MAX,
            i32::MIN <= y + h <= i32::MAX,
        ensures
            r.x1 == x,
            r.y1 == y,
            r.x2 == x + w,
            r.y2 == y + h,
    {
        Rect { x1: x, y1: y, x2: x + w, y2: y + h }
    }

    /// The rectangle's center point.
    pub fn center(&self) -> (c: (i32, i32))
        requires
            0 <= self.x1 <= self.x2,
            0 <= self.y1 <= self.y2,
            self.x1 + self.x2 <= i32::MAX,
            self.y1 + self.y2 <= i32::MAX,
        ensures
            c.0 == (self.x1 + self.x2) / 2,
            c.1 == (self.y1 + self.y2) / 2,
            self.x1 <= c.0 <= self.x2,
            self.y1 <= c.1 <= self.y2,
    {
        let center_x = (self.x1 + self.x2) / 2;
        let center_y = (self.y1 + self.y2) / 2;
        (center_x, center_y)
    }

    /// Whether this rectangle intersects another one, borders included.
    pub fn intersects_with(&self, other: &Rect) -> (r: bool)
        ensures
            r == self.spec_intersects(*other),
    {
        (self.x1 <= other.x2) && (self.x2 >= other.x1) && (self.y1 <= other.y2) && (self.y2
            >= other.y1)
    }
}

/// Make every tile of the room's region passable; other tiles are untouched.
pub fn create_room(room: Rect, map: &mut Grid)
    requires
        map_dims_ok(old(map)),
        0 <= room.x1 <= room.x2 <= MAP_WIDTH,
        0 <= room.y1 <= room.y2 <= MAP_HEIGHT,
    ensures
        map_dims_ok(final(map)),
        forall|x: int, y: int|
            0 <= x < MAP_WIDTH && 0 <= y < MAP_HEIGHT ==> tile_at(final(map), x, y) == (if room.x1
                <= x < room.x2 && room.y1 <= y < room.y2 {
                (Tile { blocked: false, block_sight: false, visible: false, ever_seen: false })
            } else {
                tile_at(old(map), x, y)
            }),
{
    let mut x = room.x1;
    while x < room.x2
        invariant
            map_dims_ok(map),
            0 <= room.x1 <= x <= room.x2 <= MAP_WIDTH,
            0 <= room.y1 <= room.y2 <= MAP_HEIGHT,
            forall|i: int, j: int|
                0 <= i < MAP_WIDTH && 0 <= j < MAP_HEIGHT ==> tile_at(map, i, j) == (if room.x1 <= i
                    < x && room.y1 <= j < room.y2 {
                    (Tile { blocked: false, block_sight: false, visible: false, ever_seen: false })
                } else {
                    tile_at(old(map), i, j)
                }),
        decreases room.x2 - x,
    {
        let mut y = room.y1;
        while y < room.y2
            invariant
                map_dims_ok(map),
                0 <= room.x1 <= x < room.x2 <= MAP_WIDTH,
                0 <= room.y1 <= y <= room.y2 <= MAP_HEIGHT,
                forall|i: int, j: int|
                    0 <= i < MAP_WIDTH && 0 <= j < MAP_HEIGHT ==> tile_at(map, i, j) == (if (room.x1
                        <= i < x && room.y1 <= j < room.y2) || (i == x && room.y1 <= j < y) {
                        (Tile {
                            blocked: false,
                            block_sight: false,
                            visible: false,
                            ever_seen: false,
                        })
                    } else {
                        tile_at(old(map), i, j)
                    }),
            decreases room.y2 - y,
        {
            set_tile(map, x, y, Tile::empty());
            y = y + 1;
        }
        x = x + 1;
    }
}

/// Carve a horizontal tunnel at row `y` covering columns `min(x1, x2)`
/// through `max(x1, x2)` inclusive; other tiles are untouched.
pub fn create_h_tunnel(x1: i32, x2: i32, y: i32, map: &mut Grid)
    requires
        map_dims_ok(old(map)),
        0 <= x1 < MAP_WIDTH,
        0 <= x2 < MAP_WIDTH,
        0 <= y < MAP_HEIGHT,
    ensures
        map_dims_ok(final(map)),
        forall|i: int, j: int|
            0 <= i < MAP_WIDTH && 0 <= j < MAP_HEIGHT ==> tile_at(final(map), i, j) == (if j == y
                && min_i32(x1, x2) <= i <= max_i32(x1, x2) {
                (Tile { blocked: false, block_sight: false, visible: false, ever_seen: false })
            } else {
                tile_at(old(map), i, j)
            }),
{
    let lo: i32 = if x1 < x2 {
        x1
    } else {
        x2
    };
    let hi: i32 = if x1 < x2 {
        x2
    } else {
        x1
    };
    let mut x = lo;
    while x <= hi
        invariant
            map_dims_ok(map),
            0 <= lo <= x <= hi + 1,
            hi < MAP_WIDTH,
            0 <= y < MAP_HEIGHT,
            lo == min_i32(x1, x2),
            hi == max_i32(x1, x2),
            forall|i: int, j: int|
                0 <= i < MAP_WIDTH && 0 <= j < MAP_HEIGHT ==> tile_at(map, i, j) == (if j == y && lo
                    <= i < x {
                    (Tile { blocked: false, block_sight: false, visible: false, ever_seen: false })
                } else {
                    tile_at(old(map), i, j)
                }),
        decreases hi + 1 - x,
    {
        set_tile(map, x, y, Tile::empty());
        x = x + 1;
    }
}

/// Carve a vertical tunnel at column `x` covering rows `min(y1, y2)`
/// through `max(y1, y2)` inclusive; other tiles are untouched.
pub fn create_v_tunnel(y1: i32, y2: i32, x: i32, map: &mut Grid)
    requires
        map_dims_ok(old(map)),
        0 <= y1 < MAP_HEIGHT,
        0 <= y2 < MAP_HEIGHT,
        0 <= x < MAP_WIDTH,
    ensures
        map_dims_ok(final(map)),
        forall|i: int, j: int|
            0 <= i < MAP_WIDTH && 0 <= j < MAP_HEIGHT ==> tile_at(final(map), i, j) == (if i == x
                && min_i32(y1, y2) <= j <= max_i32(y1, y2) {
                (Tile { blocked: false, block_sight: false, visible: false, ever_seen: false })
            } else {
                tile_at(old(map), i, j)
            }),
{
    let lo: i32 = if y1 < y2 {
        y1
    } else {
        y2
    };
    let hi: i32 = if y1 < y2 {
        y2
    } else {
        y1
    };
    let mut y = lo;
    while y <= hi
        invariant
            map_dims_ok(map),
            0 <= lo <= y <= hi + 1,
            hi < MAP_HEIGHT,
            0 <= x < MAP_WIDTH,
            lo == min_i32(y1, y2),
            hi == max_i32(y1, y2),
            forall|i: int, j: int|
                0 <= i < MAP_WIDTH && 0 <= j < MAP_HEIGHT ==> tile_at(map, i, j) == (if i == x && lo
                    <= j < y {
                    (Tile { blocked: false, block_sight: false, visible: false, ever_seen: false })
                } else {
                    tile_at(old(map), i, j)
                }),
        decreases hi + 1 - y,
    {
        set_tile(map, x, y, Tile::empty());
        y = y + 1;
    }
}

/// The smaller of two values.
pub open spec fn min_i32(a: i32, b: i32) -> int {
    if a < b {
        a as int
    } else {
        b as int
    }
}

/// The larger of two values.
pub open spec fn max_i32(a: i32, b: i32) -> int {
    if a < b {
        b as int
    } else {
        a as int
    }
}

/// Whether `v` lies between `a` and `b`, inclusive, in either order.
pub open spec fn between(a: int, b: int, v: int) -> bool {
    (a <= v <= b) || (b <= v <= a)
}

/// The center of a room rectangle.
pub open spec fn spec_center(r: Rect) -> (int, int) {
    ((r.x1 + r.x2) / 2, (r.y1 + r.y2) / 2)
}

/// Whether `(x, y)` lies on one of the two possible L-shaped corridors
/// connecting centers `(cx1, cy1)` and `(cx2, cy2)`: a horizontal leg at
/// either row joined to a vertical leg at either column.
pub open spec fn on_corridor(cx1: int, cy1: int, cx2: int, cy2: int, x: int, y: int) -> bool {
    ||| (y == cy1 && between(cx1, cx2, x))
    ||| (x == cx2 && between(cy1, cy2, y))
    ||| (x == cx1 && between(cy1, cy2, y))
    ||| (y == cy2 && between(cx1, cx2, x))
}

/// Every cell of row `y` between columns `a` and `b` (inclusive, in
/// either order) is passable.
pub open spec fn h_leg_passable(m: &Grid, a: int, b: int, y: int) -> bool {
    forall|x: int| between(a, b, x) ==> !(#[trigger] tile_at(m, x, y)).blocked
}

/// Every cell of column `x` between rows `a` and `b` (inclusive, in
/// either order) is passable.
pub open spec fn v_leg_passable(m: &Grid, a: int, b: int, x: int) -> bool {
    forall|y: int| between(a, b, y) ==> !(#[trigger] tile_at(m, x, y)).blocked
}

/// One full L-shaped corridor between the centers `(cx1, cy1)` and
/// `(cx2, cy2)` is passable: either the horizontal-then-vertical order
/// or the vertical-then-horizontal one.
pub open spec fn l_corridor_passable(m: &Grid, cx1: int, cy1: int, cx2: int, cy2: int) -> bool {
    ||| (h_leg_passable(m, cx1, cx2, cy1) && v_leg_passable(m, cy1, cy2, cx2))
    ||| (v_leg_passable(m, cy1, cy2, cx1) && h_leg_passable(m, cx1, cx2, cy2))
}

/// Carving only opens cells: nothing passable in `m1` is walled in `m2`.
pub open spec fn no_new_walls(m1: &Grid, m2: &Grid) -> bool {
    forall|x: int, y: int|
        0 <= x < MAP_WIDTH && 0 <= y < MAP_HEIGHT && !(#[trigger] tile_at(m1, x, y)).blocked
            ==> !(#[trigger] tile_at(m2, x, y)).blocked
}

/// Passable corridors survive further carving.
pub proof fn lemma_corridor_passable_monotone(
    m1: &Grid,
    m2: &Grid,
    cx1: int,
    cy1: int,
    cx2: int,
    cy2: int,
)
    requires
        no_new_walls(m1, m2),
        0 <= cx1 < MAP_WIDTH,
        0 <= cx2 < MAP_WIDTH,
        0 <= cy1 < MAP_HEIGHT,
        0 <= cy2 < MAP_HEIGHT,
        l_corridor_passable(m1, cx1, cy1, cx2, cy2),
    ensures
        l_corridor_passable(m2, cx1, cy1, cx2, cy2),
{
    if h_leg_passable(m1, cx1, cx2, cy1) && v_leg_passable(m1, cy1, cy2, cx2) {
        assert forall|x: int| between(cx1, cx2, x) implies !(#[trigger] tile_at(
            m2,
            x,
            cy1,
        )).blocked by {
            assert(!tile_at(m1, x, cy1).blocked);
        }
        assert forall|y: int| between(cy1, cy2, y) implies !(#[trigger] tile_at(
            m2,
            cx2,
            y,
        )).blocked by {
            assert(!tile_at(m1, cx2, y).blocked);
        }
    } else {
        assert forall|y: int| between(cy1, cy2, y) implies !(#[trigger] tile_at(
            m2,
            cx1,
            y,
        )).blocked by {
            assert(!tile_at(m1, cx1, y).blocked);
        }
        assert forall|x: int| between(cx1, cx2, x) implies !(#[trigger] tile_at(
            m2,
            x,
            cy2,
        )).blocked by {
            assert(!tile_at(m1, x, cy2).blocked);
        }
    }
}

/// A room rectangle that fits the grid with a one-tile wall margin on
/// the far sides and a non-degenerate interior.
pub open spec fn room_bounds_ok(r: Rect) -> bool {
    &&& 0 <= r.x1
    &&& r.x1 + 1 < r.x2 <= MAP_WIDTH - 1
    &&& 0 <= r.y1
    &&& r.y1 + 1 < r.y2 <= MAP_HEIGHT - 1
}

} // verus!

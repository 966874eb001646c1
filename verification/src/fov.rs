//! The visibility engine: discrete sight lines traced with an integer
//! error accumulator, and the per-turn recomputation of the `visible`
//! and `ever_seen` tile flags.
use vstd::prelude::*;

use crate::tile::{get_tile, map_dims_ok, set_tile, tile_at, Grid, Tile, MAP_HEIGHT, MAP_WIDTH};

verus! {

/// How far, in tiles, each cardinal sight ray reaches.
pub const RAY_LEN: i32 = 8;

/// One cell on a traced sight line.
#[derive(Clone, Copy, Debug, PartialEq, Eq, Structural)]
pub struct Point {
    pub x: i32,
    pub y: i32,
}

/// One rasterization step of the error-accumulator line tracer: advance
/// along an axis when the accumulated error allows it and that axis has
/// not reached its target coordinate yet.
pub open spec fn trace_line(
    m: &Grid,
    x: int,
    y: int,
    x2: int,
    y2: int,
    dx: int,
    dy: int,
    sx: int,
    sy: int,
    err: int,
    fuel: int,
) -> Seq<Point>
    decreases fuel,
{
    seq![Point { x: x as i32, y: y as i32 }] + if (x == x2 && y == y2) || tile_at(
        m,
        x,
        y,
    ).block_sight || fuel <= 0 {
        Seq::<Point>::empty()
    } else {
        let can_x = x != x2 && err > -dx;
        let can_y = y != y2 && err < dy;
        trace_line(
            m,
            if can_x {
                x + sx
            } else {
                x
            },
            if can_y {
                y + sy
            } else {
                y
            },
            x2,
            y2,
            dx,
            dy,
            sx,
            sy,
            err + (if can_x {
                -dy
            } else {
                0
            }) + (if can_y {
                dx
            } else {
                0
            }),
            fuel - 1,
        )
    }
}

/// The absolute difference of two coordinates.
pub open spec fn abs_diff(a: int, b: int) -> int {
    if a < b {
        b - a
    } else {
        a - b
    }
}

/// The cells of the sight line from `(x1, y1)` toward `(x2, y2)`: every
/// visited cell in order, ending at the target cell or at the first
/// sight-blocking cell, whichever comes first.
pub open spec fn line_points(m: &Grid, x1: int, y1: int, x2: int, y2: int) -> Seq<Point> {
    let dx = abs_diff(x1, x2);
    let dy = abs_diff(y1, y2);
    trace_line(
        m,
        x1,
        y1,
        x2,
        y2,
        dx,
        dy,
        if x1 < x2 {
            1
        } else {
            -1
        },
        if y1 < y2 {
            1
        } else {
            -1
        },
        if dx > dy {
            dx / 2
        } else {
            -(dy / 2)
        },
        dx + dy + 1,
    )
}

/// Every cell of a trace except the last is free of sight blockers: a
/// sight line never continues past the first blocking cell.
proof fn lemma_trace_stops_at_blocker(
    m: &Grid,
    x: int,
    y: int,
    x2: int,
    y2: int,
    dx: int,
    dy: int,
    sx: int,
    sy: int,
    err: int,
    fuel: int,
)
    requires
        -1 <= sx <= 1,
        -1 <= sy <= 1,
        -300000 <= x - fuel,
        x + fuel <= 300000,
        -300000 <= y - fuel,
        y + fuel <= 300000,
    ensures
        ({
            let pts = trace_line(m, x, y, x2, y2, dx, dy, sx, sy, err, fuel);
            forall|i: int|
                0 <= i < pts.len() - 1 ==> !tile_at(
                    m,
                    (#[trigger] pts[i]).x as int,
                    pts[i].y as int,
                ).block_sight
        }),
    decreases fuel,
{
    if !((x == x2 && y == y2) || tile_at(m, x, y).block_sight || fuel <= 0) {
        let can_x = x != x2 && err > -dx;
        let can_y = y != y2 && err < dy;
        let nx = if can_x {
            x + sx
        } else {
            x
        };
        let ny = if can_y {
            y + sy
        } else {
            y
        };
        let nerr = err + (if can_x {
            -dy
        } else {
            0
        }) + (if can_y {
            dx
        } else {
            0
        });
        lemma_trace_stops_at_blocker(m, nx, ny, x2, y2, dx, dy, sx, sy, nerr, fuel - 1);
        let pts = trace_line(m, x, y, x2, y2, dx, dy, sx, sy, err, fuel);
        let rest = trace_line(m, nx, ny, x2, y2, dx, dy, sx, sy, nerr, fuel - 1);
        assert(pts =~= seq![Point { x: x as i32, y: y as i32 }] + rest);
        assert forall|i: int|
            0 <= i < pts.len() - 1 implies !tile_at(
            m,
            (#[trigger] pts[i]).x as int,
            pts[i].y as int,
        ).block_sight by {
            if i > 0 {
                assert(pts[i] == rest[i - 1]);
            }
        }
    }
}

/// A traced sight line never marks a cell beyond the first sight-blocking
/// cell it encounters: every cell of the line except the final one is
/// free of sight blockers, so only the line's terminal cell can block.
pub proof fn lemma_line_stops_at_blocker(m: &Grid, x1: int, y1: int, x2: int, y2: int)
    requires
        0 <= x1 < MAP_WIDTH,
        0 <= y1 < MAP_HEIGHT,
        0 <= x2 < MAP_WIDTH,
        0 <= y2 < MAP_HEIGHT,
    ensures
        ({
            let pts = line_points(m, x1, y1, x2, y2);
            forall|i: int|
                0 <= i < pts.len() - 1 ==> !tile_at(
                    m,
                    (#[trigger] pts[i]).x as int,
                    pts[i].y as int,
                ).block_sight
        }),
{
    let dx = abs_diff(x1, x2);
    let dy = abs_diff(y1, y2);
    lemma_trace_stops_at_blocker(
        m,
        x1,
        y1,
        x2,
        y2,
        dx,
        dy,
        if x1 < x2 {
            1
        } else {
            -1
        },
        if y1 < y2 {
            1
        } else {
            -1
        },
        if dx > dy {
            dx / 2
        } else {
            -(dy / 2)
        },
        dx + dy + 1,
    );
}

/// The visibility engine is deterministic: the traced sight lines are a
/// pure function of the grid and the endpoints, so equal grids and equal
/// endpoints always yield equal lines.
pub proof fn lemma_line_deterministic(m1: &Grid, m2: &Grid, x1: int, y1: int, x2: int, y2: int)
    requires
        m1@ == m2@,
    ensures
        line_points(m1, x1, y1, x2, y2) == line_points(m2, x1, y1, x2, y2),
{
    lemma_trace_view_only(
        m1,
        m2,
        x1,
        y1,
        x2,
        y2,
        abs_diff(x1, x2),
        abs_diff(y1, y2),
        if x1 < x2 {
            1
        } else {
            -1
        },
        if y1 < y2 {
            1
        } else {
            -1
        },
        if abs_diff(x1, x2) > abs_diff(y1, y2) {
            abs_diff(x1, x2) / 2
        } else {
            -(abs_diff(y1, y2) / 2)
        },
        abs_diff(x1, x2) + abs_diff(y1, y2) + 1,
    );
}

/// Tracing depends only on the grid's contents, not on which allocation
/// holds them.
proof fn lemma_trace_view_only(
    m1: &Grid,
    m2: &Grid,
    x: int,
    y: int,
    x2: int,
    y2: int,
    dx: int,
    dy: int,
    sx: int,
    sy: int,
    err: int,
    fuel: int,
)
    requires
        m1@ == m2@,
    ensures
        trace_line(m1, x, y, x2, y2, dx, dy, sx, sy, err, fuel) == trace_line(
            m2,
            x,
            y,
            x2,
            y2,
            dx,
            dy,
            sx,
            sy,
            err,
            fuel,
        ),
    decreases fuel,
{
    if !((x == x2 && y == y2) || tile_at(m1, x, y).block_sight || fuel <= 0) {
        let can_x = x != x2 && err > -dx;
        let can_y = y != y2 && err < dy;
        lemma_trace_view_only(
            m1,
            m2,
            if can_x {
                x + sx
            } else {
                x
            },
            if can_y {
                y + sy
            } else {
                y
            },
            x2,
            y2,
            dx,
            dy,
            sx,
            sy,
            err + (if can_x {
                -dy
            } else {
                0
            }) + (if can_y {
                dx
            } else {
                0
            }),
            fuel - 1,
        );
    }
}

/// Trace the sight line from `(x1, y1)` toward `(x2, y2)` on the grid,
/// stopping at the target or at the first sight-blocking cell.
pub fn line(x1: i32, y1: i32, x2: i32, y2: i32, map: &Grid) -> (r: Vec<Point>)
    requires
        map_dims_ok(map),
        0 <= x1 < MAP_WIDTH,
        0 <= y1 < MAP_HEIGHT,
        0 <= x2 < MAP_WIDTH,
        0 <= y2 < MAP_HEIGHT,
    ensures
        r@ == line_points(map, x1 as int, y1 as int, x2 as int, y2 as int),
        forall|i: int|
            0 <= i < r@.len() ==> 0 <= (#[trigger] r@[i]).x < MAP_WIDTH && 0 <= r@[i].y
                < MAP_HEIGHT,
{
    let mut coordinates: Vec<Point> = Vec::new();
    let dx: i32 = if x1 < x2 {
        x2 - x1
    } else {
        x1 - x2
    };
    let dy: i32 = if y1 < y2 {
        y2 - y1
    } else {
        y1 - y2
    };
    let sx: i32 = if x1 < x2 {
        1
    } else {
        -1
    };
    let sy: i32 = if y1 < y2 {
        1
    } else {
        -1
    };
    let mut err: i32 = if dx > dy {
        dx / 2
    } else {
        -(dy / 2)
    };
    let ghost fuel0: int = dx + dy + 1;
    let mut fuel: i32 = dx + dy + 1;
    let mut x = x1;
    let mut y = y1;
    loop
        invariant_except_break
            map_dims_ok(map),
            dx == abs_diff(x1 as int, x2 as int),
            dy == abs_diff(y1 as int, y2 as int),
            sx == (if x1 < x2 {
                1int
            } else {
                -1int
            }),
            sy == (if y1 < y2 {
                1int
            } else {
                -1int
            }),
            0 <= x2 < MAP_WIDTH,
            0 <= y2 < MAP_HEIGHT,
            (if x1 < x2 {
                x1 <= x <= x2
            } else {
                x2 <= x <= x1
            }),
            (if y1 < y2 {
                y1 <= y <= y2
            } else {
                y2 <= y <= y1
            }),
            0 <= x1 < MAP_WIDTH,
            0 <= y1 < MAP_HEIGHT,
            0 <= fuel <= fuel0,
            fuel0 == dx + dy + 1,
            -200 - (fuel0 - fuel) * 130 <= err <= 200 + (fuel0 - fuel) * 130,
            coordinates@ + trace_line(
                map,
                x as int,
                y as int,
                x2 as int,
                y2 as int,
                dx as int,
                dy as int,
                sx as int,
                sy as int,
                err as int,
                fuel as int,
            ) == line_points(map, x1 as int, y1 as int, x2 as int, y2 as int),
            forall|i: int|
                0 <= i < coordinates@.len() ==> 0 <= (#[trigger] coordinates@[i]).x < MAP_WIDTH
                    && 0 <= coordinates@[i].y < MAP_HEIGHT,
        ensures
            coordinates@ == line_points(map, x1 as int, y1 as int, x2 as int, y2 as int),
            forall|i: int|
                0 <= i < coordinates@.len() ==> 0 <= (#[trigger] coordinates@[i]).x < MAP_WIDTH
                    && 0 <= coordinates@[i].y < MAP_HEIGHT,
        decreases fuel,
    {
        coordinates.push(Point { x, y });
        if (x == x2 && y == y2) || map[x as usize][y as usize].block_sight || fuel == 0 {
            break ;
        }
        let err2 = err;
        if x != x2 && err2 > -dx {
            err = err - dy;
            x = x + sx;
        }
        if y != y2 && err2 < dy {
            err = err + dx;
            y = y + sy;
        }
        fuel = fuel - 1;
    }
    coordinates
}

/// Clamp a column index onto the grid.
pub open spec fn clamp_x(v: int) -> int {
    if v < 0 {
        0
    } else if v > MAP_WIDTH - 1 {
        MAP_WIDTH - 1
    } else {
        v
    }
}

/// Clamp a row index onto the grid.
pub open spec fn clamp_y(v: int) -> int {
    if v < 0 {
        0
    } else if v > MAP_HEIGHT - 1 {
        MAP_HEIGHT - 1
    } else {
        v
    }
}

/// All cells of the four cardinal sight rays cast from `(px, py)`.
pub open spec fn spec_ray_points(m: &Grid, px: int, py: int) -> Seq<Point> {
    line_points(m, px, py, clamp_x(px + RAY_LEN), py) + line_points(
        m,
        px,
        py,
        clamp_x(px - RAY_LEN),
        py,
    ) + line_points(m, px, py, px, clamp_y(py + RAY_LEN)) + line_points(
        m,
        px,
        py,
        px,
        clamp_y(py - RAY_LEN),
    )
}

/// Whether the cell `(x, y)` is visible from `(px, py)`: it lies on one
/// of the four cardinal sight rays.
pub open spec fn spec_visible_from(m: &Grid, px: int, py: int, x: int, y: int) -> bool {
    spec_ray_points(m, px, py).contains(Point { x: x as i32, y: y as i32 })
}

/// Recompute the visibility flags around the viewpoint `(px, py)`: every
/// tile's transient `visible` flag is reset, then every cell on one of
/// the four cardinal sight rays becomes visible and permanently seen.
/// The result is a pure function of the grid and viewpoint.
pub fn raycast_on_map(map: &mut Grid, px: i32, py: i32)
    requires
        map_dims_ok(old(map)),
        0 <= px < MAP_WIDTH,
        0 <= py < MAP_HEIGHT,
    ensures
        map_dims_ok(final(map)),
        forall|x: int, y: int|
            0 <= x < MAP_WIDTH && 0 <= y < MAP_HEIGHT ==> #[trigger] tile_at(final(map), x, y)
                == (Tile {
                blocked: tile_at(old(map), x, y).blocked,
                block_sight: tile_at(old(map), x, y).block_sight,
                visible: spec_visible_from(old(map), px as int, py as int, x, y),
                ever_seen: tile_at(old(map), x, y).ever_seen || spec_visible_from(
                    old(map),
                    px as int,
                    py as int,
                    x,
                    y,
                ),
            }),
{
    let tx_hi: i32 = if px + RAY_LEN > MAP_WIDTH - 1 {
        MAP_WIDTH - 1
    } else {
        px + RAY_LEN
    };
    let tx_lo: i32 = if px - RAY_LEN < 0 {
        0
    } else {
        px - RAY_LEN
    };
    let ty_hi: i32 = if py + RAY_LEN > MAP_HEIGHT - 1 {
        MAP_HEIGHT - 1
    } else {
        py + RAY_LEN
    };
    let ty_lo: i32 = if py - RAY_LEN < 0 {
        0
    } else {
        py - RAY_LEN
    };
    let mut pts = line(px, py, tx_hi, py, map);
    let mut r2 = line(px, py, tx_lo, py, map);
    let mut r3 = line(px, py, px, ty_hi, map);
    let mut r4 = line(px, py, px, ty_lo, map);
    pts.append(&mut r2);
    pts.append(&mut r3);
    pts.append(&mut r4);
    proof {
        assert(pts@ == spec_ray_points(old(map), px as int, py as int));
    }
    // Reset the transient visibility of every tile.
    let mut x: i32 = 0;
    while x < MAP_WIDTH
        invariant
            map_dims_ok(map),
            0 <= x <= MAP_WIDTH,
            forall|i: int, j: int|
                0 <= i < MAP_WIDTH && 0 <= j < MAP_HEIGHT ==> tile_at(map, i, j) == (Tile {
                    blocked: tile_at(old(map), i, j).blocked,
                    block_sight: tile_at(old(map), i, j).block_sight,
                    visible: (if i < x {
                        false
                    } else {
                        tile_at(old(map), i, j).visible
                    }),
                    ever_seen: tile_at(old(map), i, j).ever_seen,
                }),
        decreases MAP_WIDTH - x,
    {
        let mut y: i32 = 0;
        while y < MAP_HEIGHT
            invariant
                map_dims_ok(map),
                0 <= x < MAP_WIDTH,
                0 <= y <= MAP_HEIGHT,
                forall|i: int, j: int|
                    0 <= i < MAP_WIDTH && 0 <= j < MAP_HEIGHT ==> tile_at(map, i, j) == (Tile {
                        blocked: tile_at(old(map), i, j).blocked,
                        block_sight: tile_at(old(map), i, j).block_sight,
                        visible: (if i < x || (i == x && j < y) {
                            false
                        } else {
                            tile_at(old(map), i, j).visible
                        }),
                        ever_seen: tile_at(old(map), i, j).ever_seen,
                    }),
            decreases MAP_HEIGHT - y,
        {
            let t = get_tile(map, x, y);
            set_tile(map, x, y, Tile { visible: false, ..t });
            y = y + 1;
        }
        x = x + 1;
    }
    // Mark every traced cell visible and permanently seen.
    let n = pts.len();
    let mut k: usize = 0;
    while k < n
        invariant
            map_dims_ok(map),
            n == pts@.len(),
            0 <= k <= n,
            pts@ == spec_ray_points(old(map), px as int, py as int),
            forall|i: int|
                0 <= i < n ==> 0 <= (#[trigger] pts@[i]).x < MAP_WIDTH && 0 <= pts@[i].y
                    < MAP_HEIGHT,
            forall|i: int, j: int|
                0 <= i < MAP_WIDTH && 0 <= j < MAP_HEIGHT ==> tile_at(map, i, j) == (Tile {
                    blocked: tile_at(old(map), i, j).blocked,
                    block_sight: tile_at(old(map), i, j).block_sight,
                    visible: pts@.take(k as int).contains(Point { x: i as i32, y: j as i32 }),
                    ever_seen: tile_at(old(map), i, j).ever_seen || pts@.take(k as int).contains(
                        Point { x: i as i32, y: j as i32 },
                    ),
                }),
        decreases n - k,
    {
        let p = pts[k];
        let t = get_tile(map, p.x, p.y);
        set_tile(map, p.x, p.y, Tile { visible: true, ever_seen: true, ..t });
        proof {
            assert forall|i: int, j: int| 0 <= i < MAP_WIDTH && 0 <= j < MAP_HEIGHT implies #[trigger] pts@.take(
                k + 1,
            ).contains(Point { x: i as i32, y: j as i32 }) == (pts@.take(k as int).contains(
                Point { x: i as i32, y: j as i32 },
            ) || (i == p.x as int && j == p.y as int)) by {
                let q = Point { x: i as i32, y: j as i32 };
                if pts@.take(k as int).contains(q) {
                    let w = choose|w: int| 0 <= w < k && #[trigger] pts@.take(k as int)[w] == q;
                    assert(pts@.take(k + 1)[w] == q);
                } else if i == p.x as int && j == p.y as int {
                    assert(pts@.take(k + 1)[k as int] == q);
                } else if pts@.take(k + 1).contains(q) {
                    let w = choose|w: int| 0 <= w < k + 1 && #[trigger] pts@.take(k + 1)[w] == q;
                    if w < k {
                        assert(pts@.take(k as int)[w] == q);
                    }
                }
            }
        }
        k = k + 1;
    }
    proof {
        assert(pts@.take(n as int) =~= pts@);
    }
}

/// The visibility engine is deterministic: the recomputed visible set
/// is a pure function of the grid contents and the viewpoint, so equal
/// grids and equal viewpoints always yield equal visibility.
pub proof fn lemma_visibility_deterministic(m1: &Grid, m2: &Grid, px: int, py: int, x: int, y: int)
    requires
        m1@ == m2@,
    ensures
        spec_visible_from(m1, px, py, x, y) == spec_visible_from(m2, px, py, x, y),
{
    lemma_line_deterministic(m1, m2, px, py, clamp_x(px + RAY_LEN), py);
    lemma_line_deterministic(m1, m2, px, py, clamp_x(px - RAY_LEN), py);
    lemma_line_deterministic(m1, m2, px, py, px, clamp_y(py + RAY_LEN));
    lemma_line_deterministic(m1, m2, px, py, px, clamp_y(py - RAY_LEN));
}

} // verus!

//! The per-cell map data: passability, sight blocking, and the two
//! visibility flags that the visibility engine recomputes each turn.
use vstd::prelude::*;

use crate::map_gen::{
    between, create_h_tunnel, create_room, create_v_tunnel, h_leg_passable, l_corridor_passable,
    lemma_corridor_passable_monotone, no_new_walls, on_corridor, room_bounds_ok, spec_center,
    v_leg_passable, Rect, MAX_ROOMS, ROOM_MAX_SIZE, ROOM_MIN_SIZE,
};
use crate::object::{obj_wf, Object};
use crate::object_gen::{spawn, spawned_ok};
use crate::rng::{rand_bool, rand_range};

verus! {

/// Grid width in tiles; tiles are addressed as `map[x][y]`.
pub const MAP_WIDTH: i32 = 100;

/// Grid height in tiles.
pub const MAP_HEIGHT: i32 = 30;

/// One grid cell. `blocked` and `block_sight` are fixed once a level is
/// generated; `visible` and `ever_seen` belong to the visibility engine.
#[derive(Clone, Copy, Debug, PartialEq, Eq, Structural)]
pub struct Tile {
    pub blocked: bool,
    pub block_sight: bool,
    pub visible: bool,
    pub ever_seen: bool,
}

impl Tile {
    /// A passable, see-through tile, initially unseen.
    pub fn empty() -> (t: Tile)
        ensures
            t == (Tile { blocked: false, block_sight: false, visible: false, ever_seen: false }),
    {
        Tile { blocked: false, block_sight: false, visible: false, ever_seen: false }
    }

    /// A solid wall tile, initially unseen.
    pub fn wall() -> (t: Tile)
        ensures
            t == (Tile { blocked: true, block_sight: true, visible: false, ever_seen: false }),
    {
        Tile { blocked: true, block_sight: true, visible: false, ever_seen: false }
    }
}

/// One dungeon level: a column-major grid of tiles, `MAP_WIDTH` columns
/// of `MAP_HEIGHT` tiles each.
pub type Grid = Vec<Vec<Tile>>;

/// The grid has exactly `MAP_WIDTH` columns of `MAP_HEIGHT` tiles each.
pub open spec fn map_dims_ok(m: &Grid) -> bool {
    &&& m@.len() == MAP_WIDTH
    &&& forall|x: int| 0 <= x < m@.len() ==> (#[trigger] m@[x])@.len() == MAP_HEIGHT
}

/// The tile at column `x`, row `y`.
pub open spec fn tile_at(m: &Grid, x: int, y: int) -> Tile {
    m@[x]@[y]
}

/// A cell is blocked if its tile is, or if some movement-blocking object
/// stands on it.
pub open spec fn spec_is_blocked(m: &Grid, objects: Seq<Object>, x: int, y: int) -> bool {
    ||| tile_at(m, x, y).blocked
    ||| exists|i: int|
        0 <= i < objects.len() && (#[trigger] objects[i]).blocks && objects[i].x == x
            && objects[i].y == y
}

/// Read the tile at `(x, y)`.
pub fn get_tile(map: &Grid, x: i32, y: i32) -> (t: Tile)
    requires
        map_dims_ok(map),
        0 <= x < MAP_WIDTH,
        0 <= y < MAP_HEIGHT,
    ensures
        t == tile_at(map, x as int, y as int),
{
    map[x as usize][y as usize]
}

/// Overwrite the tile at `(x, y)`, leaving every other tile unchanged.
pub fn set_tile(map: &mut Grid, x: i32, y: i32, t: Tile)
    requires
        map_dims_ok(old(map)),
        0 <= x < MAP_WIDTH,
        0 <= y < MAP_HEIGHT,
    ensures
        map_dims_ok(final(map)),
        forall|i: int, j: int|
            0 <= i < MAP_WIDTH && 0 <= j < MAP_HEIGHT ==> #[trigger] tile_at(final(map), i, j)
                == (if i == x && j == y {
                t
            } else {
                tile_at(old(map), i, j)
            }),
{
    map[x as usize][y as usize] = t;
}

/// Whether the cell `(x, y)` is impassable, by terrain or by an object.
pub fn is_blocked(x: i32, y: i32, map: &Grid, objects: &Vec<Object>) -> (r: bool)
    requires
        map_dims_ok(map),
        0 <= x < MAP_WIDTH,
        0 <= y < MAP_HEIGHT,
    ensures
        r == spec_is_blocked(map, objects@, x as int, y as int),
{
    if map[x as usize][y as usize].blocked {
        return true;
    }
    let n = objects.len();
    let mut i: usize = 0;
    while i < n
        invariant
            n == objects@.len(),
            0 <= i <= n,
            0 <= x < MAP_WIDTH,
            0 <= y < MAP_HEIGHT,
            forall|j: int|
                0 <= j < i ==> !((#[trigger] objects@[j]).blocks && objects@[j].x == x
                    && objects@[j].y == y),
        decreases n - i,
    {
        if objects[i].blocks && objects[i].x == x && objects[i].y == y {
            return true;
        }
        i = i + 1;
    }
    false
}

/// Whether `(x, y)` lies strictly inside some accepted room of `rooms`.
pub open spec fn in_some_room(rooms: Seq<Rect>, x: int, y: int) -> bool {
    exists|k: int|
        0 <= k < rooms.len() && (#[trigger] rooms[k]).x1 <= x < rooms[k].x2 && rooms[k].y1 <= y
            < rooms[k].y2
}

/// Whether `(x, y)` lies on a corridor between two consecutive accepted
/// rooms' centers.
pub open spec fn on_some_corridor(rooms: Seq<Rect>, x: int, y: int) -> bool {
    exists|k: int|
        1 <= k < rooms.len() && on_corridor(
            spec_center(#[trigger] rooms[k - 1]).0,
            spec_center(rooms[k - 1]).1,
            spec_center(rooms[k]).0,
            spec_center(rooms[k]).1,
            x,
            y,
        )
}

/// Between every pair of consecutive accepted rooms, one full L-shaped
/// corridor joining their centers is passable, so every room's center
/// is reachable from the first room's center.
pub open spec fn corridors_passable(m: &Grid, rooms: Seq<Rect>) -> bool {
    forall|k: int|
        1 <= k < rooms.len() ==> l_corridor_passable(
            m,
            spec_center(rooms[k - 1]).0,
            spec_center(rooms[k - 1]).1,
            spec_center(#[trigger] rooms[k]).0,
            spec_center(rooms[k]).1,
        )
}

/// Generate one dungeon level: place up to `MAX_ROOMS` random rooms,
/// rejecting (without retry) any candidate that touches an accepted
/// room, carve each accepted room and an L-shaped corridor to its
/// predecessor's center, and designate the first accepted room's center
/// as the spawn point (the grid center if no room was accepted).
///
/// The ensures state the layout invariants: accepted rooms never
/// intersect, every accepted room's interior is passable, and every
/// passable tile lies in a room or on a corridor between consecutive
/// room centers.
pub fn generate() -> (r: (Grid, (i32, i32), Vec<Rect>))
    ensures
        map_dims_ok(&r.0),
        forall|i: int, j: int|
            0 <= i < j < r.2@.len() ==> !(#[trigger] r.2@[i]).spec_intersects(#[trigger] r.2@[j]),
        r.2@.len() <= 30,
        forall|k: int| 0 <= k < r.2@.len() ==> room_bounds_ok(#[trigger] r.2@[k]),
        forall|x: int, y: int|
            0 <= x < MAP_WIDTH && 0 <= y < MAP_HEIGHT ==> #[trigger] tile_at(&r.0, x, y) == (Tile {
                blocked: true,
                block_sight: true,
                visible: false,
                ever_seen: false,
            }) || tile_at(&r.0, x, y) == (Tile {
                blocked: false,
                block_sight: false,
                visible: false,
                ever_seen: false,
            }),
        forall|x: int, y: int|
            0 <= x < MAP_WIDTH && 0 <= y < MAP_HEIGHT && in_some_room(r.2@, x, y)
                ==> !(#[trigger] tile_at(&r.0, x, y)).blocked,
        forall|x: int, y: int|
            0 <= x < MAP_WIDTH && 0 <= y < MAP_HEIGHT && !(#[trigger] tile_at(&r.0, x, y)).blocked
                ==> in_some_room(r.2@, x, y) || on_some_corridor(r.2@, x, y),
        r.2@.len() >= 1,
        corridors_passable(&r.0, r.2@),
        (r.1.0 as int, r.1.1 as int) == spec_center(r.2@[0]),
        0 <= r.1.0 < MAP_WIDTH && 0 <= r.1.1 < MAP_HEIGHT,
{
    // Start from a grid of solid wall.
    let mut map: Grid = Vec::new();
    let mut cx: i32 = 0;
    while cx < MAP_WIDTH
        invariant
            0 <= cx <= MAP_WIDTH,
            map@.len() == cx,
            forall|i: int|
                0 <= i < cx ==> (#[trigger] map@[i])@.len() == MAP_HEIGHT,
            forall|i: int, j: int|
                0 <= i < cx && 0 <= j < MAP_HEIGHT ==> tile_at(&map, i, j) == (Tile {
                    blocked: true,
                    block_sight: true,
                    visible: false,
                    ever_seen: false,
                }),
        decreases MAP_WIDTH - cx,
    {
        let mut col: Vec<Tile> = Vec::new();
        let mut cy: i32 = 0;
        while cy < MAP_HEIGHT
            invariant
                0 <= cy <= MAP_HEIGHT,
                col@.len() == cy,
                forall|j: int|
                    0 <= j < cy ==> col@[j] == (Tile {
                        blocked: true,
                        block_sight: true,
                        visible: false,
                        ever_seen: false,
                    }),
            decreases MAP_HEIGHT - cy,
        {
            col.push(Tile::wall());
            cy = cy + 1;
        }
        let ghost colv = col@;
        let ghost gpre = map;
        map.push(col);
        proof {
            assert forall|i: int, j: int|
                0 <= i <= cx && 0 <= j < MAP_HEIGHT implies tile_at(&map, i, j) == (Tile {
                blocked: true,
                block_sight: true,
                visible: false,
                ever_seen: false,
            }) by {
                if i < cx {
                    assert(map@[i] == gpre@[i]);
                    assert(tile_at(&gpre, i, j) == (Tile {
                        blocked: true,
                        block_sight: true,
                        visible: false,
                        ever_seen: false,
                    }));
                    assert(tile_at(&map, i, j) == tile_at(&gpre, i, j));
                } else {
                    assert(map@[i]@ == colv);
                    assert(colv[j] == (Tile {
                        blocked: true,
                        block_sight: true,
                        visible: false,
                        ever_seen: false,
                    }));
                    assert(tile_at(&map, i, j) == colv[j]);
                }
            }
        }
        cx = cx + 1;
    }

    let mut rooms: Vec<Rect> = Vec::new();
    let mut spawn_x: i32 = MAP_WIDTH / 2;
    let mut spawn_y: i32 = MAP_HEIGHT / 2;

    let mut attempt: i32 = 0;
    while attempt < MAX_ROOMS
        invariant
            map_dims_ok(&map),
            0 <= attempt <= MAX_ROOMS,
            rooms@.len() <= attempt,
            forall|i: int, j: int|
                0 <= i < j < rooms@.len() ==> !(#[trigger] rooms@[i]).spec_intersects(
                    #[trigger] rooms@[j],
                ),
            forall|k: int| 0 <= k < rooms@.len() ==> room_bounds_ok(#[trigger] rooms@[k]),
            forall|x: int, y: int|
                0 <= x < MAP_WIDTH && 0 <= y < MAP_HEIGHT ==> #[trigger] tile_at(&map, x, y)
                    == (Tile {
                    blocked: true,
                    block_sight: true,
                    visible: false,
                    ever_seen: false,
                }) || tile_at(&map, x, y) == (Tile {
                    blocked: false,
                    block_sight: false,
                    visible: false,
                    ever_seen: false,
                }),
            forall|x: int, y: int|
                0 <= x < MAP_WIDTH && 0 <= y < MAP_HEIGHT && in_some_room(rooms@, x, y)
                    ==> !(#[trigger] tile_at(&map, x, y)).blocked,
            forall|x: int, y: int|
                0 <= x < MAP_WIDTH && 0 <= y < MAP_HEIGHT && !(#[trigger] tile_at(
                    &map,
                    x,
                    y,
                )).blocked ==> in_some_room(rooms@, x, y) || on_some_corridor(rooms@, x, y),
            attempt >= 1 ==> rooms@.len() >= 1,
            corridors_passable(&map, rooms@),
            rooms@.len() > 0 ==> (spawn_x as int, spawn_y as int) == spec_center(rooms@[0]),
            rooms@.len() == 0 ==> spawn_x == MAP_WIDTH / 2 && spawn_y == MAP_HEIGHT / 2,
            0 <= spawn_x < MAP_WIDTH && 0 <= spawn_y < MAP_HEIGHT,
        decreases MAX_ROOMS - attempt,
    {
        let w = rand_range(ROOM_MIN_SIZE, ROOM_MAX_SIZE + 1);
        let h = rand_range(ROOM_MIN_SIZE, ROOM_MAX_SIZE + 1);
        let x = rand_range(0, MAP_WIDTH - w);
        let y = rand_range(0, MAP_HEIGHT - h);
        let new_room = Rect::new(x, y, w, h);

        let mut failed = false;
        let nr = rooms.len();
        let mut ri: usize = 0;
        while ri < nr
            invariant_except_break
                nr == rooms@.len(),
                0 <= ri <= nr,
                !failed,
                forall|j: int| 0 <= j < ri ==> !new_room.spec_intersects(#[trigger] rooms@[j]),
            ensures
                failed == exists|j: int|
                    0 <= j < nr && new_room.spec_intersects(#[trigger] rooms@[j]),
            decreases nr - ri,
        {
            if new_room.intersects_with(&rooms[ri]) {
                failed = true;
                break ;
            }
            ri = ri + 1;
        }

        if !failed {
            let ghost rooms0 = rooms@;
            let ghost g0 = map@;
            let ghost gpre: Grid = map;
            create_room(new_room, &mut map);
            let (new_x, new_y) = new_room.center();

            if rooms.len() == 0 {
                spawn_x = new_x;
                spawn_y = new_y;
                rooms.push(new_room);
                proof {
                    assert(rooms@[0] == new_room);
                    assert(corridors_passable(&map, rooms@));
                    assert forall|x0: int, y0: int|
                        0 <= x0 < MAP_WIDTH && 0 <= y0 < MAP_HEIGHT && !(#[trigger] tile_at(
                            &map,
                            x0,
                            y0,
                        )).blocked implies in_some_room(rooms@, x0, y0) || on_some_corridor(
                        rooms@,
                        x0,
                        y0,
                    ) by {
                        if new_room.x1 <= x0 < new_room.x2 && new_room.y1 <= y0 < new_room.y2 {
                            assert(in_some_room(rooms@, x0, y0));
                        } else {
                            assert(map@[x0]@[y0] == g0[x0]@[y0]);
                            assert(false);
                        }
                    }
                }
            } else {
                let prev = rooms[rooms.len() - 1];
                let (prev_x, prev_y) = prev.center();
                let coin = rand_bool();
                if coin {
                    create_h_tunnel(prev_x, new_x, prev_y, &mut map);
                    create_v_tunnel(prev_y, new_y, new_x, &mut map);
                } else {
                    create_v_tunnel(prev_y, new_y, prev_x, &mut map);
                    create_h_tunnel(prev_x, new_x, new_y, &mut map);
                }
                rooms.push(new_room);
                proof {
                    let n1 = rooms@.len();
                    assert(rooms@[n1 - 1] == new_room);
                    assert(rooms@[n1 - 2] == prev);
                    assert((prev_x as int, prev_y as int) == spec_center(prev));
                    assert((new_x as int, new_y as int) == spec_center(new_room));
                    // Carving only opened cells, so the corridors laid down for
                    // earlier room pairs stay passable; the pair just connected
                    // got the legs of whichever L-order the coin chose.
                    assert(no_new_walls(&gpre, &map));
                    if coin {
                        assert forall|x0: int| between(prev_x as int, new_x as int, x0) implies !(
                        #[trigger] tile_at(&map, x0, prev_y as int)).blocked by {}
                        assert forall|y0: int| between(prev_y as int, new_y as int, y0) implies !(
                        #[trigger] tile_at(&map, new_x as int, y0)).blocked by {}
                        assert(h_leg_passable(&map, prev_x as int, new_x as int, prev_y as int));
                        assert(v_leg_passable(&map, prev_y as int, new_y as int, new_x as int));
                    } else {
                        assert forall|y0: int| between(prev_y as int, new_y as int, y0) implies !(
                        #[trigger] tile_at(&map, prev_x as int, y0)).blocked by {}
                        assert forall|x0: int| between(prev_x as int, new_x as int, x0) implies !(
                        #[trigger] tile_at(&map, x0, new_y as int)).blocked by {}
                        assert(v_leg_passable(&map, prev_y as int, new_y as int, prev_x as int));
                        assert(h_leg_passable(&map, prev_x as int, new_x as int, new_y as int));
                    }
                    assert forall|k: int|
                        1 <= k < n1 implies l_corridor_passable(
                        &map,
                        spec_center(rooms@[k - 1]).0,
                        spec_center(rooms@[k - 1]).1,
                        spec_center(#[trigger] rooms@[k]).0,
                        spec_center(rooms@[k]).1,
                    ) by {
                        if k < n1 - 1 {
                            assert(rooms@[k - 1] == rooms0[k - 1]);
                            assert(rooms@[k] == rooms0[k]);
                            assert(room_bounds_ok(rooms0[k - 1]));
                            assert(room_bounds_ok(rooms0[k]));
                            lemma_corridor_passable_monotone(
                                &gpre,
                                &map,
                                spec_center(rooms0[k - 1]).0,
                                spec_center(rooms0[k - 1]).1,
                                spec_center(rooms0[k]).0,
                                spec_center(rooms0[k]).1,
                            );
                        }
                    }
                    assert forall|x0: int, y0: int|
                        0 <= x0 < MAP_WIDTH && 0 <= y0 < MAP_HEIGHT && !(#[trigger] tile_at(
                            &map,
                            x0,
                            y0,
                        )).blocked implies in_some_room(rooms@, x0, y0) || on_some_corridor(
                        rooms@,
                        x0,
                        y0,
                    ) by {
                        if new_room.x1 <= x0 < new_room.x2 && new_room.y1 <= y0 < new_room.y2 {
                            assert(in_some_room(rooms@, x0, y0));
                        } else if on_corridor(
                            prev_x as int,
                            prev_y as int,
                            new_x as int,
                            new_y as int,
                            x0,
                            y0,
                        ) {
                            assert(on_some_corridor(rooms@, x0, y0));
                        } else {
                            assert(map@[x0]@[y0] == g0[x0]@[y0]);
                            assert(!g0[x0]@[y0].blocked);
                            if in_some_room(rooms0, x0, y0) {
                                let k = choose|k: int|
                                    0 <= k < rooms0.len() && (#[trigger] rooms0[k]).x1 <= x0
                                        < rooms0[k].x2 && rooms0[k].y1 <= y0 < rooms0[k].y2;
                                assert(rooms@[k] == rooms0[k]);
                                assert(in_some_room(rooms@, x0, y0));
                            } else {
                                let k = choose|k: int|
                                    1 <= k < rooms0.len() && on_corridor(
                                        spec_center(#[trigger] rooms0[k - 1]).0,
                                        spec_center(rooms0[k - 1]).1,
                                        spec_center(rooms0[k]).0,
                                        spec_center(rooms0[k]).1,
                                        x0,
                                        y0,
                                    );
                                assert(rooms@[k - 1] == rooms0[k - 1]);
                                assert(rooms@[k] == rooms0[k]);
                                assert(on_some_corridor(rooms@, x0, y0));
                            }
                        }
                    }
                }
            }
        }
        attempt = attempt + 1;
    }
    (map, (spawn_x, spawn_y), rooms)
}

/// What holds of every object the level generator adds to the map.
pub open spec fn populated_ok(o: &Object) -> bool {
    &&& obj_wf(o)
    &&& o.name@ != "player"@
    &&& (o.ai is Some ==> o.alive && o.fighter is Some)
    &&& (o.fighter matches Some(f) ==> 0 <= f.xp <= 100)
    &&& o.equipment is None
}

/// Build a fresh dungeon level: generate the layout, move the player
/// (index 0) to the spawn point, and populate every accepted room with
/// level-scaled monsters and items.
pub fn make_map(objects: &mut Vec<Object>, level: u32) -> (map: Grid)
    requires
        old(objects)@.len() >= 1,
    ensures
        map_dims_ok(&map),
        old(objects)@.len() <= final(objects)@.len() <= old(objects)@.len() + 240,
        final(objects)@[0] == (Object {
            x: final(objects)@[0].x,
            y: final(objects)@[0].y,
            ..old(objects)@[0]
        }),
        0 <= final(objects)@[0].x < MAP_WIDTH && 0 <= final(objects)@[0].y < MAP_HEIGHT,
        !tile_at(&map, final(objects)@[0].x as int, final(objects)@[0].y as int).blocked,
        forall|i: int|
            1 <= i < old(objects)@.len() ==> final(objects)@[i] == old(objects)@[i],
        forall|i: int|
            old(objects)@.len() <= i < final(objects)@.len() ==> populated_ok(
                #[trigger] &final(objects)@[i],
            ),
        forall|x: int, y: int|
            0 <= x < MAP_WIDTH && 0 <= y < MAP_HEIGHT ==> !(#[trigger] tile_at(
                &map,
                x,
                y,
            )).visible && !tile_at(&map, x, y).ever_seen && tile_at(&map, x, y).blocked == tile_at(
                &map,
                x,
                y,
            ).block_sight,
{
    let (map, spawn_point, rooms) = generate();
    let (sx, sy) = spawn_point;
    {
        let player = &mut objects[0];
        player.set_pos(sx, sy);
    }
    proof {
        // The spawn point is the first accepted room's center, a carved tile.
        assert(in_some_room(rooms@, spawn_point.0 as int, spawn_point.1 as int)) by {
            assert(room_bounds_ok(rooms@[0]));
            assert(rooms@[0].x1 <= spec_center(rooms@[0]).0 < rooms@[0].x2);
            assert(rooms@[0].y1 <= spec_center(rooms@[0]).1 < rooms@[0].y2);
        }
    }
    let nr = rooms.len();
    let mut k: usize = 0;
    while k < nr
        invariant
            map_dims_ok(&map),
            nr == rooms@.len(),
            nr <= 30,
            0 <= k <= nr,
            old(objects)@.len() >= 1,
            objects@.len() >= 1,
            forall|i: int| 0 <= i < nr ==> room_bounds_ok(#[trigger] rooms@[i]),
            old(objects)@.len() <= objects@.len() <= old(objects)@.len() + 8 * (k as int),
            k <= 30,
            objects@[0] == (Object { x: objects@[0].x, y: objects@[0].y, ..old(objects)@[0] }),
            objects@[0].x == sx && objects@[0].y == sy,
            0 <= sx < MAP_WIDTH && 0 <= sy < MAP_HEIGHT,
            forall|i: int| 1 <= i < old(objects)@.len() ==> objects@[i] == old(objects)@[i],
            forall|i: int|
                old(objects)@.len() <= i < objects@.len() ==> populated_ok(
                    #[trigger] &objects@[i],
                ),
        decreases nr - k,
    {
        let room = rooms[k];
        spawn(room, objects, &map, level);
        k = k + 1;
    }
    map
}

} // verus!

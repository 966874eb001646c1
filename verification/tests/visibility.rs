//! Sight-line tracing and the per-turn visibility recomputation.
use dungeon_core::fov::Point;
use dungeon_core::fov::raycast_on_map;
use dungeon_core::tile::{Grid, Tile, MAP_HEIGHT, MAP_WIDTH};

fn open_map() -> Grid {
    let mut map: Grid = Vec::new();
    for _ in 0..MAP_WIDTH {
        let mut col = Vec::new();
        for _ in 0..MAP_HEIGHT {
            col.push(Tile::empty());
        }
        map.push(col);
    }
    map
}

#[test]
fn straight_line_visits_every_cell() {
    let map = open_map();
    let pts = dungeon_core::fov::line(1, 1, 4, 1, &map);
    let expected = vec![
        Point { x: 1, y: 1 },
        Point { x: 2, y: 1 },
        Point { x: 3, y: 1 },
        Point { x: 4, y: 1 },
    ];
    assert_eq!(pts, expected);
}

#[test]
fn vertical_line_visits_every_cell() {
    let map = open_map();
    let pts = dungeon_core::fov::line(2, 5, 2, 2, &map);
    assert_eq!(pts.len(), 4);
    assert_eq!(pts[0], Point { x: 2, y: 5 });
    assert_eq!(pts[3], Point { x: 2, y: 2 });
}

#[test]
fn line_stops_at_first_sight_blocker() {
    let mut map = open_map();
    map[3][1] = Tile::wall();
    let pts = dungeon_core::fov::line(1, 1, 6, 1, &map);
    // The trace ends on the blocking cell and marks nothing beyond it.
    assert_eq!(pts.last(), Some(&Point { x: 3, y: 1 }));
    for p in &pts {
        assert!(p.x <= 3);
    }
}

#[test]
fn line_on_a_single_cell() {
    let map = open_map();
    let pts = dungeon_core::fov::line(7, 7, 7, 7, &map);
    assert_eq!(pts, vec![Point { x: 7, y: 7 }]);
}

#[test]
fn raycast_is_deterministic() {
    let mut map1 = open_map();
    map1[10][5] = Tile::wall();
    let mut map2 = map1.clone();
    raycast_on_map(&mut map1, 8, 5);
    raycast_on_map(&mut map2, 8, 5);
    for x in 0..MAP_WIDTH as usize {
        for y in 0..MAP_HEIGHT as usize {
            assert_eq!(map1[x][y].visible, map2[x][y].visible);
            assert_eq!(map1[x][y].ever_seen, map2[x][y].ever_seen);
        }
    }
}

#[test]
fn raycast_marks_rays_and_resets_old_visibility() {
    let mut map = open_map();
    raycast_on_map(&mut map, 10, 10);
    assert!(map[10][10].visible);
    assert!(map[14][10].visible);
    assert!(map[10][14].visible);
    assert!(map[18][10].visible);
    assert!(!map[14][14].visible);
    // A second recomputation from elsewhere clears the transient flag
    // but keeps the permanent memory of what was seen.
    raycast_on_map(&mut map, 40, 10);
    assert!(!map[10][14].visible);
    assert!(map[10][14].ever_seen);
    assert!(map[40][10].visible);
}

#[test]
fn raycast_does_not_see_through_walls() {
    let mut map = open_map();
    map[12][10] = Tile::wall();
    raycast_on_map(&mut map, 10, 10);
    // The wall itself is visible; everything behind it on the ray is not.
    assert!(map[12][10].visible);
    assert!(!map[13][10].visible);
    assert!(!map[14][10].visible);
}

#[test]
fn raycast_near_the_border_is_clamped() {
    let mut map = open_map();
    raycast_on_map(&mut map, 0, 0);
    assert!(map[0][0].visible);
    assert!(map[8][0].visible);
    assert!(map[0][8].visible);
}

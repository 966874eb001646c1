//! Layout generation, rectangles, step tables and weighted sampling.
use dungeon_core::map_gen::Rect;
use dungeon_core::object_gen::{from_dungeon_level, pick_weighted, Transition};
use dungeon_core::tile::{is_blocked, Grid, Tile, MAP_HEIGHT, MAP_WIDTH};

#[test]
fn overlapping_rooms_intersect() {
    let a = Rect { x1: 0, y1: 0, x2: 5, y2: 5 };
    let b = Rect { x1: 4, y1: 4, x2: 8, y2: 8 };
    assert!(a.intersects_with(&b));
    assert!(b.intersects_with(&a));
}

#[test]
fn separated_rooms_do_not_intersect() {
    let a = Rect { x1: 0, y1: 0, x2: 5, y2: 5 };
    let b = Rect { x1: 6, y1: 6, x2: 9, y2: 9 };
    assert!(!a.intersects_with(&b));
    assert!(!b.intersects_with(&a));
}

#[test]
fn rect_new_and_center() {
    let r = Rect::new(2, 4, 6, 8);
    assert_eq!(r.x1, 2);
    assert_eq!(r.y1, 4);
    assert_eq!(r.x2, 8);
    assert_eq!(r.y2, 12);
    assert_eq!(r.center(), (5, 8));
}

#[test]
fn generated_rooms_never_intersect() {
    // The layout invariant, checked on a live generation run.
    let (map, spawn, rooms) = dungeon_core::tile::generate();
    assert_eq!(map.len(), MAP_WIDTH as usize);
    for col in &map {
        assert_eq!(col.len(), MAP_HEIGHT as usize);
    }
    for i in 0..rooms.len() {
        for j in 0..rooms.len() {
            if i != j {
                assert!(!rooms[i].intersects_with(&rooms[j]));
            }
        }
        assert!(rooms[i].x1 >= 0 && rooms[i].x2 < MAP_WIDTH);
        assert!(rooms[i].y1 >= 0 && rooms[i].y2 < MAP_HEIGHT);
    }
    assert!(spawn.0 >= 0 && spawn.0 < MAP_WIDTH);
    assert!(spawn.1 >= 0 && spawn.1 < MAP_HEIGHT);
}

#[test]
fn generated_room_interiors_are_passable() {
    let (map, _spawn, rooms) = dungeon_core::tile::generate();
    for room in &rooms {
        for x in room.x1..room.x2 {
            for y in room.y1..room.y2 {
                let t = map[x as usize][y as usize];
                assert!(!t.blocked);
                assert!(!t.block_sight);
            }
        }
    }
}

#[test]
fn generated_tiles_start_unseen() {
    let (map, _spawn, _rooms) = dungeon_core::tile::generate();
    for col in &map {
        for t in col {
            assert!(!t.visible);
            assert!(!t.ever_seen);
            assert_eq!(t.blocked, t.block_sight);
        }
    }
}

#[test]
fn generation_accepts_at_least_one_room() {
    let (_map, spawn, rooms) = dungeon_core::tile::generate();
    assert!(!rooms.is_empty());
    // The spawn point is the first accepted room's center.
    assert_eq!(spawn.0, (rooms[0].x1 + rooms[0].x2) / 2);
    assert_eq!(spawn.1, (rooms[0].y1 + rooms[0].y2) / 2);
}

#[test]
fn consecutive_room_centers_are_joined_by_a_passable_corridor() {
    let (map, _spawn, rooms) = dungeon_core::tile::generate();
    let passable = |x: i32, y: i32| !map[x as usize][y as usize].blocked;
    let h_leg = |a: i32, b: i32, y: i32| (a.min(b)..=a.max(b)).all(|x| passable(x, y));
    let v_leg = |a: i32, b: i32, x: i32| (a.min(b)..=a.max(b)).all(|y| passable(x, y));
    for k in 1..rooms.len() {
        let (px, py) = rooms[k - 1].center();
        let (nx, ny) = rooms[k].center();
        let first_order = h_leg(px, nx, py) && v_leg(py, ny, nx);
        let second_order = v_leg(py, ny, px) && h_leg(px, nx, ny);
        assert!(first_order || second_order);
    }
}

#[test]
fn tile_constructors() {
    let e = Tile::empty();
    assert!(!e.blocked && !e.block_sight && !e.visible && !e.ever_seen);
    let w = Tile::wall();
    assert!(w.blocked && w.block_sight && !w.visible && !w.ever_seen);
}

#[test]
fn blocked_by_terrain_and_by_objects() {
    let mut map: Grid = Vec::new();
    for _ in 0..MAP_WIDTH {
        let mut col = Vec::new();
        for _ in 0..MAP_HEIGHT {
            col.push(Tile::empty());
        }
        map.push(col);
    }
    map[3][4] = Tile::wall();
    let mut blocker = dungeon_core::object::Object::new(5, 5, 'o', 2, false, "orc", true);
    blocker.alive = true;
    let passer = dungeon_core::object::Object::new(6, 6, '!', 5, false, "potion", false);
    let objects = vec![blocker, passer];
    assert!(is_blocked(3, 4, &map, &objects));
    assert!(is_blocked(5, 5, &map, &objects));
    assert!(!is_blocked(6, 6, &map, &objects));
    assert!(!is_blocked(7, 7, &map, &objects));
}

#[test]
fn step_table_returns_highest_applicable_value() {
    let table = vec![
        Transition { level: 1, value: 2 },
        Transition { level: 4, value: 3 },
        Transition { level: 6, value: 5 },
    ];
    assert_eq!(from_dungeon_level(&table, 0), 0);
    assert_eq!(from_dungeon_level(&table, 1), 2);
    assert_eq!(from_dungeon_level(&table, 3), 2);
    assert_eq!(from_dungeon_level(&table, 4), 3);
    assert_eq!(from_dungeon_level(&table, 5), 3);
    assert_eq!(from_dungeon_level(&table, 6), 5);
    assert_eq!(from_dungeon_level(&table, 99), 5);
}

#[test]
fn weighted_pick_follows_cumulative_intervals() {
    let weights = vec![50u32, 20, 20, 10];
    assert_eq!(pick_weighted(&weights, 0), 0);
    assert_eq!(pick_weighted(&weights, 49), 0);
    assert_eq!(pick_weighted(&weights, 50), 1);
    assert_eq!(pick_weighted(&weights, 69), 1);
    assert_eq!(pick_weighted(&weights, 70), 2);
    assert_eq!(pick_weighted(&weights, 89), 2);
    assert_eq!(pick_weighted(&weights, 90), 3);
    assert_eq!(pick_weighted(&weights, 99), 3);
}

#[test]
fn spawned_monsters_land_inside_the_room() {
    let mut map: Grid = Vec::new();
    for _ in 0..MAP_WIDTH {
        let mut col = Vec::new();
        for _ in 0..MAP_HEIGHT {
            col.push(Tile::empty());
        }
        map.push(col);
    }
    let room = Rect { x1: 2, y1: 2, x2: 12, y2: 12 };
    map[5][5] = Tile::wall();
    let mut objects: Vec<dungeon_core::object::Object> = Vec::new();
    dungeon_core::object_gen::spawn(room, &mut objects, &map, 3);
    let mut monsters = 0;
    let mut items = 0;
    for (i, o) in objects.iter().enumerate() {
        assert!(o.x > room.x1 && o.x < room.x2);
        assert!(o.y > room.y1 && o.y < room.y2);
        assert_ne!(o.name, "player");
        if o.ai.is_some() {
            assert!(o.alive);
            assert!(o.fighter.is_some());
        }
        // Placement discipline: never on walled terrain, and blockers
        // never stack on an earlier blocker's cell.
        assert!(!map[o.x as usize][o.y as usize].blocked);
        for other in objects.iter().take(i) {
            if other.blocks {
                assert!(!(other.x == o.x && other.y == o.y));
            }
        }
        // Every spawned object comes from the fixed catalog.
        if o.fighter.is_some() {
            monsters += 1;
            assert!(o.name == "orc" || o.name == "troll");
        } else {
            items += 1;
            assert!(o.item.is_some());
            assert!(
                o.name == "healing potion"
                    || o.name == "scroll of lightning"
                    || o.name == "scroll of fire"
                    || o.name == "scroll of confusion"
            );
        }
    }
    // Dungeon level 3: at most two monsters and one item per room.
    assert!(monsters <= 2);
    assert!(items <= 1);
}

#[test]
fn monster_catalog_values() {
    let orc = dungeon_core::object_gen::new_orc(4, 5);
    assert_eq!(orc.name, "orc");
    assert_eq!(orc.ch, 'o');
    assert!(orc.alive && orc.blocks);
    let f = orc.fighter.unwrap();
    assert_eq!((f.hp, f.base_max_hp, f.base_power, f.base_defence, f.xp), (10, 10, 3, 0, 35));
    let troll = dungeon_core::object_gen::new_troll(4, 5);
    assert_eq!(troll.name, "troll");
    let t = troll.fighter.unwrap();
    assert_eq!((t.hp, t.base_max_hp, t.base_power, t.base_defence, t.xp), (16, 16, 4, 1, 100));
}

//! Grid movement, distance geometry, and the split-borrow primitive.
use dungeon_core::ai::mut_two;
use dungeon_core::events::Status;
use dungeon_core::item::Slot;
use dungeon_core::object::{move_by, move_towards, Object};
use dungeon_core::tile::{Grid, Tile, MAP_HEIGHT, MAP_WIDTH};

fn open_map() -> Grid {
    let mut map: Grid = Vec::new();
    for _ in 0..MAP_WIDTH {
        let mut col = Vec::new();
        for _ in 0..MAP_HEIGHT {
            col.push(Tile::empty());
        }
        map.push(col);
    }
    map
}

#[test]
fn move_by_steps_onto_free_cells() {
    let map = open_map();
    let mut objects = vec![Object::new(5, 5, 'o', 2, false, "orc", true)];
    move_by(0, 1, 0, &map, &mut objects);
    assert_eq!((objects[0].x, objects[0].y), (6, 5));
}

#[test]
fn move_by_is_stopped_by_walls_and_blockers() {
    let mut map = open_map();
    map[6][5] = Tile::wall();
    let blocker = Object::new(5, 6, 'T', 3, false, "troll", true);
    let mut objects = vec![Object::new(5, 5, 'o', 2, false, "orc", true), blocker];
    move_by(0, 1, 0, &map, &mut objects);
    assert_eq!((objects[0].x, objects[0].y), (5, 5));
    move_by(0, 0, 1, &map, &mut objects);
    assert_eq!((objects[0].x, objects[0].y), (5, 5));
}

#[test]
fn move_by_never_leaves_the_grid() {
    let map = open_map();
    let mut objects = vec![Object::new(0, 0, 'o', 2, false, "orc", true)];
    move_by(0, -1, 0, &map, &mut objects);
    assert_eq!((objects[0].x, objects[0].y), (0, 0));
    move_by(0, 0, -1, &map, &mut objects);
    assert_eq!((objects[0].x, objects[0].y), (0, 0));
}

#[test]
fn move_towards_takes_a_diagonal_step_when_warranted() {
    let map = open_map();
    let mut objects = vec![Object::new(5, 5, 'o', 2, false, "orc", true)];
    move_towards(0, 9, 9, &map, &mut objects);
    assert_eq!((objects[0].x, objects[0].y), (6, 6));
}

#[test]
fn move_towards_prefers_the_dominant_axis() {
    let map = open_map();
    let mut objects = vec![Object::new(5, 5, 'o', 2, false, "orc", true)];
    // Ten cells east against one cell south: the step is purely east.
    move_towards(0, 15, 6, &map, &mut objects);
    assert_eq!((objects[0].x, objects[0].y), (6, 5));
}

#[test]
fn distance_sq_between_objects() {
    let a = Object::new(1, 1, 'a', 7, false, "a", false);
    let b = Object::new(4, 5, 'b', 7, false, "b", false);
    assert_eq!(a.distance_sq_to(&b), 25);
    assert_eq!(b.distance_sq_to(&a), 25);
    assert_eq!(a.distance_sq_to(&a), 0);
}

#[test]
fn mut_two_borrows_two_distinct_entries() {
    let mut values = vec![10, 20, 30];
    {
        let (a, b) = mut_two(0, 2, &mut values);
        *a += 1;
        *b += 2;
    }
    assert_eq!(values, vec![11, 20, 32]);
    {
        let (a, b) = mut_two(2, 1, &mut values);
        *a = 7;
        *b = 8;
    }
    assert_eq!(values, vec![11, 8, 7]);
}

#[test]
fn status_entries_keep_their_message_and_rounds() {
    let s = Status::new("hello".to_string(), 1);
    assert_eq!(s.msg, "hello");
    assert_eq!(s.rounds, 1);
}

#[test]
fn slot_names() {
    assert_eq!(Slot::LeftHand.as_str(), "left hand");
    assert_eq!(Slot::RightHand.as_str(), "right hand");
    assert_eq!(Slot::Head.as_str(), "head");
}

//! The population generator: level-scaled step tables, cumulative-weight
//! sampling, the monster and item catalogs, and the per-room spawner.
use vstd::prelude::*;

use crate::ai::AI;
use crate::item::Item;
use crate::map_gen::Rect;
use crate::object::{
    obj_wf, Fighter, Object, COLOR_CYAN, COLOR_GREEN, COLOR_MAGENTA, COLOR_RED, COLOR_YELLOW,
};
use crate::rng::rand_range;
use crate::tile::{is_blocked, map_dims_ok, tile_at, Grid, MAP_HEIGHT, MAP_WIDTH};

verus! {

/// One step of a monotonic step table: from `level` upward (until the
/// next step), the table yields `value`.
#[derive(Clone, Copy, Debug, PartialEq, Eq, Structural)]
pub struct Transition {
    pub level: u32,
    pub value: u32,
}

/// The value of the step table at `level`: the value of the last entry
/// whose threshold does not exceed `level`, or zero if none applies.
pub open spec fn spec_from_dungeon_level(table: Seq<Transition>, level: u32) -> u32
    decreases table.len(),
{
    if table.len() == 0 {
        0
    } else if level >= table.last().level {
        table.last().value
    } else {
        spec_from_dungeon_level(table.drop_last(), level)
    }
}

/// Look up a level-scaled parameter in a step table.
pub fn from_dungeon_level(table: &Vec<Transition>, level: u32) -> (r: u32)
    ensures
        r == spec_from_dungeon_level(table@, level),
        r == 0 || exists|i: int| 0 <= i < table@.len() && r == (#[trigger] table@[i]).value,
{
    proof {
        assert(table@.take(table@.len() as int) =~= table@);
    }
    let mut i = table.len();
    while i > 0
        invariant
            i <= table@.len(),
            spec_from_dungeon_level(table@, level) == spec_from_dungeon_level(
                table@.take(i as int),
                level,
            ),
        decreases i,
    {
        i = i - 1;
        proof {
            assert(table@.take(i + 1).drop_last() =~= table@.take(i as int));
            assert(table@.take(i + 1).last() == table@[i as int]);
        }
        if level >= table[i].level {
            return table[i].value;
        }
    }
    proof {
        assert(table@.take(0) =~= Seq::<Transition>::empty());
    }
    0
}

/// Sum of a list of sampling weights.
pub open spec fn total_weight(ws: Seq<u32>) -> int
    decreases ws.len(),
{
    if ws.len() == 0 {
        0
    } else {
        total_weight(ws.drop_last()) + ws.last()
    }
}

/// Splitting off the last weight splits the total.
proof fn lemma_weight_take(ws: Seq<u32>, i: int)
    requires
        0 <= i < ws.len(),
    ensures
        total_weight(ws.take(i + 1)) == total_weight(ws.take(i)) + ws[i],
{
    assert(ws.take(i + 1).drop_last() =~= ws.take(i));
    assert(ws.take(i + 1).last() == ws[i]);
}

/// A list of weights never sums to a negative value.
proof fn lemma_weight_nonneg(ws: Seq<u32>)
    ensures
        total_weight(ws) >= 0,
    decreases ws.len(),
{
    if ws.len() > 0 {
        lemma_weight_nonneg(ws.drop_last());
    }
}

/// A prefix never weighs more than the whole list.
proof fn lemma_weight_prefix(ws: Seq<u32>, i: int)
    requires
        0 <= i <= ws.len(),
    ensures
        0 <= total_weight(ws.take(i)) <= total_weight(ws),
    decreases ws.len() - i,
{
    lemma_weight_nonneg(ws.take(i));
    if i == ws.len() {
        assert(ws.take(i) =~= ws);
    } else {
        lemma_weight_take(ws, i);
        lemma_weight_prefix(ws, i + 1);
    }
}

/// Cumulative-weight sampling: the chosen index is the unique one whose
/// cumulative weight interval contains the roll.
pub fn pick_weighted(weights: &Vec<u32>, roll: u32) -> (idx: usize)
    requires
        total_weight(weights@) <= u32::MAX,
        roll < total_weight(weights@),
    ensures
        idx < weights@.len(),
        total_weight(weights@.take(idx as int)) <= roll < total_weight(
            weights@.take(idx as int + 1),
        ),
{
    let n = weights.len();
    let mut acc: u32 = 0;
    let mut i: usize = 0;
    while i < n
        invariant
            n == weights@.len(),
            0 <= i <= n,
            total_weight(weights@) <= u32::MAX,
            roll < total_weight(weights@),
            acc == total_weight(weights@.take(i as int)),
            acc <= roll,
        decreases n - i,
    {
        proof {
            lemma_weight_take(weights@, i as int);
            lemma_weight_prefix(weights@, i as int + 1);
        }
        if roll < acc + weights[i] {
            return i;
        }
        acc = acc + weights[i];
        i = i + 1;
    }
    proof {
        assert(weights@.take(n as int) =~= weights@);
        assert(false);
    }
    0
}

/// Exactly the orc of the monster catalog, wherever it stands.
pub open spec fn orc_like(o: &Object) -> bool {
    &&& o.ch == 'o' && o.color == COLOR_GREEN && !o.is_bold
    &&& o.name@ == "orc"@
    &&& o.blocks && o.alive
    &&& o.fighter == Some(
        Fighter { hp: 10, xp: 35, base_power: 3, base_defence: 0, base_max_hp: 10 },
    )
    &&& o.ai == Some(AI::Basic)
    &&& o.item is None && o.equipment is None
    &&& o.level == 1 && o.level_up_xp == 0
}

/// Exactly the troll of the monster catalog, wherever it stands.
pub open spec fn troll_like(o: &Object) -> bool {
    &&& o.ch == 'T' && o.color == COLOR_YELLOW && !o.is_bold
    &&& o.name@ == "troll"@
    &&& o.blocks && o.alive
    &&& o.fighter == Some(
        Fighter { hp: 16, xp: 100, base_power: 4, base_defence: 1, base_max_hp: 16 },
    )
    &&& o.ai == Some(AI::Basic)
    &&& o.item is None && o.equipment is None
    &&& o.level == 1 && o.level_up_xp == 0
}

/// Exactly one entry of the item catalog, wherever it lies.
pub open spec fn item_like(o: &Object) -> bool {
    &&& !o.blocks && !o.alive && !o.is_bold
    &&& o.fighter is None && o.ai is None && o.equipment is None
    &&& o.level == 1 && o.level_up_xp == 0
    &&& match o.item {
        Some(Item::Heal) => o.ch == '!' && o.color == COLOR_MAGENTA && o.name@
            == "healing potion"@,
        Some(Item::Lightning) => o.ch == '#' && o.color == COLOR_CYAN && o.name@
            == "scroll of lightning"@,
        Some(Item::Fire) => o.ch == '#' && o.color == COLOR_RED && o.name@ == "scroll of fire"@,
        Some(Item::Confusion) => o.ch == '#' && o.color == COLOR_GREEN && o.name@
            == "scroll of confusion"@,
        _ => false,
    }
}

/// What holds of every object the spawner adds to a room: it is one of
/// the catalog's monsters or items, standing strictly inside the room.
pub open spec fn spawned_ok(room: Rect, o: &Object) -> bool {
    &&& obj_wf(o)
    &&& room.x1 < o.x < room.x2
    &&& room.y1 < o.y < room.y2
    &&& o.name@ != "player"@
    &&& (o.ai is Some ==> o.alive && o.fighter is Some)
    &&& (o.fighter matches Some(f) ==> 0 <= f.xp <= 100)
    &&& o.equipment is None
    &&& (orc_like(o) || troll_like(o) || item_like(o))
}

/// Most monsters one room may receive at the given dungeon level.
pub open spec fn monster_cap(level: u32) -> u32 {
    if level >= 6 {
        5
    } else if level >= 4 {
        3
    } else if level >= 1 {
        2
    } else {
        0
    }
}

/// Most items one room may receive at the given dungeon level.
pub open spec fn item_cap(level: u32) -> u32 {
    if level >= 4 {
        2
    } else if level >= 1 {
        1
    } else {
        0
    }
}

/// How many entries from index `lo` on can fight.
pub open spec fn count_fighters_from(s: Seq<Object>, lo: int) -> int
    decreases s.len(),
{
    if s.len() == 0 || s.len() <= lo {
        0
    } else {
        count_fighters_from(s.drop_last(), lo) + (if s.last().fighter is Some {
            1int
        } else {
            0
        })
    }
}

/// How many entries from index `lo` on are pickable items.
pub open spec fn count_items_from(s: Seq<Object>, lo: int) -> int
    decreases s.len(),
{
    if s.len() == 0 || s.len() <= lo {
        0
    } else {
        count_items_from(s.drop_last(), lo) + (if s.last().item is Some {
            1int
        } else {
            0
        })
    }
}

/// The counting laws the spawner's loops carry: counting starts at zero
/// at the boundary and each push adds its entry's contribution.
pub open spec fn spawn_count_laws() -> bool {
    &&& forall|s: Seq<Object>, lo: int| s.len() <= lo ==> #[trigger] count_fighters_from(s, lo) == 0
    &&& forall|s: Seq<Object>, lo: int| s.len() <= lo ==> #[trigger] count_items_from(s, lo) == 0
    &&& forall|s: Seq<Object>, lo: int, o: Object|
        0 <= lo <= s.len() ==> #[trigger] count_fighters_from(s.push(o), lo)
            == count_fighters_from(s, lo) + (if o.fighter is Some {
            1int
        } else {
            0
        })
    &&& forall|s: Seq<Object>, lo: int, o: Object|
        0 <= lo <= s.len() ==> #[trigger] count_items_from(s.push(o), lo) == count_items_from(
            s,
            lo,
        ) + (if o.item is Some {
            1int
        } else {
            0
        })
}

/// Establish the counting laws.
pub proof fn lemma_spawn_count_laws()
    ensures
        spawn_count_laws(),
{
    assert forall|s: Seq<Object>, lo: int, o: Object|
        0 <= lo <= s.len() implies #[trigger] count_fighters_from(s.push(o), lo)
        == count_fighters_from(s, lo) + (if o.fighter is Some {
        1int
    } else {
        0
    }) by {
        assert(s.push(o).drop_last() =~= s);
        assert(s.push(o).last() == o);
    }
    assert forall|s: Seq<Object>, lo: int, o: Object|
        0 <= lo <= s.len() implies #[trigger] count_items_from(s.push(o), lo) == count_items_from(
        s,
        lo,
    ) + (if o.item is Some {
        1int
    } else {
        0
    }) by {
        assert(s.push(o).drop_last() =~= s);
        assert(s.push(o).last() == o);
    }
}

/// A freshly spawned orc at `(x, y)`.
pub fn new_orc(x: i32, y: i32) -> (o: Object)
    requires
        0 <= x < MAP_WIDTH,
        0 <= y < MAP_HEIGHT,
    ensures
        o.x == x && o.y == y,
        o.ch == 'o' && o.color == COLOR_GREEN && !o.is_bold,
        o.name@ == "orc"@ && o.name@ != "player"@,
        o.blocks && o.alive,
        o.fighter == Some(
            Fighter { hp: 10, xp: 35, base_power: 3, base_defence: 0, base_max_hp: 10 },
        ),
        o.ai == Some(AI::Basic),
        o.item is None && o.equipment is None,
        o.level == 1 && o.level_up_xp == 0,
        obj_wf(&o),
{
    proof {
        reveal_strlit("orc");
        reveal_strlit("player");
    }
    let mut orc = Object::new(x, y, 'o', COLOR_GREEN, false, "orc", true);
    orc.fighter = Some(Fighter { hp: 10, xp: 35, base_power: 3, base_defence: 0, base_max_hp: 10 });
    orc.ai = Some(AI::Basic);
    orc.alive = true;
    orc
}

/// A freshly spawned troll at `(x, y)`.
pub fn new_troll(x: i32, y: i32) -> (o: Object)
    requires
        0 <= x < MAP_WIDTH,
        0 <= y < MAP_HEIGHT,
    ensures
        o.x == x && o.y == y,
        o.ch == 'T' && o.color == COLOR_YELLOW && !o.is_bold,
        o.name@ == "troll"@ && o.name@ != "player"@,
        o.blocks && o.alive,
        o.fighter == Some(
            Fighter { hp: 16, xp: 100, base_power: 4, base_defence: 1, base_max_hp: 16 },
        ),
        o.ai == Some(AI::Basic),
        o.item is None && o.equipment is None,
        o.level == 1 && o.level_up_xp == 0,
        obj_wf(&o),
{
    proof {
        reveal_strlit("troll");
        reveal_strlit("player");
    }
    let mut troll = Object::new(x, y, 'T', COLOR_YELLOW, false, "troll", true);
    troll.fighter = Some(
        Fighter { hp: 16, xp: 100, base_power: 4, base_defence: 1, base_max_hp: 16 },
    );
    troll.ai = Some(AI::Basic);
    troll.alive = true;
    troll
}

/// A pickable item of the given kind lying at `(x, y)`.
pub fn new_item(kind: Item, x: i32, y: i32) -> (o: Object)
    requires
        0 <= x < MAP_WIDTH,
        0 <= y < MAP_HEIGHT,
        kind == Item::Heal || kind == Item::Lightning || kind == Item::Fire || kind
            == Item::Confusion,
    ensures
        o.x == x && o.y == y,
        o.name@ != "player"@,
        !o.blocks && !o.alive && !o.is_bold,
        o.fighter is None && o.ai is None && o.equipment is None,
        o.item == Some(kind),
        o.level == 1 && o.level_up_xp == 0,
        obj_wf(&o),
        kind == Item::Heal ==> o.ch == '!' && o.color == COLOR_MAGENTA && o.name@
            == "healing potion"@,
        kind == Item::Lightning ==> o.ch == '#' && o.color == COLOR_CYAN && o.name@
            == "scroll of lightning"@,
        kind == Item::Fire ==> o.ch == '#' && o.color == COLOR_RED && o.name@ == "scroll of fire"@,
        kind == Item::Confusion ==> o.ch == '#' && o.color == COLOR_GREEN && o.name@
            == "scroll of confusion"@,
{
    proof {
        reveal_strlit("healing potion");
        reveal_strlit("scroll of lightning");
        reveal_strlit("scroll of fire");
        reveal_strlit("scroll of confusion");
        reveal_strlit("player");
    }
    let mut object = match kind {
        Item::Heal => Object::new(x, y, '!', COLOR_MAGENTA, false, "healing potion", false),
        Item::Lightning => Object::new(x, y, '#', COLOR_CYAN, false, "scroll of lightning", false),
        Item::Fire => Object::new(x, y, '#', COLOR_RED, false, "scroll of fire", false),
        _ => Object::new(x, y, '#', COLOR_GREEN, false, "scroll of confusion", false),
    };
    proof {
        // Every catalog name differs in length from the player's name.
        assert("healing potion"@.len() == 14);
        assert("scroll of lightning"@.len() == 19);
        assert("scroll of fire"@.len() == 14);
        assert("scroll of confusion"@.len() == 19);
        assert("player"@.len() == 6);
    }
    object.item = Some(kind);
    object
}

/// Populate one accepted room: a level-scaled random number of monsters
/// (orc-vs-troll weighted by level) and items (kind weighted by a fixed
/// catalog), each at a uniformly random interior cell, skipping without
/// retry any cell already blocked by terrain or a blocking object.
pub fn spawn(room: Rect, objects: &mut Vec<Object>, map: &Grid, level: u32)
    requires
        map_dims_ok(map),
        0 <= room.x1,
        room.x1 + 1 < room.x2 < MAP_WIDTH,
        0 <= room.y1,
        room.y1 + 1 < room.y2 < MAP_HEIGHT,
    ensures
        old(objects)@.len() <= final(objects)@.len() <= old(objects)@.len() + monster_cap(level)
            + item_cap(level),
        forall|i: int| 0 <= i < old(objects)@.len() ==> final(objects)@[i] == old(objects)@[i],
        forall|i: int|
            old(objects)@.len() <= i < final(objects)@.len() ==> spawned_ok(
                room,
                #[trigger] &final(objects)@[i],
            ),
        count_fighters_from(final(objects)@, old(objects)@.len() as int) <= monster_cap(level),
        count_items_from(final(objects)@, old(objects)@.len() as int) <= item_cap(level),
        forall|i: int|
            old(objects)@.len() <= i < final(objects)@.len() ==> !tile_at(
                map,
                (#[trigger] final(objects)@[i]).x as int,
                final(objects)@[i].y as int,
            ).blocked,
        forall|i: int, j: int|
            old(objects)@.len() <= i < final(objects)@.len() && 0 <= j < i
                && (#[trigger] final(objects)@[j]).blocks
                ==> !(final(objects)@[j].x == (#[trigger] final(objects)@[i]).x
                && final(objects)@[j].y == final(objects)@[i].y),
{
    let mut monster_table: Vec<Transition> = Vec::new();
    monster_table.push(Transition { level: 1, value: 2 });
    monster_table.push(Transition { level: 4, value: 3 });
    monster_table.push(Transition { level: 6, value: 5 });
    let max_monsters = from_dungeon_level(&monster_table, level);
    proof {
        lemma_spawn_count_laws();
        assert(max_monsters == monster_cap(level)) by {
            reveal_with_fuel(spec_from_dungeon_level, 4);
            let t = monster_table@;
            assert(t.drop_last() =~= Seq::<Transition>::empty().push(
                Transition { level: 1, value: 2 },
            ).push(Transition { level: 4, value: 3 }));
            assert(t.drop_last().drop_last() =~= Seq::<Transition>::empty().push(
                Transition { level: 1, value: 2 },
            ));
            assert(t.drop_last().drop_last().drop_last() =~= Seq::<Transition>::empty());
        }
    }
    let num_monsters = rand_range(0, max_monsters as i32 + 1);

    let mut troll_table: Vec<Transition> = Vec::new();
    troll_table.push(Transition { level: 3, value: 15 });
    troll_table.push(Transition { level: 5, value: 30 });
    troll_table.push(Transition { level: 7, value: 60 });
    let troll_chance = from_dungeon_level(&troll_table, level);
    proof {
        assert(troll_chance <= 60);
    }
    let mut monster_weights: Vec<u32> = Vec::new();
    monster_weights.push(80);
    monster_weights.push(troll_chance);
    proof {
        assert(total_weight(monster_weights@) == 80 + troll_chance) by {
            reveal_with_fuel(total_weight, 3);
            assert(monster_weights@.drop_last() =~= seq![80u32]);
            assert(monster_weights@.drop_last().drop_last() =~= Seq::<u32>::empty());
        }
    }

    let mut placed: i32 = 0;
    while placed < num_monsters
        invariant
            map_dims_ok(map),
            0 <= room.x1,
            room.x1 + 1 < room.x2 < MAP_WIDTH,
            0 <= room.y1,
            room.y1 + 1 < room.y2 < MAP_HEIGHT,
            troll_chance <= 60,
            total_weight(monster_weights@) == 80 + troll_chance,
            monster_weights@.len() == 2,
            0 <= placed <= num_monsters,
            num_monsters <= monster_cap(level),
            spawn_count_laws(),
            objects@.len() == old(objects)@.len() + count_fighters_from(
                objects@,
                old(objects)@.len() as int,
            ) + count_items_from(objects@, old(objects)@.len() as int),
            count_fighters_from(objects@, old(objects)@.len() as int) <= placed,
            count_items_from(objects@, old(objects)@.len() as int) == 0,
            forall|i: int| 0 <= i < old(objects)@.len() ==> objects@[i] == old(objects)@[i],
            forall|i: int|
                old(objects)@.len() <= i < objects@.len() ==> spawned_ok(
                    room,
                    #[trigger] &objects@[i],
                ),
            forall|i: int|
                old(objects)@.len() <= i < objects@.len() ==> !tile_at(
                    map,
                    (#[trigger] objects@[i]).x as int,
                    objects@[i].y as int,
                ).blocked,
            forall|i: int, j: int|
                old(objects)@.len() <= i < objects@.len() && 0 <= j < i && (
                #[trigger] objects@[j]).blocks ==> !(objects@[j].x == (#[trigger] objects@[i]).x
                    && objects@[j].y == objects@[i].y),
        decreases num_monsters - placed,
    {
        let x = rand_range(room.x1 + 1, room.x2);
        let y = rand_range(room.y1 + 1, room.y2);
        if !is_blocked(x, y, map, objects) {
            let roll = rand_range(0, 80 + troll_chance as i32) as u32;
            let idx = pick_weighted(&monster_weights, roll);
            let monster = if idx == 0 {
                new_orc(x, y)
            } else {
                new_troll(x, y)
            };
            objects.push(monster);
        }
        placed = placed + 1;
    }

    let mut item_table: Vec<Transition> = Vec::new();
    item_table.push(Transition { level: 1, value: 1 });
    item_table.push(Transition { level: 4, value: 2 });
    let max_items = from_dungeon_level(&item_table, level);
    proof {
        assert(max_items == item_cap(level)) by {
            reveal_with_fuel(spec_from_dungeon_level, 3);
            let t = item_table@;
            assert(t.drop_last() =~= Seq::<Transition>::empty().push(
                Transition { level: 1, value: 1 },
            ));
            assert(t.drop_last().drop_last() =~= Seq::<Transition>::empty());
        }
    }
    let num_items = rand_range(0, max_items as i32 + 1);
    let mut item_weights: Vec<u32> = Vec::new();
    item_weights.push(50);
    item_weights.push(20);
    item_weights.push(20);
    item_weights.push(10);
    proof {
        assert(total_weight(item_weights@) == 100) by {
            reveal_with_fuel(total_weight, 5);
            assert(item_weights@.drop_last() =~= seq![50u32, 20u32, 20u32]);
            assert(item_weights@.drop_last().drop_last() =~= seq![50u32, 20u32]);
            assert(item_weights@.drop_last().drop_last().drop_last() =~= seq![50u32]);
            assert(item_weights@.drop_last().drop_last().drop_last().drop_last() =~= Seq::<
                u32,
            >::empty());
        }
    }

    let mut placed_items: i32 = 0;
    while placed_items < num_items
        invariant
            map_dims_ok(map),
            0 <= room.x1,
            room.x1 + 1 < room.x2 < MAP_WIDTH,
            0 <= room.y1,
            room.y1 + 1 < room.y2 < MAP_HEIGHT,
            total_weight(item_weights@) == 100,
            item_weights@.len() == 4,
            0 <= placed_items <= num_items,
            num_items <= item_cap(level),
            spawn_count_laws(),
            objects@.len() == old(objects)@.len() + count_fighters_from(
                objects@,
                old(objects)@.len() as int,
            ) + count_items_from(objects@, old(objects)@.len() as int),
            count_fighters_from(objects@, old(objects)@.len() as int) <= monster_cap(level),
            count_items_from(objects@, old(objects)@.len() as int) <= placed_items,
            forall|i: int| 0 <= i < old(objects)@.len() ==> objects@[i] == old(objects)@[i],
            forall|i: int|
                old(objects)@.len() <= i < objects@.len() ==> spawned_ok(
                    room,
                    #[trigger] &objects@[i],
                ),
            forall|i: int|
                old(objects)@.len() <= i < objects@.len() ==> !tile_at(
                    map,
                    (#[trigger] objects@[i]).x as int,
                    objects@[i].y as int,
                ).blocked,
            forall|i: int, j: int|
                old(objects)@.len() <= i < objects@.len() && 0 <= j < i && (
                #[trigger] objects@[j]).blocks ==> !(objects@[j].x == (#[trigger] objects@[i]).x
                    && objects@[j].y == objects@[i].y),
        decreases num_items - placed_items,
    {
        let x = rand_range(room.x1 + 1, room.x2);
        let y = rand_range(room.y1 + 1, room.y2);
        if !is_blocked(x, y, map, objects) {
            let roll = rand_range(0, 100) as u32;
            let idx = pick_weighted(&item_weights, roll);
            let kind = if idx == 0 {
                Item::Heal
            } else if idx == 1 {
                Item::Fire
            } else if idx == 2 {
                Item::Lightning
            } else {
                Item::Confusion
            };
            objects.push(new_item(kind, x, y));
        }
        placed_items = placed_items + 1;
    }
}

} // verus!

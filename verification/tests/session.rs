//! Whole-session behavior: leveling, item use, monster turns, intents.
use dungeon_core::ai::AI;
use dungeon_core::events::Event;
use dungeon_core::game::{Game, PlayerAction, PlayerIntent, LEVEL_UP_BASE, LEVEL_UP_FACTOR};
use dungeon_core::item::{use_item, Equipment, Item, Slot};
use dungeon_core::object::{Fighter, Object};
use dungeon_core::tile::{Grid, Tile, MAP_HEIGHT, MAP_WIDTH};

fn open_map() -> Grid {
    let mut map: Grid = Vec::new();
    for _ in 0..MAP_WIDTH {
        let mut col = Vec::new();
        for _ in 0..MAP_HEIGHT {
            col.push(Tile::empty());
        }
        map.push(col);
    }
    map
}

fn player() -> Object {
    let mut p = Object::new(10, 10, '@', 7, true, "player", true);
    p.alive = true;
    p.fighter = Some(Fighter {
        hp: 40,
        xp: 0,
        base_power: 4,
        base_defence: 1,
        base_max_hp: 40,
    });
    p.level_up_xp = LEVEL_UP_BASE + LEVEL_UP_FACTOR;
    p
}

fn orc_at(x: i32, y: i32) -> Object {
    let mut o = Object::new(x, y, 'o', 2, false, "orc", true);
    o.alive = true;
    o.fighter = Some(Fighter {
        hp: 10,
        xp: 35,
        base_power: 3,
        base_defence: 0,
        base_max_hp: 10,
    });
    o.ai = Some(AI::Basic);
    o
}

fn session(objects: Vec<Object>, inventory: Vec<Object>) -> Game {
    Game {
        map: open_map(),
        objects,
        inventory,
        events: Vec::new(),
        dungeon_level: 1,
        stat_choice_pending: false,
    }
}

#[test]
fn level_up_threshold_and_choice() {
    // Threshold for level 1 is 200 + 1 * 150 = 350: 200 xp is not enough.
    let mut p = player();
    p.fighter = Some(Fighter { xp: 200, ..p.fighter.unwrap() });
    let mut game = session(vec![p], Vec::new());
    assert!(!game.check_level_up());
    assert_eq!(game.objects[0].level, 1);
    assert!(!game.stat_choice_pending);

    // With 400 xp the threshold is met: level 2, choice pending.
    let f = game.objects[0].fighter.unwrap();
    game.objects[0].fighter = Some(Fighter { xp: 400, ..f });
    assert!(game.check_level_up());
    assert_eq!(game.objects[0].level, 2);
    assert_eq!(game.objects[0].level_up_xp, 350);
    assert!(game.stat_choice_pending);
    assert!(matches!(game.events.last(), Some(Event::ReachedLevel { level: 2 })));

    // Spending the choice on power deducts the threshold atomically.
    game.apply_level_choice(1);
    let f = game.objects[0].fighter.unwrap();
    assert_eq!(f.xp, 50);
    assert_eq!(f.base_power, 5);
    assert!(!game.stat_choice_pending);
}

#[test]
fn stat_choice_constitution_raises_hit_points() {
    let mut p = player();
    p.fighter = Some(Fighter { xp: 400, ..p.fighter.unwrap() });
    let mut game = session(vec![p], Vec::new());
    assert!(game.check_level_up());
    game.apply_level_choice(0);
    let f = game.objects[0].fighter.unwrap();
    assert_eq!(f.base_max_hp, 60);
    assert_eq!(f.hp, 60);
}

#[test]
fn heal_at_full_health_is_cancelled_and_keeps_the_potion() {
    let mut potion = Object::new(0, 0, '!', 5, false, "healing potion", false);
    potion.item = Some(Item::Heal);
    let mut game = session(vec![player()], vec![potion]);
    // A declined use consumes no game time.
    let action = use_item(0, &mut game);
    assert_eq!(action, PlayerAction::DidntTakeTurn);
    assert_eq!(game.inventory.len(), 1);
    assert!(matches!(game.events.last(), Some(Event::Cancelled)));
    assert!(game.events.iter().any(|e| matches!(e, Event::FullHealth)));
}

#[test]
fn heal_spends_the_potion_and_restores_hit_points() {
    let mut p = player();
    p.fighter = Some(Fighter { hp: 30, ..p.fighter.unwrap() });
    let mut potion = Object::new(0, 0, '!', 5, false, "healing potion", false);
    potion.item = Some(Item::Heal);
    let mut game = session(vec![p], vec![potion]);
    let action = use_item(0, &mut game);
    assert_eq!(action, PlayerAction::TookTurn);
    assert_eq!(game.inventory.len(), 0);
    assert_eq!(game.objects[0].fighter.unwrap().hp, 35);
    assert!(game.events.iter().any(|e| matches!(e, Event::Healed)));
}

#[test]
fn using_a_non_item_is_declined() {
    let rock = Object::new(0, 0, '*', 7, false, "rock", false);
    let mut game = session(vec![player()], vec![rock]);
    let action = use_item(0, &mut game);
    assert_eq!(action, PlayerAction::DidntTakeTurn);
    assert_eq!(game.inventory.len(), 1);
    assert!(matches!(game.events.last(), Some(Event::NotUsable { .. })));
}

#[test]
fn lightning_strikes_the_closest_enemy() {
    let mut scroll = Object::new(0, 0, '#', 6, false, "scroll of lightning", false);
    scroll.item = Some(Item::Lightning);
    let near = orc_at(11, 10);
    let far = orc_at(14, 10);
    let mut game = session(vec![player(), far, near], vec![scroll]);
    let action = use_item(0, &mut game);
    assert_eq!(action, PlayerAction::TookTurn);
    assert_eq!(game.inventory.len(), 0);
    // The nearer orc (index 2) dies and its reward goes to the player.
    assert!(!game.objects[2].alive);
    assert!(game.objects[1].alive);
    assert_eq!(game.objects[0].fighter.unwrap().xp, 35);
}

#[test]
fn lightning_without_a_target_is_cancelled() {
    let mut scroll = Object::new(0, 0, '#', 6, false, "scroll of lightning", false);
    scroll.item = Some(Item::Lightning);
    let far = orc_at(40, 10);
    let mut game = session(vec![player(), far], vec![scroll]);
    let action = use_item(0, &mut game);
    assert_eq!(action, PlayerAction::DidntTakeTurn);
    assert_eq!(game.inventory.len(), 1);
    assert!(game.events.iter().any(|e| matches!(e, Event::NoEnemyInRange)));
    assert!(matches!(game.events.last(), Some(Event::Cancelled)));
}

#[test]
fn confusion_wraps_the_previous_behavior() {
    let mut scroll = Object::new(0, 0, '#', 2, false, "scroll of confusion", false);
    scroll.item = Some(Item::Confusion);
    let near = orc_at(12, 10);
    let mut game = session(vec![player(), near], vec![scroll]);
    let action = use_item(0, &mut game);
    assert_eq!(action, PlayerAction::TookTurn);
    match &game.objects[1].ai {
        Some(AI::Confused { prev_ai, turns }) => {
            assert_eq!(*turns, 10);
            assert!(matches!(**prev_ai, AI::Basic));
        }
        other => panic!("expected confusion, got {:?}", other),
    }
}

#[test]
fn confused_monster_reverts_after_its_turns() {
    // A monster with no confusion turns left reverts on its next
    // evaluation and announces it.
    let mut confused = orc_at(30, 20);
    confused.ai = Some(AI::Confused {
        prev_ai: Box::new(AI::Basic),
        turns: 0,
    });
    let mut game = session(vec![player(), confused], Vec::new());
    dungeon_core::ai::take_turn(1, &mut game);
    assert!(matches!(game.objects[1].ai, Some(AI::Basic)));
    assert!(matches!(game.events.last(), Some(Event::NoLongerConfused { .. })));
}

#[test]
fn confused_monster_counts_down_before_reverting() {
    let mut confused = orc_at(30, 20);
    confused.ai = Some(AI::Confused {
        prev_ai: Box::new(AI::Basic),
        turns: 2,
    });
    let mut game = session(vec![player(), confused], Vec::new());
    dungeon_core::ai::take_turn(1, &mut game);
    match &game.objects[1].ai {
        Some(AI::Confused { turns, .. }) => assert_eq!(*turns, 1),
        other => panic!("still confused expected, got {:?}", other),
    }
    dungeon_core::ai::take_turn(1, &mut game);
    dungeon_core::ai::take_turn(1, &mut game);
    assert!(matches!(game.objects[1].ai, Some(AI::Basic)));
}

#[test]
fn adjacent_monster_attacks_the_player() {
    let near = orc_at(11, 10);
    let mut game = session(vec![player(), near], Vec::new());
    dungeon_core::ai::take_turn(1, &mut game);
    // Damage is the orc's power 3 minus the player's defence 1.
    assert_eq!(game.objects[0].fighter.unwrap().hp, 38);
    assert!(matches!(game.events.last(), Some(Event::Attacked { damage: 2, .. })));
}

#[test]
fn distant_monster_ignores_the_player() {
    let far = orc_at(40, 20);
    let mut game = session(vec![player(), far], Vec::new());
    dungeon_core::ai::take_turn(1, &mut game);
    assert_eq!(game.objects[1].x, 40);
    assert_eq!(game.objects[1].y, 20);
    assert!(game.events.is_empty());
}

#[test]
fn detected_monster_steps_toward_the_player() {
    let seen = orc_at(14, 10);
    let mut game = session(vec![player(), seen], Vec::new());
    dungeon_core::ai::take_turn(1, &mut game);
    assert_eq!(game.objects[1].x, 13);
    assert_eq!(game.objects[1].y, 10);
}

#[test]
fn monsters_round_lets_every_monster_act() {
    // Two adjacent orcs both strike during one round.
    let near_a = orc_at(11, 10);
    let near_b = orc_at(9, 10);
    let mut game = session(vec![player(), near_a, near_b], Vec::new());
    game.monsters_turn();
    // Each orc deals power 3 minus defence 1.
    assert_eq!(game.objects[0].fighter.unwrap().hp, 36);
    assert_eq!(game.events.len(), 2);
}

#[test]
fn toggle_into_an_occupied_slot_keeps_exactly_one_equipped() {
    let mut sword = Object::new(0, 0, '-', 4, false, "sword", false);
    sword.item = Some(Item::Sword);
    sword.equipment = Some(Equipment {
        slot: Slot::LeftHand,
        equipped: true,
        power_bonus: 2,
        max_hp_bonus: 0,
        defense_bonus: 0,
    });
    let mut dagger = Object::new(0, 0, '-', 4, false, "dagger", false);
    dagger.item = Some(Item::Sword);
    dagger.equipment = Some(Equipment {
        slot: Slot::LeftHand,
        equipped: false,
        power_bonus: 1,
        max_hp_bonus: 0,
        defense_bonus: 0,
    });
    let mut game = session(vec![player()], vec![sword, dagger]);
    // Equipping the dagger into the occupied left hand takes the sword off.
    let action = use_item(1, &mut game);
    assert_eq!(action, PlayerAction::TookTurn);
    let equipped: Vec<usize> = (0..game.inventory.len())
        .filter(|&i| game.inventory[i].equipment.map_or(false, |e| e.equipped))
        .collect();
    assert_eq!(equipped, vec![1]);
}

#[test]
fn pick_item_up_moves_it_into_the_inventory() {
    let mut potion = Object::new(10, 10, '!', 5, false, "healing potion", false);
    potion.item = Some(Item::Heal);
    let mut game = session(vec![player(), potion], Vec::new());
    game.pick_item_up(1);
    assert_eq!(game.objects.len(), 1);
    assert_eq!(game.inventory.len(), 1);
    assert_eq!(game.inventory[0].name, "healing potion");
    assert!(matches!(game.events.last(), Some(Event::PickedUp { .. })));
}

#[test]
fn picked_equipment_is_worn_when_the_slot_is_free() {
    let mut sword = Object::new(10, 10, '-', 4, false, "sword", false);
    sword.item = Some(Item::Sword);
    sword.equipment = Some(Equipment {
        slot: Slot::LeftHand,
        equipped: false,
        power_bonus: 2,
        max_hp_bonus: 0,
        defense_bonus: 0,
    });
    let mut game = session(vec![player(), sword], Vec::new());
    game.pick_item_up(1);
    assert!(game.inventory[0].equipment.unwrap().equipped);
}

#[test]
fn full_inventory_declines_a_pickup() {
    let mut inventory = Vec::new();
    for _ in 0..26 {
        let mut junk = Object::new(0, 0, '*', 7, false, "rock", false);
        junk.item = Some(Item::Heal);
        inventory.push(junk);
    }
    let mut potion = Object::new(10, 10, '!', 5, false, "healing potion", false);
    potion.item = Some(Item::Heal);
    let mut game = session(vec![player(), potion], inventory);
    game.pick_item_up(1);
    assert_eq!(game.objects.len(), 2);
    assert_eq!(game.inventory.len(), 26);
    assert!(matches!(game.events.last(), Some(Event::InventoryFull { .. })));
}

#[test]
fn drop_item_takes_worn_equipment_off_first() {
    let mut sword = Object::new(0, 0, '-', 4, false, "sword", false);
    sword.item = Some(Item::Sword);
    sword.equipment = Some(Equipment {
        slot: Slot::LeftHand,
        equipped: true,
        power_bonus: 2,
        max_hp_bonus: 0,
        defense_bonus: 0,
    });
    let mut game = session(vec![player()], vec![sword]);
    game.drop_item(0);
    assert_eq!(game.inventory.len(), 0);
    assert!(matches!(game.events.last(), Some(Event::Dequipped { .. })));
}

#[test]
fn drop_item_by_type_removes_every_matching_entry() {
    let mut a = Object::new(0, 0, '!', 5, false, "healing potion", false);
    a.item = Some(Item::Heal);
    let mut b = Object::new(0, 0, '#', 6, false, "scroll of lightning", false);
    b.item = Some(Item::Lightning);
    let mut c = Object::new(0, 0, '!', 5, false, "healing potion", false);
    c.item = Some(Item::Heal);
    let mut game = session(vec![player()], vec![a, b, c]);
    game.drop_item_by_type(0);
    assert_eq!(game.inventory.len(), 1);
    assert_eq!(game.inventory[0].item, Some(Item::Lightning));
}

#[test]
fn names_under_the_player_list_shared_cells_only() {
    let mut potion = Object::new(10, 10, '!', 5, false, "healing potion", false);
    potion.item = Some(Item::Heal);
    let elsewhere = orc_at(20, 20);
    let game = session(vec![player(), potion, elsewhere], Vec::new());
    let names = game.get_names_under_player();
    assert_eq!(names, vec!["healing potion".to_string()]);
}

#[test]
fn player_attack_through_intent() {
    let near = orc_at(11, 10);
    let mut game = session(vec![player(), near], Vec::new());
    let action = game.handle_intent(PlayerIntent::Move { dx: 1, dy: 0 });
    assert_eq!(action, PlayerAction::TookTurn);
    // Player power 4 minus orc defence 0: the orc takes 4 damage.
    assert_eq!(game.objects[1].fighter.unwrap().hp, 6);
    assert_eq!(game.objects[0].x, 10);
}

#[test]
fn player_moves_into_free_space() {
    let mut game = session(vec![player()], Vec::new());
    let action = game.handle_intent(PlayerIntent::Move { dx: 0, dy: 1 });
    assert_eq!(action, PlayerAction::TookTurn);
    assert_eq!((game.objects[0].x, game.objects[0].y), (10, 11));
}

#[test]
fn waiting_consumes_the_turn_and_changes_nothing() {
    let mut game = session(vec![player()], Vec::new());
    let action = game.handle_intent(PlayerIntent::Wait);
    assert_eq!(action, PlayerAction::TookTurn);
    assert_eq!(game.objects[0].x, 10);
    assert!(game.events.is_empty());
}

#[test]
fn picking_up_nothing_consumes_no_turn() {
    let mut game = session(vec![player()], Vec::new());
    let action = game.handle_intent(PlayerIntent::PickUp);
    assert_eq!(action, PlayerAction::DidntTakeTurn);
    assert!(game.events.is_empty());
}

#[test]
fn toggling_a_non_equipment_item_consumes_no_turn() {
    let mut potion = Object::new(0, 0, '!', 5, false, "healing potion", false);
    potion.item = Some(Item::Heal);
    let mut game = session(vec![player()], vec![potion]);
    let action = game.handle_intent(PlayerIntent::EquipToggle { slot: 0 });
    assert_eq!(action, PlayerAction::DidntTakeTurn);
    assert_eq!(game.inventory.len(), 1);
}

#[test]
fn descending_off_stairs_does_nothing() {
    let mut game = session(vec![player()], Vec::new());
    let action = game.handle_intent(PlayerIntent::DescendStairs);
    assert_eq!(action, PlayerAction::DidntTakeTurn);
    assert_eq!(game.dungeon_level, 1);
}

#[test]
fn descending_on_stairs_advances_the_level_and_rests() {
    let stairs = Object::new(10, 10, '>', 7, false, "stairs", false);
    let mut p = player();
    p.fighter = Some(Fighter { hp: 20, ..p.fighter.unwrap() });
    let mut game = session(vec![p, stairs], Vec::new());
    let action = game.handle_intent(PlayerIntent::DescendStairs);
    assert_eq!(action, PlayerAction::DidntTakeTurn);
    assert_eq!(game.dungeon_level, 2);
    // Resting heals half of the effective maximum of 40.
    assert_eq!(game.objects[0].fighter.unwrap().hp, 40);
    assert!(game.events.iter().any(|e| matches!(e, Event::Rested)));
}

#[test]
fn new_game_sets_up_player_and_dagger() {
    let game = Game::new_game();
    assert_eq!(game.objects[0].name, "player");
    assert!(game.objects[0].alive);
    let f = game.objects[0].fighter.unwrap();
    assert_eq!((f.hp, f.base_max_hp, f.base_power, f.base_defence), (40, 40, 4, 1));
    assert_eq!(game.inventory.len(), 1);
    assert_eq!(game.inventory[0].name, "dagger");
    assert!(game.inventory[0].equipment.unwrap().equipped);
    assert_eq!(game.dungeon_level, 1);
    for o in game.objects.iter().skip(1) {
        assert_ne!(o.name, "player");
    }
}

#[test]
fn fire_burns_enemies_in_radius_and_the_caster() {
    let mut scroll = Object::new(0, 0, '#', 1, false, "scroll of fire", false);
    scroll.item = Some(Item::Fire);
    let near = orc_at(12, 10);
    let far = orc_at(20, 10);
    let mut game = session(vec![player(), near, far], vec![scroll]);
    let action = use_item(0, &mut game);
    assert_eq!(action, PlayerAction::TookTurn);
    assert_eq!(game.inventory.len(), 0);
    // The near orc burns to death for its 35 xp; the far one is spared;
    // the player is singed by their own fire.
    assert!(!game.objects[1].alive);
    assert_eq!(game.objects[2].fighter.unwrap().hp, 10);
    assert_eq!(game.objects[0].fighter.unwrap().hp, 37);
    assert_eq!(game.objects[0].fighter.unwrap().xp, 35);
}

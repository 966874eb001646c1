//! Combat, damage, healing and equipment behavior.
use dungeon_core::events::Event;
use dungeon_core::item::{Equipment, Item, Slot};
use dungeon_core::object::{Fighter, Object};

fn fighter(hp: i32, power: i32, defence: i32, xp: i32) -> Fighter {
    Fighter {
        hp,
        xp,
        base_power: power,
        base_defence: defence,
        base_max_hp: hp,
    }
}

fn actor(name: &str, f: Fighter) -> Object {
    let mut o = Object::new(1, 1, 'm', 2, false, name, true);
    o.alive = true;
    o.fighter = Some(f);
    o
}

#[test]
fn attack_applies_power_minus_defence() {
    // An attacker with power 3 against defence 0 deals 3 damage.
    let mut attacker = actor("orc", fighter(10, 3, 0, 0));
    let mut defender = actor("troll", fighter(10, 0, 0, 0));
    let inv: Vec<Object> = Vec::new();
    let mut events: Vec<Event> = Vec::new();
    attacker.attack(&mut defender, &mut events, &inv);
    assert_eq!(defender.fighter.as_ref().unwrap().hp, 7);
    assert_eq!(attacker.fighter.as_ref().unwrap().hp, 10);
    assert!(matches!(events.last(), Some(Event::Attacked { damage: 3, .. })));
}

#[test]
fn attack_without_enough_power_has_no_effect() {
    let mut attacker = actor("orc", fighter(10, 2, 0, 0));
    let mut defender = actor("troll", fighter(10, 0, 5, 0));
    let inv: Vec<Object> = Vec::new();
    let mut events: Vec<Event> = Vec::new();
    attacker.attack(&mut defender, &mut events, &inv);
    assert_eq!(defender.fighter.as_ref().unwrap().hp, 10);
    assert!(matches!(events.last(), Some(Event::NoEffect { .. })));
}

#[test]
fn attack_kill_credits_experience() {
    let mut attacker = actor("orc", fighter(10, 50, 0, 7));
    let mut defender = actor("troll", fighter(10, 0, 0, 100));
    let inv: Vec<Object> = Vec::new();
    let mut events: Vec<Event> = Vec::new();
    attacker.attack(&mut defender, &mut events, &inv);
    assert!(!defender.alive);
    assert_eq!(attacker.fighter.as_ref().unwrap().xp, 107);
    assert!(matches!(events.last(), Some(Event::Died { .. })));
}

#[test]
fn take_damage_below_zero_kills_and_yields_xp_once() {
    let mut target = actor("orc", fighter(5, 0, 0, 35));
    let mut events: Vec<Event> = Vec::new();
    let first = target.take_damage(10, &mut events);
    assert_eq!(first, Some(35));
    assert!(!target.alive);
    assert!(target.ai.is_none());
    assert!(!target.blocks);
    assert_eq!(target.ch, '%');
    assert_eq!(target.name, "remains of orc");
    // The reward is handed out exactly once: a second blow yields nothing.
    let second = target.take_damage(10, &mut events);
    assert_eq!(second, None);
}

#[test]
fn take_damage_ignores_non_positive_amounts() {
    let mut target = actor("orc", fighter(5, 0, 0, 35));
    let mut events: Vec<Event> = Vec::new();
    let r = target.take_damage(0, &mut events);
    assert_eq!(r, None);
    assert_eq!(target.fighter.as_ref().unwrap().hp, 5);
    assert!(target.alive);
}

#[test]
fn exact_kill_threshold_is_survived() {
    // Damage down to exactly zero hit points does not kill.
    let mut target = actor("orc", fighter(5, 0, 0, 35));
    let mut events: Vec<Event> = Vec::new();
    let r = target.take_damage(5, &mut events);
    assert_eq!(r, None);
    assert!(target.alive);
    assert_eq!(target.fighter.as_ref().unwrap().hp, 0);
}

#[test]
fn heal_never_exceeds_base_maximum() {
    let mut o = actor("player", fighter(10, 0, 0, 0));
    o.fighter = Some(Fighter {
        hp: 4,
        xp: 0,
        base_power: 0,
        base_defence: 0,
        base_max_hp: 10,
    });
    o.heal(20);
    assert_eq!(o.fighter.as_ref().unwrap().hp, 10);
    o.heal(0);
    assert_eq!(o.fighter.as_ref().unwrap().hp, 10);
}

#[test]
fn player_power_includes_equipped_bonuses() {
    let player = actor("player", fighter(40, 4, 1, 0));
    let mut dagger = Object::new(0, 0, '-', 4, false, "dagger", false);
    dagger.item = Some(Item::Sword);
    dagger.equipment = Some(Equipment {
        slot: Slot::LeftHand,
        equipped: true,
        power_bonus: 2,
        max_hp_bonus: 0,
        defense_bonus: 0,
    });
    let mut shield = Object::new(0, 0, '[', 4, false, "shield", false);
    shield.item = Some(Item::Shield);
    shield.equipment = Some(Equipment {
        slot: Slot::RightHand,
        equipped: false,
        power_bonus: 5,
        max_hp_bonus: 0,
        defense_bonus: 3,
    });
    let inv = vec![dagger, shield];
    // Only the worn dagger counts; the unequipped shield does not.
    assert_eq!(player.power(&inv), 6);
    assert_eq!(player.defence(&inv), 1);
    assert_eq!(player.max_hp(&inv), 40);
}

#[test]
fn monsters_get_no_equipment_bonuses() {
    let orc = actor("orc", fighter(10, 3, 0, 0));
    let mut dagger = Object::new(0, 0, '-', 4, false, "dagger", false);
    dagger.item = Some(Item::Sword);
    dagger.equipment = Some(Equipment {
        slot: Slot::LeftHand,
        equipped: true,
        power_bonus: 2,
        max_hp_bonus: 0,
        defense_bonus: 0,
    });
    let inv = vec![dagger];
    assert_eq!(orc.power(&inv), 3);
}

#[test]
fn equip_and_dequip_report_events() {
    let mut sword = Object::new(0, 0, '-', 4, false, "sword", false);
    sword.item = Some(Item::Sword);
    sword.equipment = Some(Equipment {
        slot: Slot::LeftHand,
        equipped: false,
        power_bonus: 2,
        max_hp_bonus: 0,
        defense_bonus: 0,
    });
    let mut events: Vec<Event> = Vec::new();
    sword.equip(&mut events);
    assert!(sword.equipment.as_ref().unwrap().equipped);
    assert!(matches!(events.last(), Some(Event::Equipped { .. })));
    sword.dequip(&mut events);
    assert!(!sword.equipment.as_ref().unwrap().equipped);
    assert!(matches!(events.last(), Some(Event::Dequipped { .. })));
}

#[test]
fn equipping_a_non_item_is_declined() {
    let mut rock = Object::new(0, 0, '*', 7, false, "rock", false);
    let mut events: Vec<Event> = Vec::new();
    rock.equip(&mut events);
    assert!(matches!(events.last(), Some(Event::NotAnItem { .. })));
    let mut potion = Object::new(0, 0, '!', 5, false, "potion", false);
    potion.item = Some(Item::Heal);
    potion.equip(&mut events);
    assert!(matches!(events.last(), Some(Event::NotEquipment { .. })));
}

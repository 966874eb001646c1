//! Item kinds, equipment slots, the equipment data itself, and the
//! resolvers that apply an item's effect to the game session.
use vstd::prelude::*;

use crate::events::{appended, Event};
use crate::game::{
    game_wf, lemma_total_xp_nonneg, lemma_total_xp_update_all, lemma_xp_pair_le_total,
    lemma_xp_sum_laws, total_xp, xp_of, xp_sum_laws, Game, PlayerAction, PLAYER,
};
use crate::object::{
    is_equipped_in_slot, obj_wf, spec_after_damage, spec_dies, spec_dist_sq, spec_max_hp,
    Fighter, Object,
};
use crate::ai::AI;

verus! {

/// Hit points restored by a healing potion.
pub const HEAL_AMOUNT: i32 = 5;

/// Damage dealt by a lightning bolt.
pub const LIGHTNING_DAMAGE: i32 = 40;

/// Maximum range of a lightning bolt.
pub const LIGHTNING_RANGE: i32 = 5;

/// Maximum range of a confusion bolt.
pub const CONFUSION_RANGE: i32 = 8;

/// Turns an actor stays confused.
pub const CONFUSION_NUM_TURNS: i32 = 10;

/// Radius of the wall of fire around the caster.
pub const FIRE_RADIUS: i32 = 3;

/// Damage the fire deals to each enemy caught in it.
pub const FIRE_DAMAGE: i32 = 12;

/// Damage the caster takes from their own fire.
pub const FIRE_SELF_DAMAGE: i32 = 3;

/// What a pickable item does when applied.
#[derive(Clone, Copy, Debug, PartialEq, Eq, Structural)]
pub enum Item {
    Heal,
    Lightning,
    Confusion,
    Fire,
    Sword,
    Shield,
}

/// Where a piece of equipment is worn.
#[derive(Clone, Copy, Debug, PartialEq, Eq, Structural)]
pub enum Slot {
    LeftHand,
    RightHand,
    Head,
}

impl Slot {
    /// Human-readable name of the slot.
    pub fn as_str(&self) -> (r: &'static str)
        ensures
            *self is LeftHand ==> r@ == "left hand"@,
            *self is RightHand ==> r@ == "right hand"@,
            *self is Head ==> r@ == "head"@,
    {
        match *self {
            Slot::LeftHand => "left hand",
            Slot::RightHand => "right hand",
            Slot::Head => "head",
        }
    }
}

/// An object that can be equipped, yielding stat bonuses while worn.
#[derive(Clone, Copy, Debug, PartialEq, Eq, Structural)]
pub struct Equipment {
    pub slot: Slot,
    pub equipped: bool,
    pub power_bonus: i32,
    pub max_hp_bonus: i32,
    pub defense_bonus: i32,
}

/// How applying an item ended.
pub enum UseResult {
    UsedUp,
    UsedAndKept,
    Cancelled,
}

/// Whether the object at `id` can be targeted by a bolt: a non-player
/// actor with both a fighter and a behavior aspect.
pub open spec fn eligible_target(objs: Seq<Object>, id: int) -> bool {
    &&& 0 < id < objs.len()
    &&& objs[id].fighter is Some
    &&& objs[id].ai is Some
}

/// Whether `id` is the monster a targeted effect with the given range
/// picks: eligible, strictly within range, and closest to the player
/// with ties broken toward the lowest index.
pub open spec fn picked_target(objs: Seq<Object>, id: int, max_range: int) -> bool {
    &&& eligible_target(objs, id)
    &&& spec_dist_sq(&objs[0], &objs[id]) < (max_range + 1) * (max_range + 1)
    &&& forall|j: int|
        eligible_target(objs, j) ==> spec_dist_sq(&objs[0], &objs[id]) < spec_dist_sq(
            &objs[0],
            #[trigger] &objs[j],
        ) || (spec_dist_sq(&objs[0], &objs[id]) == spec_dist_sq(&objs[0], &objs[j]) && id <= j)
}

/// Find the closest targetable enemy within `max_range` of the player,
/// ties broken by the lowest index; `None` when none is in range.
pub fn closest_monster(objects: &Vec<Object>, max_range: i32) -> (r: Option<usize>)
    requires
        objects@.len() >= 1,
        forall|i: int| 0 <= i < objects@.len() ==> obj_wf(#[trigger] &objects@[i]),
        0 <= max_range <= 1000,
    ensures
        match r {
            Some(id) => picked_target(objects@, id as int, max_range as int),
            None => forall|j: int|
                eligible_target(objects@, j) ==> spec_dist_sq(&objects@[0], #[trigger] &objects@[j])
                    >= (max_range + 1) * (max_range + 1),
        },
{
    let mut closest_enemy: Option<usize> = None;
    proof {
        assert((max_range + 1) * (max_range + 1) <= 1002001) by (nonlinear_arith)
            requires
                0 <= max_range <= 1000,
        ;
    }
    let mut closest_dist: i32 = (max_range + 1) * (max_range + 1);
    let n = objects.len();
    let mut id: usize = 1;
    while id < n
        invariant
            n == objects@.len(),
            n >= 1,
            1 <= id <= n,
            forall|i: int| 0 <= i < n ==> obj_wf(#[trigger] &objects@[i]),
            0 <= max_range <= 1000,
            closest_dist <= (max_range + 1) * (max_range + 1),
            match closest_enemy {
                Some(b) => {
                    &&& closest_dist < (max_range + 1) * (max_range + 1)
                    &&& eligible_target(objects@, b as int)
                    &&& b < id
                    &&& spec_dist_sq(&objects@[0], &objects@[b as int]) == closest_dist
                    &&& forall|j: int|
                        eligible_target(objects@, j) && j < id ==> closest_dist < spec_dist_sq(
                            &objects@[0],
                            #[trigger] &objects@[j],
                        ) || (closest_dist == spec_dist_sq(&objects@[0], &objects@[j]) && b <= j)
                },
                None => {
                    &&& closest_dist == (max_range + 1) * (max_range + 1)
                    &&& forall|j: int|
                        eligible_target(objects@, j) && j < id ==> spec_dist_sq(
                            &objects@[0],
                            #[trigger] &objects@[j],
                        ) >= closest_dist
                },
            },
        decreases n - id,
    {
        let is_eligible = {
            let o = &objects[id];
            o.fighter.is_some() && o.ai.is_some()
        };
        if is_eligible {
            let dist = {
                let p = &objects[PLAYER];
                p.distance_sq_to(&objects[id])
            };
            if dist < closest_dist {
                closest_enemy = Some(id);
                closest_dist = dist;
            }
        }
        id = id + 1;
    }
    closest_enemy
}

/// Restore the player with a healing potion: declined when already at
/// effective maximum health, otherwise heals up to `HEAL_AMOUNT`, never
/// beyond the base maximum.
pub fn cast_heal(_inv_id: usize, game: &mut Game) -> (r: UseResult)
    requires
        game_wf(old(game)),
        old(game).objects@[0].alive,
    ensures
        game_wf(final(game)),
        final(game).map == old(game).map,
        final(game).inventory == old(game).inventory,
        final(game).dungeon_level == old(game).dungeon_level,
        final(game).stat_choice_pending == old(game).stat_choice_pending,
        ({
            let p = old(game).objects@[0];
            let f = p.fighter->Some_0;
            if f.hp == spec_max_hp(&p, old(game).inventory@) {
                &&& r is Cancelled
                &&& final(game).objects@ == old(game).objects@
                &&& appended(old(game).events@, final(game).events@, 1)
                &&& final(game).events@.last() is FullHealth
            } else {
                &&& r is UsedUp
                &&& final(game).objects@ == old(game).objects@.update(
                    0,
                    (Object {
                        fighter: Some(
                            Fighter {
                                hp: (if f.hp + HEAL_AMOUNT > f.base_max_hp {
                                    f.base_max_hp as int
                                } else {
                                    f.hp + HEAL_AMOUNT
                                }) as i32,
                                ..f
                            },
                        ),
                        ..p
                    }),
                )
                &&& appended(old(game).events@, final(game).events@, 1)
                &&& final(game).events@.last() is Healed
            }
        }),
{
    let ghost objs0 = old(game).objects@;
    let max = {
        let p = &game.objects[PLAYER];
        p.max_hp(&game.inventory)
    };
    let f = game.objects[PLAYER].fighter.unwrap();
    if f.hp == max {
        game.events.push(Event::FullHealth);
        proof {
            assert(final(game).objects@ == objs0);
        }
        UseResult::Cancelled
    } else {
        game.events.push(Event::Healed);
        proof {
            lemma_total_xp_update_all(objs0, 0);
        }
        let p_ref = &mut game.objects[PLAYER];
        p_ref.heal(HEAL_AMOUNT);
        UseResult::UsedUp
    }
}

/// Equip or unequip the inventory item at `inv_id`. Equipping into an
/// occupied slot first takes the occupant off, so afterwards exactly
/// one inventory item is equipped in that slot. Declined when the entry
/// is not equipment.
pub fn toggle_equipment(inv_id: usize, game: &mut Game) -> (r: UseResult)
    requires
        game_wf(old(game)),
        inv_id < old(game).inventory@.len(),
    ensures
        game_wf(final(game)),
        final(game).map == old(game).map,
        final(game).objects@ == old(game).objects@,
        final(game).dungeon_level == old(game).dungeon_level,
        final(game).stat_choice_pending == old(game).stat_choice_pending,
        final(game).events@.len() >= old(game).events@.len(),
        forall|k: int|
            0 <= k < old(game).events@.len() ==> final(game).events@[k] == old(game).events@[k],
        ({
            let inv0 = old(game).inventory@;
            let it = inv0[inv_id as int];
            match it.equipment {
                None => {
                    &&& r is Cancelled
                    &&& final(game).inventory@ == inv0
                    &&& final(game).events@ == old(game).events@
                },
                Some(e) => {
                    &&& r is UsedAndKept
                    &&& (if e.equipped {
                        &&& final(game).inventory@ == inv0.update(
                            inv_id as int,
                            (Object {
                                equipment: Some(Equipment { equipped: false, ..e }),
                                ..it
                            }),
                        )
                    } else {
                        &&& final(game).inventory@[inv_id as int] == (Object {
                            equipment: Some(Equipment { equipped: true, ..e }),
                            ..it
                        })
                        &&& final(game).inventory@.len() == inv0.len()
                        &&& forall|j: int|
                            0 <= j < inv0.len() && j != inv_id && is_equipped_in_slot(
                                #[trigger] &final(game).inventory@[j],
                                e.slot,
                            ) ==> false
                        &&& forall|j: int|
                            0 <= j < inv0.len() && j != inv_id && !is_equipped_in_slot(
                                #[trigger] &inv0[j],
                                e.slot,
                            ) ==> final(game).inventory@[j] == inv0[j]
                    })
                },
            }
        }),
{
    let ghost inv0 = old(game).inventory@;
    let equipment = match game.inventory[inv_id].equipment {
        Some(equipment) => equipment,
        None => {
            return UseResult::Cancelled;
        },
    };
    if equipment.equipped {
        let it_ref = &mut game.inventory[inv_id];
        it_ref.dequip(&mut game.events);
    } else {
        let current = crate::object::get_equipped_in_slot(equipment.slot, &game.inventory);
        match current {
            Some(cur) => {
                let cur_ref = &mut game.inventory[cur];
                cur_ref.dequip(&mut game.events);
            },
            None => {},
        }
        let it_ref = &mut game.inventory[inv_id];
        it_ref.equip(&mut game.events);
        proof {
            match current {
                Some(cur) => {
                    assert(final(game).inventory@ == inv0.update(
                        cur as int,
                        (Object {
                            equipment: Some(
                                Equipment {
                                    equipped: false,
                                    ..inv0[cur as int].equipment->Some_0
                                },
                            ),
                            ..inv0[cur as int]
                        }),
                    ).update(
                        inv_id as int,
                        (Object {
                            equipment: Some(Equipment { equipped: true, ..equipment }),
                            ..inv0[inv_id as int]
                        }),
                    ));
                },
                None => {
                    assert(final(game).inventory@ == inv0.update(
                        inv_id as int,
                        (Object {
                            equipment: Some(Equipment { equipped: true, ..equipment }),
                            ..inv0[inv_id as int]
                        }),
                    ));
                },
            }
        }
    }
    UseResult::UsedAndKept
}

/// Strike the closest targetable enemy within `LIGHTNING_RANGE` with a
/// bolt for `LIGHTNING_DAMAGE`; a kill credits its experience reward to
/// the player. Cancelled, without spending the scroll, when no enemy is
/// in range.
pub fn cast_lightning(_inv_id: usize, game: &mut Game) -> (r: UseResult)
    requires
        game_wf(old(game)),
    ensures
        game_wf(final(game)),
        final(game).map == old(game).map,
        final(game).inventory == old(game).inventory,
        final(game).dungeon_level == old(game).dungeon_level,
        final(game).stat_choice_pending == old(game).stat_choice_pending,
        final(game).objects@.len() == old(game).objects@.len(),
        ({
            let objs = old(game).objects@;
            if exists|id: int| picked_target(objs, id, LIGHTNING_RANGE as int) {
                exists|id: int|
                    #[trigger] picked_target(objs, id, LIGHTNING_RANGE as int) && {
                        &&& r is UsedUp
                        &&& forall|k: int|
                            0 <= k < objs.len() && k != id && k != 0
                                ==> final(game).objects@[k] == objs[k]
                        &&& spec_after_damage(
                            &objs[id],
                            &final(game).objects@[id],
                            LIGHTNING_DAMAGE as int,
                        )
                        &&& (if spec_dies(&objs[id], LIGHTNING_DAMAGE as int) {
                            &&& final(game).objects@[0] == (Object {
                                fighter: Some(
                                    Fighter {
                                        xp: (objs[0].fighter->Some_0.xp
                                            + objs[id].fighter->Some_0.xp) as i32,
                                        ..objs[0].fighter->Some_0
                                    },
                                ),
                                ..objs[0]
                            })
                            &&& appended(old(game).events@, final(game).events@, 2)
                            &&& (final(game).events@[old(game).events@.len() as int] matches
                                Event::Struck { target, damage } && target@ == objs[id].name@
                                && damage == LIGHTNING_DAMAGE)
                            &&& (final(game).events@.last() matches Event::Died { name } && name@
                                == objs[id].name@)
                        } else {
                            &&& final(game).objects@[0] == objs[0]
                            &&& appended(old(game).events@, final(game).events@, 1)
                            &&& (final(game).events@.last() matches Event::Struck {
                                target,
                                damage,
                            } && target@ == objs[id].name@ && damage == LIGHTNING_DAMAGE)
                        })
                    }
            } else {
                &&& r is Cancelled
                &&& final(game).objects@ == objs
                &&& appended(old(game).events@, final(game).events@, 1)
                &&& final(game).events@.last() is NoEnemyInRange
            }
        }),
{
    let ghost objs0 = old(game).objects@;
    let monster_id = closest_monster(&game.objects, LIGHTNING_RANGE);
    match monster_id {
        Some(monster_id) => {
            let name = game.objects[monster_id].name.clone();
            game.events.push(Event::Struck { target: name, damage: LIGHTNING_DAMAGE });
            proof {
                lemma_xp_pair_le_total(objs0, monster_id as int, 0);
                lemma_total_xp_nonneg(objs0);
                lemma_total_xp_update_all(objs0, monster_id as int);
                lemma_total_xp_update_all(
                    objs0.update(
                        monster_id as int,
                        (Object {
                            fighter: Some(
                                Fighter {
                                    hp: (objs0[monster_id as int].fighter->Some_0.hp
                                        - LIGHTNING_DAMAGE) as i32,
                                    xp: 0,
                                    ..objs0[monster_id as int].fighter->Some_0
                                },
                            ),
                            ..objs0[monster_id as int]
                        }),
                    ),
                    0,
                );
            }
            let xp_gain = {
                let m_ref = &mut game.objects[monster_id];
                m_ref.take_damage(LIGHTNING_DAMAGE, &mut game.events)
            };
            match xp_gain {
                Some(xp) => {
                    let p_ref = &mut game.objects[PLAYER];
                    let f = p_ref.fighter.unwrap();
                    p_ref.fighter = Some(Fighter { xp: f.xp + xp, ..f });
                    proof {
                        crate::object::lemma_remains_not_player(
                            objs0[monster_id as int].name@,
                            final(game).objects@[monster_id as int].name@,
                        );
                        let m1 = final(game).objects@[monster_id as int];
                        let p1 = final(game).objects@[0];
                        assert(final(game).objects@ == objs0.update(monster_id as int, m1).update(
                            0,
                            p1,
                        ));
                        assert(total_xp(final(game).objects@) <= total_xp(objs0)) by {
                            lemma_total_xp_update_all(objs0, monster_id as int);
                            lemma_total_xp_update_all(
                                objs0.update(monster_id as int, m1),
                                0,
                            );
                        }
                    }
                },
                None => {
                    proof {
                        let m1 = final(game).objects@[monster_id as int];
                        assert(final(game).objects@ == objs0.update(monster_id as int, m1));
                    }
                },
            }
            UseResult::UsedUp
        },
        None => {
            game.events.push(Event::NoEnemyInRange);
            UseResult::Cancelled
        },
    }
}

/// Confuse the closest targetable enemy within `CONFUSION_RANGE`: its
/// current behavior is wrapped into a fresh `Confused` state for
/// `CONFUSION_NUM_TURNS` turns. Cancelled, without spending the scroll,
/// when no enemy is in range.
pub fn cast_confusion(_inv_id: usize, game: &mut Game) -> (r: UseResult)
    requires
        game_wf(old(game)),
    ensures
        game_wf(final(game)),
        final(game).map == old(game).map,
        final(game).inventory == old(game).inventory,
        final(game).dungeon_level == old(game).dungeon_level,
        final(game).stat_choice_pending == old(game).stat_choice_pending,
        final(game).objects@.len() == old(game).objects@.len(),
        ({
            let objs = old(game).objects@;
            if exists|id: int| picked_target(objs, id, CONFUSION_RANGE as int) {
                exists|id: int|
                    #[trigger] picked_target(objs, id, CONFUSION_RANGE as int) && {
                        &&& r is UsedUp
                        &&& forall|k: int|
                            0 <= k < objs.len() && k != id ==> final(game).objects@[k] == objs[k]
                        &&& (final(game).objects@[id].ai matches Some(
                            AI::Confused { prev_ai, turns },
                        ) && *prev_ai == objs[id].ai->Some_0 && turns == CONFUSION_NUM_TURNS)
                        &&& final(game).objects@[id] == (Object {
                            ai: final(game).objects@[id].ai,
                            ..objs[id]
                        })
                        &&& appended(old(game).events@, final(game).events@, 1)
                        &&& (final(game).events@.last() matches Event::BecameConfused { name }
                            && name@ == objs[id].name@)
                    }
            } else {
                &&& r is Cancelled
                &&& final(game).objects@ == objs
                &&& appended(old(game).events@, final(game).events@, 1)
                &&& final(game).events@.last() is NoEnemyInRange
            }
        }),
{
    let ghost objs0 = old(game).objects@;
    let monster_id = closest_monster(&game.objects, CONFUSION_RANGE);
    match monster_id {
        Some(monster_id) => {
            let name = game.objects[monster_id].name.clone();
            game.events.push(Event::BecameConfused { name });
            proof {
                lemma_total_xp_update_all(objs0, monster_id as int);
            }
            let m_ref = &mut game.objects[monster_id];
            let old_ai = m_ref.ai.take();
            let prev = match old_ai {
                Some(a) => a,
                None => AI::Basic,
            };
            m_ref.ai = Some(AI::Confused { prev_ai: Box::new(prev), turns: CONFUSION_NUM_TURNS });
            proof {
                let m1 = final(game).objects@[monster_id as int];
                assert(final(game).objects@ == objs0.update(monster_id as int, m1));
            }
            UseResult::UsedUp
        },
        None => {
            game.events.push(Event::NoEnemyInRange);
            UseResult::Cancelled
        },
    }
}

/// Whether an actor is caught by the wall of fire around `p`: within
/// the radius, able to fight, and autonomously acting.
pub open spec fn fire_hits_enemy(o: &Object, p: &Object) -> bool {
    &&& spec_dist_sq(o, p) <= FIRE_RADIUS * FIRE_RADIUS
    &&& o.fighter is Some
    &&& o.ai is Some
}

/// Total experience the fire yields: the rewards of every burned enemy
/// it kills. The entry at index zero (the caster) never contributes.
pub open spec fn fire_xp_gain(objs: Seq<Object>, p: Object) -> int
    decreases objs.len(),
{
    if objs.len() <= 1 {
        0
    } else {
        fire_xp_gain(objs.drop_last(), p) + (if fire_hits_enemy(&objs.last(), &p) && spec_dies(
            &objs.last(),
            FIRE_DAMAGE as int,
        ) {
            xp_of(&objs.last())
        } else {
            0
        })
    }
}

/// Prefix step of the fire gain.
proof fn lemma_fire_gain_take(objs: Seq<Object>, p: Object, i: int)
    requires
        1 <= i < objs.len(),
    ensures
        fire_xp_gain(objs.take(i + 1), p) == fire_xp_gain(objs.take(i), p) + (if fire_hits_enemy(
            &objs[i],
            &p,
        ) && spec_dies(&objs[i], FIRE_DAMAGE as int) {
            xp_of(&objs[i])
        } else {
            0
        }),
{
    assert(objs.take(i + 1).drop_last() =~= objs.take(i));
    assert(objs.take(i + 1).last() == objs[i]);
}

/// Raise a wall of fire around the player: every enemy with a fighter
/// and a behavior within `FIRE_RADIUS` burns for `FIRE_DAMAGE`, the
/// player burns for `FIRE_SELF_DAMAGE`, and the rewards of every enemy
/// killed are credited to the player afterwards.
pub fn cast_fire(_inv_id: usize, game: &mut Game) -> (r: UseResult)
    requires
        game_wf(old(game)),
        old(game).objects@[0].alive,
    ensures
        game_wf(final(game)),
        final(game).map == old(game).map,
        final(game).inventory == old(game).inventory,
        final(game).dungeon_level == old(game).dungeon_level,
        final(game).stat_choice_pending == old(game).stat_choice_pending,
        final(game).objects@.len() == old(game).objects@.len(),
        r is UsedUp,
        final(game).events@.len() > old(game).events@.len(),
        forall|k: int| 0 <= k < old(game).events@.len() ==> final(game).events@[k] == old(game).events@[k],
        (final(game).events@[old(game).events@.len() as int] matches Event::FireCast { radius }
            && radius == FIRE_RADIUS),
        ({
            let objs = old(game).objects@;
            let p0 = objs[0];
            &&& forall|k: int|
                1 <= k < objs.len() ==> (if fire_hits_enemy(#[trigger] &objs[k], &p0) {
                    spec_after_damage(&objs[k], &final(game).objects@[k], FIRE_DAMAGE as int)
                } else {
                    final(game).objects@[k] == objs[k]
                })
            &&& xp_of(&final(game).objects@[0]) == (if spec_dies(&p0, FIRE_SELF_DAMAGE as int) {
                0int
            } else {
                p0.fighter->Some_0.xp as int
            }) + fire_xp_gain(objs, p0)
            &&& spec_after_damage(
                &p0,
                &(Object {
                    fighter: Some(
                        Fighter {
                            xp: (xp_of(&final(game).objects@[0]) - fire_xp_gain(objs, p0)) as i32,
                            ..final(game).objects@[0].fighter->Some_0
                        },
                    ),
                    ..final(game).objects@[0]
                }),
                FIRE_SELF_DAMAGE as int,
            )
        }),
{
    let ghost objs0 = old(game).objects@;
    let ghost p0 = objs0[0];
    game.events.push(Event::FireCast { radius: FIRE_RADIUS });
    let ghost ev1 = old(game).events@.push(Event::FireCast { radius: FIRE_RADIUS });
    proof {
        lemma_xp_sum_laws();
        lemma_total_xp_nonneg(objs0);
    }
    let (px, py) = {
        let p = &game.objects[PLAYER];
        (p.x, p.y)
    };
    let n = game.objects.len();
    let mut xp_to_gain: i32 = 0;
    let mut i: usize = 0;
    while i < n
        invariant
            xp_sum_laws(),
            n == objs0.len(),
            0 <= i <= n,
            n >= 1,
            objs0[0] == p0,
            p0.alive,
            px == p0.x && py == p0.y,
            game_wf(old(game)),
            game.objects@.len() == n,
            game.map == old(game).map,
            game.inventory == old(game).inventory,
            game.dungeon_level == old(game).dungeon_level,
            game.stat_choice_pending == old(game).stat_choice_pending,
            game.events@.len() > old(game).events@.len(),
            forall|k: int|
                0 <= k < old(game).events@.len() ==> game.events@[k] == old(game).events@[k],
            (game.events@[old(game).events@.len() as int] matches Event::FireCast { radius }
                && radius == FIRE_RADIUS),
            forall|k: int| 0 <= k < n ==> obj_wf(#[trigger] &game.objects@[k]),
            forall|k: int|
                0 <= k < n && (#[trigger] game.objects@[k]).ai is Some ==> game.objects@[k].alive
                    && game.objects@[k].fighter is Some,
            forall|k: int| 1 <= k < n ==> !crate::object::is_player(#[trigger] &game.objects@[k]),
            forall|k: int|
                0 <= k < n ==> ((#[trigger] game.objects@[k]).equipment matches Some(e)
                    ==> !e.equipped && game.objects@[k].item is Some),
            game.objects@[0].fighter is Some,
            forall|k: int|
                (i as int) <= k < n ==> #[trigger] game.objects@[k] == objs0[k],
            forall|k: int|
                1 <= k < (i as int) ==> (if fire_hits_enemy(#[trigger] &objs0[k], &p0) {
                    spec_after_damage(&objs0[k], &game.objects@[k], FIRE_DAMAGE as int)
                } else {
                    game.objects@[k] == objs0[k]
                }),
            (i > 0 ==> spec_after_damage(&p0, &game.objects@[0], FIRE_SELF_DAMAGE as int)),
            xp_to_gain == fire_xp_gain(objs0.take(i as int), p0),
            xp_to_gain >= 0,
            xp_to_gain + total_xp(game.objects@) <= total_xp(objs0),
            total_xp(objs0) <= i32::MAX,
        decreases n - i,
    {
        let (ox, oy, has_fighter, has_ai) = {
            let o = &game.objects[i];
            (o.x, o.y, o.fighter.is_some(), o.ai.is_some())
        };
        let dx = ox - px;
        let dy = oy - py;
        proof {
            assert(dx * dx <= 100 * 100 && dy * dy <= 100 * 100 && dx * dx >= 0 && dy * dy >= 0)
                by (nonlinear_arith)
                requires
                    -100 <= dx <= 100,
                    -100 <= dy <= 100,
            ;
            if i >= 1 {
                lemma_fire_gain_take(objs0, p0, i as int);
            } else {
                assert(objs0.take(1).drop_last() =~= objs0.take(0));
            }
        }
        let d2 = dx * dx + dy * dy;
        if d2 <= FIRE_RADIUS * FIRE_RADIUS && has_fighter {
            if i == PLAYER {
                game.events.push(Event::BurnedSelf { damage: FIRE_SELF_DAMAGE });
                let p_ref = &mut game.objects[PLAYER];
                let _ = p_ref.take_damage(FIRE_SELF_DAMAGE, &mut game.events);
            } else if has_ai {
                let name = game.objects[i].name.clone();
                game.events.push(Event::Burned { name, damage: FIRE_DAMAGE });
                let burned = {
                    let o_ref = &mut game.objects[i];
                    o_ref.take_damage(FIRE_DAMAGE, &mut game.events)
                };
                proof {
                    crate::object::lemma_remains_not_player(
                        objs0[i as int].name@,
                        "remains of "@ + objs0[i as int].name@,
                    );
                }
                match burned {
                    Some(xp) => {
                        xp_to_gain = xp_to_gain + xp;
                    },
                    None => {},
                }
            }
        }
        i = i + 1;
    }
    proof {
        assert(objs0.take(n as int) =~= objs0);
    }
    let p_ref = &mut game.objects[PLAYER];
    let f = p_ref.fighter.unwrap();
    p_ref.fighter = Some(Fighter { xp: f.xp + xp_to_gain, ..f });
    UseResult::UsedUp
}

/// The arena after a healing potion is applied.
pub open spec fn heal_objects(pre: &Game, post_objs: Seq<Object>) -> bool {
    let p = pre.objects@[0];
    let f = p.fighter->Some_0;
    if f.hp == spec_max_hp(&p, pre.inventory@) {
        post_objs == pre.objects@
    } else {
        post_objs == pre.objects@.update(
            0,
            (Object {
                fighter: Some(
                    Fighter {
                        hp: (if f.hp + HEAL_AMOUNT > f.base_max_hp {
                            f.base_max_hp as int
                        } else {
                            f.hp + HEAL_AMOUNT
                        }) as i32,
                        ..f
                    },
                ),
                ..p
            }),
        )
    }
}

/// The arena after a lightning bolt is applied.
pub open spec fn lightning_objects(pre: &Game, post_objs: Seq<Object>) -> bool {
    let objs = pre.objects@;
    if exists|id: int| picked_target(objs, id, LIGHTNING_RANGE as int) {
        exists|id: int|
            #[trigger] picked_target(objs, id, LIGHTNING_RANGE as int) && {
                &&& post_objs.len() == objs.len()
                &&& forall|k: int|
                    0 <= k < objs.len() && k != id && k != 0 ==> post_objs[k] == objs[k]
                &&& spec_after_damage(&objs[id], &post_objs[id], LIGHTNING_DAMAGE as int)
                &&& (if spec_dies(&objs[id], LIGHTNING_DAMAGE as int) {
                    post_objs[0] == (Object {
                        fighter: Some(
                            Fighter {
                                xp: (objs[0].fighter->Some_0.xp + objs[id].fighter->Some_0.xp)
                                    as i32,
                                ..objs[0].fighter->Some_0
                            },
                        ),
                        ..objs[0]
                    })
                } else {
                    post_objs[0] == objs[0]
                })
            }
    } else {
        post_objs == objs
    }
}

/// The arena after a confusion bolt is applied.
pub open spec fn confusion_objects(pre: &Game, post_objs: Seq<Object>) -> bool {
    let objs = pre.objects@;
    if exists|id: int| picked_target(objs, id, CONFUSION_RANGE as int) {
        exists|id: int|
            #[trigger] picked_target(objs, id, CONFUSION_RANGE as int) && {
                &&& post_objs.len() == objs.len()
                &&& forall|k: int| 0 <= k < objs.len() && k != id ==> post_objs[k] == objs[k]
                &&& (post_objs[id].ai matches Some(AI::Confused { prev_ai, turns }) && *prev_ai
                    == objs[id].ai->Some_0 && turns == CONFUSION_NUM_TURNS)
                &&& post_objs[id] == (Object { ai: post_objs[id].ai, ..objs[id] })
            }
    } else {
        post_objs == objs
    }
}

/// The arena after a wall of fire is applied.
pub open spec fn fire_objects(pre: &Game, post_objs: Seq<Object>) -> bool {
    let objs = pre.objects@;
    let p0 = objs[0];
    &&& post_objs.len() == objs.len()
    &&& forall|k: int|
        1 <= k < objs.len() ==> (if fire_hits_enemy(#[trigger] &objs[k], &p0) {
            spec_after_damage(&objs[k], &post_objs[k], FIRE_DAMAGE as int)
        } else {
            post_objs[k] == objs[k]
        })
    &&& xp_of(&post_objs[0]) == (if spec_dies(&p0, FIRE_SELF_DAMAGE as int) {
        0int
    } else {
        p0.fighter->Some_0.xp as int
    }) + fire_xp_gain(objs, p0)
    &&& spec_after_damage(
        &p0,
        &(Object {
            fighter: Some(
                Fighter {
                    xp: (xp_of(&post_objs[0]) - fire_xp_gain(objs, p0)) as i32,
                    ..post_objs[0].fighter->Some_0
                },
            ),
            ..post_objs[0]
        }),
        FIRE_SELF_DAMAGE as int,
    )
}

/// Whether applying the item of the given kind from `inv_id` spends it.
pub open spec fn item_spent(pre: &Game, inv_id: int, kind: Item) -> bool {
    match kind {
        Item::Heal => pre.objects@[0].fighter->Some_0.hp != spec_max_hp(
            &pre.objects@[0],
            pre.inventory@,
        ),
        Item::Lightning => exists|id: int|
            picked_target(pre.objects@, id, LIGHTNING_RANGE as int),
        Item::Confusion => exists|id: int|
            picked_target(pre.objects@, id, CONFUSION_RANGE as int),
        Item::Fire => true,
        Item::Sword => false,
        Item::Shield => false,
    }
}

/// Whether applying the item of the given kind reports a cancellation.
pub open spec fn item_cancelled(pre: &Game, inv_id: int, kind: Item) -> bool {
    match kind {
        Item::Heal => !item_spent(pre, inv_id, kind),
        Item::Lightning => !item_spent(pre, inv_id, kind),
        Item::Confusion => !item_spent(pre, inv_id, kind),
        Item::Fire => false,
        Item::Sword => pre.inventory@[inv_id].equipment is None,
        Item::Shield => pre.inventory@[inv_id].equipment is None,
    }
}

/// Apply the inventory item at `inv_id`: dispatch on its kind to the
/// matching resolver and remove the item when it reports itself used
/// up. A cancelled effect keeps the item, reports a cancellation event,
/// and, like using a non-item, consumes no game time.
pub fn use_item(inv_id: usize, game: &mut Game) -> (r: PlayerAction)
    requires
        game_wf(old(game)),
        inv_id < old(game).inventory@.len(),
        old(game).objects@[0].alive,
    ensures
        game_wf(final(game)),
        final(game).map == old(game).map,
        final(game).dungeon_level == old(game).dungeon_level,
        final(game).stat_choice_pending == old(game).stat_choice_pending,
        forall|k: int|
            0 <= k < old(game).events@.len() ==> final(game).events@[k] == old(game).events@[k],
        ({
            match old(game).inventory@[inv_id as int].item {
                None => {
                    &&& r is DidntTakeTurn
                    &&& final(game).objects@ == old(game).objects@
                    &&& final(game).inventory@ == old(game).inventory@
                    &&& appended(old(game).events@, final(game).events@, 1)
                    &&& (final(game).events@.last() matches Event::NotUsable { name } && name@
                        == old(game).inventory@[inv_id as int].name@)
                },
                Some(kind) => {
                    &&& r == (if item_cancelled(old(game), inv_id as int, kind) {
                        PlayerAction::DidntTakeTurn
                    } else {
                        PlayerAction::TookTurn
                    })
                    &&& (kind == Item::Heal ==> heal_objects(old(game), final(game).objects@))
                    &&& (kind == Item::Lightning ==> lightning_objects(
                        old(game),
                        final(game).objects@,
                    ))
                    &&& (kind == Item::Confusion ==> confusion_objects(
                        old(game),
                        final(game).objects@,
                    ))
                    &&& (kind == Item::Fire ==> fire_objects(old(game), final(game).objects@))
                    &&& (kind == Item::Sword || kind == Item::Shield ==> final(game).objects@
                        == old(game).objects@)
                    &&& (if item_spent(old(game), inv_id as int, kind) {
                        final(game).inventory@ == old(game).inventory@.remove(inv_id as int)
                    } else if kind == Item::Sword || kind == Item::Shield {
                        final(game).inventory@.len() == old(game).inventory@.len()
                    } else {
                        final(game).inventory@ == old(game).inventory@
                    })
                    &&& (item_cancelled(old(game), inv_id as int, kind)
                        ==> final(game).events@.last() is Cancelled && final(game).objects@
                        == old(game).objects@)
                },
            }
        }),
{
    let ghost inv0 = old(game).inventory@;
    let item = game.inventory[inv_id].item;
    match item {
        Some(item) => {
            let result = match item {
                Item::Heal => cast_heal(inv_id, game),
                Item::Lightning => cast_lightning(inv_id, game),
                Item::Confusion => cast_confusion(inv_id, game),
                Item::Fire => cast_fire(inv_id, game),
                _ => toggle_equipment(inv_id, game),
            };
            match result {
                UseResult::UsedUp => {
                    game.inventory.remove(inv_id);
                    proof {
                        let newinv = final(game).inventory@;
                        assert(newinv == inv0.remove(inv_id as int));
                        assert forall|i: int| 0 <= i < newinv.len() implies obj_wf(
                            #[trigger] &newinv[i],
                        ) by {
                            if i < inv_id {
                                assert(newinv[i] == inv0[i]);
                            } else {
                                assert(newinv[i] == inv0[i + 1]);
                            }
                        }
                        assert forall|i: int, j: int, s: Slot|
                            0 <= i < j < newinv.len() && #[trigger] is_equipped_in_slot(
                                &newinv[i],
                                s,
                            ) && #[trigger] is_equipped_in_slot(&newinv[j], s) implies false by {
                            let i0 = if i < inv_id {
                                i
                            } else {
                                i + 1
                            };
                            let j0 = if j < inv_id {
                                j
                            } else {
                                j + 1
                            };
                            assert(newinv[i] == inv0[i0]);
                            assert(newinv[j] == inv0[j0]);
                        }
                        assert forall|i: int|
                            0 <= i < newinv.len() && (#[trigger] newinv[i]).equipment
                                is Some implies newinv[i].item is Some by {
                            if i < inv_id {
                                assert(newinv[i] == inv0[i]);
                            } else {
                                assert(newinv[i] == inv0[i + 1]);
                            }
                        }
                    }
                },
                UseResult::UsedAndKept => {},
                UseResult::Cancelled => {
                    game.events.push(Event::Cancelled);
                    return PlayerAction::DidntTakeTurn;
                },
            }
            PlayerAction::TookTurn
        },
        None => {
            let name = game.inventory[inv_id].name.clone();
            game.events.push(Event::NotUsable { name });
            PlayerAction::DidntTakeTurn
        },
    }
}

} // verus!

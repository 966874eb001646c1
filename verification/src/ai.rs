//! The per-actor behavior state machine and the split-borrow primitive
//! for mutating two distinct entities of one collection at once.
use vstd::prelude::*;

use crate::events::{appended, Event};
use crate::game::{
    game_wf, lemma_total_xp_nonneg, lemma_total_xp_update2_all, lemma_total_xp_update_all,
    lemma_xp_pair_le_total, Game, PLAYER,
};
use crate::object::{
    is_player, lemma_effective_stats_bounded, move_by, move_towards, obj_wf, spec_after_damage,
    spec_defence, spec_dies, spec_dist_sq, spec_power, step_toward, Fighter, Object,
};
use crate::rng::rand_range;
use crate::tile::{spec_is_blocked, Grid, MAP_HEIGHT, MAP_WIDTH};

verus! {

/// Squared detection radius: a monster notices the player within six
/// map units.
pub const DETECT_RADIUS_SQ: i32 = 36;

/// Squared melee threshold: closer than two map units, a monster
/// attacks instead of moving.
pub const MELEE_RADIUS_SQ: i32 = 4;

/// Autonomous behavior of a non-player actor. `Confused` wraps the prior
/// behavior so it can be restored when the confusion wears off.
#[derive(Debug)]
pub enum AI {
    Basic,
    Confused { prev_ai: Box<AI>, turns: i32 },
}

/// Exclusive references to two distinct elements of one slice.
///
/// The two indices must differ: borrowing the same element twice (an
/// actor fighting itself) is an invariant violation, so it is excluded
/// by precondition rather than tolerated.
pub fn mut_two<T>(first_index: usize, second_index: usize, items: &mut [T]) -> (r: (
    &mut T,
    &mut T,
))
    requires
        first_index != second_index,
        first_index < old(items).len(),
        second_index < old(items).len(),
    ensures
        *r.0 == old(items)[first_index as int],
        *r.1 == old(items)[second_index as int],
        final(items)@.len() == old(items)@.len(),
        final(items)@[first_index as int] == *final(r.0),
        final(items)@[second_index as int] == *final(r.1),
        forall|k: int|
            0 <= k < old(items)@.len() && k != first_index && k != second_index
                ==> final(items)@[k] == old(items)@[k],
        final(items)@ =~= old(items)@.update(first_index as int, *final(r.0)).update(
            second_index as int,
            *final(r.1),
        ),
{
    if first_index < second_index {
        let (left, right) = items.split_at_mut(second_index);
        let (_, tail) = left.split_at_mut(first_index);
        let a = tail.first_mut().unwrap();
        let b = right.first_mut().unwrap();
        (a, b)
    } else {
        let (left, right) = items.split_at_mut(first_index);
        let (_, tail) = left.split_at_mut(second_index);
        let b = tail.first_mut().unwrap();
        let a = right.first_mut().unwrap();
        (a, b)
    }
}

/// One evaluation of the behavior state machine, as a pure transition:
/// `Basic` stays `Basic`; `Confused` counts down while at least one
/// turn remains and then reverts to the wrapped behavior.
pub open spec fn ai_step(a: AI) -> AI
    decreases a,
{
    match a {
        AI::Basic => AI::Basic,
        AI::Confused { prev_ai, turns } => {
            if turns >= 1 {
                AI::Confused { prev_ai, turns: (turns - 1) as i32 }
            } else {
                *prev_ai
            }
        },
    }
}

/// `n` evaluations of the behavior state machine.
pub open spec fn ai_iter(a: AI, n: nat) -> AI
    decreases n,
{
    if n == 0 {
        a
    } else {
        ai_iter(ai_step(a), (n - 1) as nat)
    }
}

/// A confused behavior reverts to the wrapped prior behavior after
/// exactly `turns + 1` evaluations: every earlier evaluation leaves it
/// confused with the remaining turn count, and the evaluation after the
/// last confused step restores the wrapped behavior unchanged.
pub proof fn lemma_confusion_reverts(prev_ai: Box<AI>, turns: i32)
    requires
        0 <= turns,
    ensures
        forall|k: int|
            0 <= k <= turns ==> #[trigger] ai_iter(AI::Confused { prev_ai, turns }, k as nat)
                == (AI::Confused { prev_ai, turns: (turns - k) as i32 }),
        ai_iter(AI::Confused { prev_ai, turns }, (turns + 1) as nat) == *prev_ai,
    decreases turns,
{
    if turns == 0 {
        assert(ai_iter(AI::Confused { prev_ai, turns }, 0) == (AI::Confused { prev_ai, turns }));
        assert(ai_step(AI::Confused { prev_ai, turns }) == *prev_ai);
        assert(ai_iter(AI::Confused { prev_ai, turns }, 1) == ai_iter(*prev_ai, 0));
    } else {
        lemma_confusion_reverts(prev_ai, (turns - 1) as i32);
        assert(ai_step(AI::Confused { prev_ai, turns }) == (AI::Confused {
            prev_ai,
            turns: (turns - 1) as i32,
        }));
        assert forall|k: int|
            0 <= k <= turns implies #[trigger] ai_iter(AI::Confused { prev_ai, turns }, k as nat)
            == (AI::Confused { prev_ai, turns: (turns - k) as i32 }) by {
            if k > 0 {
                assert(ai_iter(AI::Confused { prev_ai, turns }, k as nat) == ai_iter(
                    AI::Confused { prev_ai, turns: (turns - 1) as i32 },
                    (k - 1) as nat,
                ));
            }
        }
        assert(ai_iter(AI::Confused { prev_ai, turns }, (turns + 1) as nat) == ai_iter(
            AI::Confused { prev_ai, turns: (turns - 1) as i32 },
            turns as nat,
        ));
    }
}

/// The arena after the object at `id` attempts a `(sx, sy)` step: moved
/// if the destination is on the grid and unblocked, unchanged otherwise.
pub open spec fn moved_seq(map: &Grid, objs: Seq<Object>, id: int, sx: int, sy: int) -> Seq<
    Object,
> {
    let m = objs[id];
    let nx = m.x + sx;
    let ny = m.y + sy;
    if 0 <= nx < MAP_WIDTH && 0 <= ny < MAP_HEIGHT && !spec_is_blocked(map, objs, nx, ny) {
        objs.update(id, (Object { x: nx as i32, y: ny as i32, ..m }))
    } else {
        objs
    }
}

/// A session left entirely unchanged.
pub open spec fn unchanged_game(pre: &Game, post: &Game) -> bool {
    &&& same_frame(pre, post)
    &&& post.objects@ == pre.objects@
    &&& post.events@ == pre.events@
}

/// Everything of a session a monster's turn never touches.
pub open spec fn same_frame(pre: &Game, post: &Game) -> bool {
    &&& post.map == pre.map
    &&& post.inventory == pre.inventory
    &&& post.dungeon_level == pre.dungeon_level
    &&& post.stat_choice_pending == pre.stat_choice_pending
}

/// The outcome of the monster at `id` attacking the player in melee.
pub open spec fn attack_post(pre: &Game, post: &Game, id: int) -> bool {
    let objs = pre.objects@;
    let m = objs[id];
    let p = objs[0];
    let inv = pre.inventory@;
    let damage = spec_power(&m, inv) - spec_defence(&p, inv);
    &&& post.objects@.len() == objs.len()
    &&& forall|k: int| 0 <= k < objs.len() && k != 0 && k != id ==> post.objects@[k] == objs[k]
    &&& if damage > 0 {
        &&& spec_after_damage(&p, &post.objects@[0], damage)
        &&& (if spec_dies(&p, damage) {
            &&& post.objects@[id] == (Object {
                fighter: Some(
                    Fighter {
                        xp: (m.fighter->Some_0.xp + p.fighter->Some_0.xp) as i32,
                        ..m.fighter->Some_0
                    },
                ),
                ..m
            })
            &&& appended(pre.events@, post.events@, 2)
            &&& (post.events@[pre.events@.len() as int] matches Event::Attacked {
                attacker,
                target,
                damage: d,
            } && attacker@ == m.name@ && target@ == p.name@ && d == damage)
            &&& (post.events@.last() matches Event::Died { name } && name@ == p.name@)
        } else {
            &&& post.objects@[id] == m
            &&& appended(pre.events@, post.events@, 1)
            &&& (post.events@.last() matches Event::Attacked { attacker, target, damage: d }
                && attacker@ == m.name@ && target@ == p.name@ && d == damage)
        })
    } else {
        &&& post.objects@ == objs
        &&& appended(pre.events@, post.events@, 1)
        &&& (post.events@.last() matches Event::NoEffect { attacker, target } && attacker@
            == m.name@ && target@ == p.name@)
    }
}

/// The full behavior contract of one monster evaluation.
pub open spec fn take_turn_post(pre: &Game, post: &Game, id: int) -> bool {
    let objs = pre.objects@;
    let m = objs[id];
    let p = objs[0];
    let d2 = spec_dist_sq(&m, &p);
    match m.ai {
        None => unchanged_game(pre, post),
        Some(AI::Basic) => {
            if d2 > DETECT_RADIUS_SQ {
                unchanged_game(pre, post)
            } else if d2 >= MELEE_RADIUS_SQ {
                &&& post.events@ == pre.events@
                &&& post.objects@ == moved_seq(
                    &pre.map,
                    objs,
                    id,
                    step_toward(p.x - m.x, p.y - m.y),
                    step_toward(p.y - m.y, p.x - m.x),
                )
            } else if p.fighter matches Some(pf) && pf.hp > 0 {
                attack_post(pre, post, id)
            } else {
                unchanged_game(pre, post)
            }
        },
        Some(AI::Confused { prev_ai, turns }) => {
            if turns >= 1 {
                &&& post.events@ == pre.events@
                &&& exists|dx: int, dy: int|
                    -1 <= dx <= 1 && -1 <= dy <= 1 && post.objects@ == #[trigger] moved_seq(
                        &pre.map,
                        objs.update(
                            id,
                            (Object {
                                ai: Some(
                                    AI::Confused { prev_ai, turns: (turns - 1) as i32 },
                                ),
                                ..m
                            }),
                        ),
                        id,
                        dx,
                        dy,
                    )
            } else {
                &&& post.objects@ == objs.update(id, (Object { ai: Some(*prev_ai), ..m }))
                &&& appended(pre.events@, post.events@, 1)
                &&& (post.events@.last() matches Event::NoLongerConfused { name } && name@
                    == m.name@)
            }
        },
    }
}

/// Evaluate the behavior of the monster at `monster_id` for one turn:
/// a basic monster within detection range steps toward the player or,
/// in melee range, attacks a still-living player; a confused monster
/// staggers one random cell per remaining turn and then reverts to its
/// wrapped behavior. The transition of the behavior value itself is
/// `ai_step`.
pub fn take_turn(monster_id: usize, game: &mut Game)
    requires
        game_wf(old(game)),
        0 < monster_id < old(game).objects@.len(),
    ensures
        game_wf(final(game)),
        same_frame(old(game), final(game)),
        final(game).objects@.len() == old(game).objects@.len(),
        take_turn_post(old(game), final(game), monster_id as int),
        (final(game).objects@[monster_id as int].ai == match old(
            game,
        ).objects@[monster_id as int].ai {
            None => None::<AI>,
            Some(a) => Some(ai_step(a)),
        }),
{
    let ghost objs0 = old(game).objects@;
    let ghost m0 = objs0[monster_id as int];
    let (mx, my) = {
        let m = &game.objects[monster_id];
        (m.x, m.y)
    };
    let (kind, turns0) = {
        match &game.objects[monster_id].ai {
            None => (0i32, 0i32),
            Some(AI::Basic) => (1i32, 0i32),
            Some(AI::Confused { prev_ai: _, turns }) => (2i32, *turns),
        }
    };
    if kind == 1 {
        // Basic: home in on the player or attack in melee range.
        let (px, py) = {
            let p = &game.objects[PLAYER];
            (p.x, p.y)
        };
        let dx = mx - px;
        let dy = my - py;
        proof {
            assert(dx * dx <= 100 * 100 && dy * dy <= 100 * 100 && dx * dx >= 0 && dy * dy >= 0)
                by (nonlinear_arith)
                requires
                    -100 <= dx <= 100,
                    -100 <= dy <= 100,
            ;
        }
        let d2 = dx * dx + dy * dy;
        if d2 <= DETECT_RADIUS_SQ {
            if d2 >= MELEE_RADIUS_SQ {
                proof {
                    lemma_total_xp_update_all(objs0, monster_id as int);
                }
                move_towards(monster_id, px, py, &game.map, &mut game.objects);
            } else {
                let player_can_die = match game.objects[PLAYER].fighter {
                    Some(f) => f.hp > 0,
                    None => false,
                };
                if player_can_die {
                    proof {
                        lemma_xp_pair_le_total(objs0, monster_id as int, 0);
                        lemma_total_xp_nonneg(objs0);
                        lemma_total_xp_update2_all(objs0, 0, monster_id as int);
                    }
                    proof {
                        lemma_effective_stats_bounded(&m0, old(game).inventory@);
                        lemma_effective_stats_bounded(&objs0[0], old(game).inventory@);
                    }
                    let objs_slice = game.objects.as_mut_slice();
                    let (monster, player) = mut_two(monster_id, PLAYER, objs_slice);
                    monster.attack(player, &mut game.events, &game.inventory);
                    proof {
                        assert(final(game).objects@ == objs0.update(
                            monster_id as int,
                            *final(monster),
                        ).update(0, *final(player)));
                        assert(objs0.update(monster_id as int, *final(monster)).update(
                            0,
                            *final(player),
                        ) =~= objs0.update(0, *final(player)).update(
                            monster_id as int,
                            *final(monster),
                        ));
                        assert(objs0.update(monster_id as int, m0).update(0, objs0[0])
                            =~= objs0);
                    }
                }
            }
        }
    } else if kind == 2 {
        // Confused: stagger one random cell while turns remain, then
        // revert to the wrapped behavior.
        if turns0 >= 1 {
            {
                let m_ref = &mut game.objects[monster_id];
                match &mut m_ref.ai {
                    Some(AI::Confused { prev_ai: _, turns: t }) => {
                        *t = *t - 1;
                    },
                    _ => {},
                }
            }
            let ghost objs1 = objs0.update(
                monster_id as int,
                (Object {
                    ai: Some(
                        AI::Confused {
                            prev_ai: m0.ai->Some_0->Confused_prev_ai,
                            turns: (m0.ai->Some_0->Confused_turns - 1) as i32,
                        },
                    ),
                    ..m0
                }),
            );
            let ddx = rand_range(-1, 2);
            let ddy = rand_range(-1, 2);
            proof {
                lemma_total_xp_update_all(objs0, monster_id as int);
                lemma_total_xp_update_all(objs1, monster_id as int);
            }
            move_by(monster_id, ddx, ddy, &game.map, &mut game.objects);
            proof {
                assert(final(game).objects@ == moved_seq(
                    &old(game).map,
                    objs1,
                    monster_id as int,
                    ddx as int,
                    ddy as int,
                ));
            }
        } else {
            {
                let m_ref = &mut game.objects[monster_id];
                let t = m_ref.ai.take();
                match t {
                    Some(AI::Confused { prev_ai, turns: _ }) => {
                        m_ref.ai = Some(*prev_ai);
                    },
                    other => {
                        m_ref.ai = other;
                    },
                }
            }
            proof {
                lemma_total_xp_update_all(objs0, monster_id as int);
            }
            let name = game.objects[monster_id].name.clone();
            game.events.push(Event::NoLongerConfused { name });
        }
    }
    proof {
        // Discharge the behavioral contract case by case.
        let d2 = spec_dist_sq(&m0, &objs0[0]);
        if m0.ai is None {
            assert(unchanged_game(old(game), final(game)));
            assert(game_wf(final(game)));
        } else if m0.ai == Some(AI::Basic) {
            if d2 > DETECT_RADIUS_SQ {
                assert(unchanged_game(old(game), final(game)));
                assert(game_wf(final(game)));
            } else if d2 >= MELEE_RADIUS_SQ {
                assert(final(game).events@ == old(game).events@);
                assert(final(game).objects@ == moved_seq(
                    &old(game).map,
                    objs0,
                    monster_id as int,
                    step_toward(objs0[0].x - m0.x, objs0[0].y - m0.y),
                    step_toward(objs0[0].y - m0.y, objs0[0].x - m0.x),
                ));
                assert(game_wf(final(game)));
            } else if objs0[0].fighter matches Some(pf) && pf.hp > 0 {
                assert(attack_post(old(game), final(game), monster_id as int));
                assert(game_wf(final(game)));
            } else {
                assert(unchanged_game(old(game), final(game)));
                assert(game_wf(final(game)));
            }
        } else {
            let turns = m0.ai->Some_0->Confused_turns;
            if turns >= 1 {
                assert(final(game).events@ == old(game).events@);
                assert(game_wf(final(game)));
            } else {
                assert(final(game).objects@ == objs0.update(
                    monster_id as int,
                    (Object { ai: Some(*m0.ai->Some_0->Confused_prev_ai), ..m0 }),
                ));
                assert(game_wf(final(game)));
            }
        }
    }
}

} // verus!

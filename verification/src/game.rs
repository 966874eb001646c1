//! The game session: one level's grid, the entity arena, the player's
//! inventory, the event queue, and the per-turn operations over them.
use vstd::prelude::*;

use crate::ai::{moved_seq, same_frame, take_turn, take_turn_post};
use crate::events::{appended, Event};
use crate::item::{Equipment, Item, Slot};
use crate::object::{
    inv_wf, is_equipped_in_slot, is_player, lemma_effective_stats_bounded,
    lemma_remains_not_player, obj_wf, spec_after_damage, spec_defence, spec_dies, spec_max_hp,
    spec_power, Fighter, Object, COLOR_BLUE, COLOR_WHITE, HP_MAX, LEVEL_MAX, STAT_MAX,
};
use crate::tile::{make_map, map_dims_ok, populated_ok, tile_at, Grid, MAP_HEIGHT, MAP_WIDTH};

verus! {

/// Index of the player in the entity arena.
pub const PLAYER: usize = 0;

/// Hit points a new player starts with.
pub const PLAYER_DEF_HP: i32 = 40;

/// Base experience needed for the first level-up.
pub const LEVEL_UP_BASE: i32 = 200;

/// Additional experience needed per already-gained level.
pub const LEVEL_UP_FACTOR: i32 = 150;

/// One running game session. The arena `objects` holds the player at
/// index `PLAYER` followed by every monster and floor item of the level.
pub struct Game {
    pub map: Grid,
    pub objects: Vec<Object>,
    pub inventory: Vec<Object>,
    pub events: Vec<Event>,
    pub dungeon_level: u32,
    pub stat_choice_pending: bool,
}

/// The experience a fighter carries; zero for non-fighters.
pub open spec fn xp_of(o: &Object) -> int {
    match o.fighter {
        Some(f) => f.xp as int,
        None => 0,
    }
}

/// Total experience stored across the arena. Combat only moves
/// experience from the victim to the killer, so this sum never grows
/// during a turn; bounding it bounds every addition the resolver makes.
pub open spec fn total_xp(objects: Seq<Object>) -> int
    decreases objects.len(),
{
    if objects.len() == 0 {
        0
    } else {
        total_xp(objects.drop_last()) + xp_of(&objects.last())
    }
}

/// Well-formedness of a session: grid dimensions, entity bounds, the
/// player at index zero and nowhere else, autonomous actors alive and
/// able to fight, and the arena's total experience within `i32`.
pub open spec fn game_wf(g: &Game) -> bool {
    &&& map_dims_ok(&g.map)
    &&& g.objects@.len() >= 1
    &&& forall|i: int| 0 <= i < g.objects@.len() ==> obj_wf(#[trigger] &g.objects@[i])
    &&& (g.objects@[0].alive ==> is_player(&g.objects@[0]))
    &&& forall|i: int| 1 <= i < g.objects@.len() ==> !is_player(#[trigger] &g.objects@[i])
    &&& forall|i: int|
        0 <= i < g.objects@.len() && (#[trigger] g.objects@[i]).ai is Some ==> g.objects@[i].alive
            && g.objects@[i].fighter is Some
    &&& g.objects@[0].fighter is Some
    &&& forall|i: int|
        0 <= i < g.objects@.len() ==> ((#[trigger] g.objects@[i]).equipment matches Some(e)
            ==> !e.equipped && g.objects@[i].item is Some)
    &&& inv_wf(g.inventory@)
    &&& total_xp(g.objects@) <= i32::MAX
}

/// Total experience is never negative when every entry is well formed.
pub proof fn lemma_total_xp_nonneg(objects: Seq<Object>)
    requires
        forall|i: int| 0 <= i < objects.len() ==> obj_wf(#[trigger] &objects[i]),
    ensures
        total_xp(objects) >= 0,
    decreases objects.len(),
{
    if objects.len() > 0 {
        assert(forall|i: int|
            0 <= i < objects.drop_last().len() ==> obj_wf(#[trigger] &objects.drop_last()[i]));
        lemma_total_xp_nonneg(objects.drop_last());
        assert(obj_wf(&objects.last()));
    }
}

/// Each single entry's experience is bounded by the arena total.
pub proof fn lemma_xp_le_total(objects: Seq<Object>, i: int)
    requires
        forall|k: int| 0 <= k < objects.len() ==> obj_wf(#[trigger] &objects[k]),
        0 <= i < objects.len(),
    ensures
        xp_of(&objects[i]) <= total_xp(objects),
    decreases objects.len(),
{
    lemma_total_xp_nonneg(objects.drop_last());
    if i == objects.len() - 1 {
        assert(objects.last() == objects[i]);
    } else {
        assert(forall|k: int|
            0 <= k < objects.drop_last().len() ==> obj_wf(#[trigger] &objects.drop_last()[k]));
        lemma_xp_le_total(objects.drop_last(), i);
        assert(objects.drop_last()[i] == objects[i]);
        assert(obj_wf(&objects.last()));
    }
}

/// Any two distinct entries' experience sums within the arena total.
pub proof fn lemma_xp_pair_le_total(objects: Seq<Object>, i: int, j: int)
    requires
        forall|k: int| 0 <= k < objects.len() ==> obj_wf(#[trigger] &objects[k]),
        0 <= i < objects.len(),
        0 <= j < objects.len(),
        i != j,
    ensures
        xp_of(&objects[i]) + xp_of(&objects[j]) <= total_xp(objects),
    decreases objects.len(),
{
    let n = objects.len() as int;
    assert(forall|k: int|
        0 <= k < objects.drop_last().len() ==> obj_wf(#[trigger] &objects.drop_last()[k]));
    if i == n - 1 {
        lemma_xp_le_total(objects.drop_last(), j);
        assert(objects.drop_last()[j] == objects[j]);
        assert(objects.last() == objects[i]);
    } else if j == n - 1 {
        lemma_xp_le_total(objects.drop_last(), i);
        assert(objects.drop_last()[i] == objects[i]);
        assert(objects.last() == objects[j]);
    } else {
        lemma_xp_pair_le_total(objects.drop_last(), i, j);
        assert(objects.drop_last()[i] == objects[i]);
        assert(objects.drop_last()[j] == objects[j]);
        assert(obj_wf(&objects.last()));
    }
}

/// Updating one entry changes the total by the entry's difference.
pub proof fn lemma_total_xp_update(objects: Seq<Object>, i: int, o: Object)
    requires
        0 <= i < objects.len(),
    ensures
        total_xp(objects.update(i, o)) == total_xp(objects) - xp_of(&objects[i]) + xp_of(&o),
    decreases objects.len(),
{
    let n = objects.len() as int;
    if i == n - 1 {
        assert(objects.update(i, o).drop_last() =~= objects.drop_last());
        assert(objects.update(i, o).last() == o);
    } else {
        assert(objects.update(i, o).drop_last() =~= objects.drop_last().update(i, o));
        assert(objects.update(i, o).last() == objects.last());
        lemma_total_xp_update(objects.drop_last(), i, o);
        assert(objects.drop_last()[i] == objects[i]);
    }
}

/// Quantified form of the single-update law, usable where the updated
/// entry's value is only known at the end of a mutation chain.
pub proof fn lemma_total_xp_update_all(objects: Seq<Object>, i: int)
    requires
        0 <= i < objects.len(),
    ensures
        forall|o: Object| #[trigger]
            total_xp(objects.update(i, o)) == total_xp(objects) - xp_of(&objects[i]) + xp_of(&o),
{
    assert forall|o: Object| #[trigger]
        total_xp(objects.update(i, o)) == total_xp(objects) - xp_of(&objects[i]) + xp_of(
        &o,
    ) by {
        lemma_total_xp_update(objects, i, o);
    }
}

/// Quantified form of the double-update law.
pub proof fn lemma_total_xp_update2_all(objects: Seq<Object>, i: int, j: int)
    requires
        0 <= i < objects.len(),
        0 <= j < objects.len(),
        i != j,
    ensures
        forall|a: Object, b: Object| #[trigger]
            total_xp(objects.update(i, a).update(j, b)) == total_xp(objects) - xp_of(&objects[i])
                + xp_of(&a) - xp_of(&objects[j]) + xp_of(&b),
{
    assert forall|a: Object, b: Object| #[trigger]
        total_xp(objects.update(i, a).update(j, b)) == total_xp(objects) - xp_of(&objects[i])
            + xp_of(&a) - xp_of(&objects[j]) + xp_of(&b) by {
        lemma_total_xp_update(objects, i, a);
        lemma_total_xp_update(objects.update(i, a), j, b);
        assert(objects.update(i, a)[j] == objects[j]);
    }
}

/// Every entry's experience is non-negative.
pub open spec fn all_xp_nonneg(s: Seq<Object>) -> bool {
    forall|k: int| 0 <= k < s.len() ==> xp_of(#[trigger] &s[k]) >= 0
}

/// The pair law over arbitrary arenas, packaged so loops can carry it
/// as an invariant.
pub open spec fn xp_sum_laws() -> bool {
    &&& forall|s: Seq<Object>, a: int|
        0 <= a < s.len() && all_xp_nonneg(s) ==> #[trigger] xp_of(&s[a]) <= total_xp(s)
    &&& forall|s: Seq<Object>, i: int, o: Object|
        0 <= i < s.len() ==> #[trigger] total_xp(s.update(i, o)) == total_xp(s) - xp_of(&s[i])
            + xp_of(&o)
}

/// Single-entry bound with only non-negativity assumed.
proof fn lemma_xp_le_total_nonneg(objects: Seq<Object>, i: int)
    requires
        all_xp_nonneg(objects),
        0 <= i < objects.len(),
    ensures
        xp_of(&objects[i]) <= total_xp(objects),
    decreases objects.len(),
{
    assert forall|k: int| 0 <= k < objects.drop_last().len() implies xp_of(
        #[trigger] &objects.drop_last()[k],
    ) >= 0 by {
        assert(objects.drop_last()[k] == objects[k]);
    }
    lemma_total_xp_nonneg_weak(objects.drop_last());
    if i == objects.len() - 1 {
        assert(objects.last() == objects[i]);
    } else {
        lemma_xp_le_total_nonneg(objects.drop_last(), i);
        assert(objects.drop_last()[i] == objects[i]);
        assert(xp_of(&objects.last()) >= 0);
    }
}

/// Non-negative totals from non-negative entries.
proof fn lemma_total_xp_nonneg_weak(objects: Seq<Object>)
    requires
        all_xp_nonneg(objects),
    ensures
        total_xp(objects) >= 0,
    decreases objects.len(),
{
    if objects.len() > 0 {
        assert forall|k: int| 0 <= k < objects.drop_last().len() implies xp_of(
            #[trigger] &objects.drop_last()[k],
        ) >= 0 by {
            assert(objects.drop_last()[k] == objects[k]);
        }
        lemma_total_xp_nonneg_weak(objects.drop_last());
        assert(xp_of(&objects.last()) >= 0);
    }
}

/// Establish the packaged laws.
pub proof fn lemma_xp_sum_laws()
    ensures
        xp_sum_laws(),
{
    assert forall|s: Seq<Object>, a: int|
        0 <= a < s.len() && all_xp_nonneg(s) implies #[trigger] xp_of(&s[a]) <= total_xp(s) by {
        lemma_xp_le_total_nonneg(s, a);
    }
    assert forall|s: Seq<Object>, i: int, o: Object|
        0 <= i < s.len() implies #[trigger] total_xp(s.update(i, o)) == total_xp(s) - xp_of(
        &s[i],
    ) + xp_of(&o) by {
        lemma_total_xp_update(s, i, o);
    }
}

/// What a player intent evaluation reports back to the caller.
#[derive(Clone, Copy, Debug, PartialEq, Eq, Structural)]
pub enum PlayerAction {
    TookTurn,
    DidntTakeTurn,
    Exit,
}

/// Appending entries each worth at most 100 experience raises the total
/// by at most 100 per entry.
pub proof fn lemma_total_xp_append_bound(pre: Seq<Object>, post: Seq<Object>)
    requires
        pre.len() <= post.len(),
        forall|i: int| 0 <= i < pre.len() ==> xp_of(#[trigger] &post[i]) == xp_of(&pre[i]),
        forall|i: int| pre.len() <= i < post.len() ==> 0 <= xp_of(#[trigger] &post[i]) <= 100,
    ensures
        total_xp(pre) <= total_xp(post) <= total_xp(pre) + 100 * (post.len() - pre.len()),
    decreases post.len() - pre.len(),
{
    if post.len() == pre.len() {
        lemma_total_xp_pointwise(pre, post);
    } else {
        lemma_total_xp_append_bound(pre, post.drop_last());
        assert(0 <= xp_of(&post.last()) <= 100);
    }
}

/// Two arenas of equal length with entrywise equal experience carry the
/// same total.
pub proof fn lemma_total_xp_pointwise(pre: Seq<Object>, post: Seq<Object>)
    requires
        pre.len() == post.len(),
        forall|i: int| 0 <= i < pre.len() ==> xp_of(#[trigger] &post[i]) == xp_of(&pre[i]),
    ensures
        total_xp(post) == total_xp(pre),
    decreases pre.len(),
{
    if pre.len() > 0 {
        assert forall|i: int| 0 <= i < pre.drop_last().len() implies xp_of(
            #[trigger] &post.drop_last()[i],
        ) == xp_of(&pre.drop_last()[i]) by {
            assert(post.drop_last()[i] == post[i]);
            assert(pre.drop_last()[i] == pre[i]);
        }
        lemma_total_xp_pointwise(pre.drop_last(), post.drop_last());
        assert(post.last() == post[post.len() - 1]);
        assert(pre.last() == pre[pre.len() - 1]);
    }
}

/// The names of the non-player objects among the first `i` arena
/// entries standing on cell `(px, py)`, in arena order.
pub open spec fn spec_names_under(objs: Seq<Object>, px: int, py: int, i: int) -> Seq<Seq<char>>
    decreases i,
{
    if i <= 1 {
        Seq::empty()
    } else {
        spec_names_under(objs, px, py, i - 1) + (if objs[i - 1].x == px && objs[i - 1].y == py {
            seq![objs[i - 1].name@]
        } else {
            Seq::<Seq<char>>::empty()
        })
    }
}

/// One evaluation in the monsters' round: when the entry at `id` has a
/// behavior, the step from `cur` to `next` is exactly `take_turn`'s
/// contract; otherwise nothing changes.
#[verifier::opaque]
pub open spec fn monsters_step(cur: Game, next: Game, id: int) -> bool {
    if cur.objects@[id].ai is Some {
        &&& take_turn_post(&cur, &next, id)
        &&& same_frame(&cur, &next)
        &&& game_wf(&next)
        &&& next.objects@.len() == cur.objects@.len()
    } else {
        &&& next.objects@ == cur.objects@
        &&& next.events@ == cur.events@
        &&& same_frame(&cur, &next)
    }
}

/// Evaluate every monster from index `id` upward, in ascending order.
/// Returns the ghost trace of sessions the round passed through, one
/// boundary per evaluated index, so callers can follow each step.
#[verifier::rlimit(50)]
fn monsters_turn_from(game: &mut Game, id: usize) -> (trace: Ghost<Seq<Game>>)
    requires
        game_wf(old(game)),
        1 <= id,
    ensures
        game_wf(final(game)),
        final(game).objects@.len() == old(game).objects@.len(),
        same_frame(old(game), final(game)),
        final(game).events@.len() >= old(game).events@.len(),
        forall|k: int|
            0 <= k < old(game).events@.len() ==> final(game).events@[k] == old(game).events@[k],
        trace@.len() == (if (id as int) < old(game).objects@.len() {
            old(game).objects@.len() - id + 1
        } else {
            1int
        }),
        trace@[0] == *old(game),
        trace@.last() == *final(game),
        forall|k: int|
            0 <= k < trace@.len() - 1 ==> monsters_step(
                #[trigger] trace@[k],
                trace@[k + 1],
                id + k,
            ),
    decreases game.objects@.len() - id,
{
    let ghost entry: Game = *old(game);
    let n = game.objects.len();
    if id < n {
        let acts = game.objects[id].ai.is_some();
        if acts {
            take_turn(id, game);
        }
        let rest = monsters_turn_from(game, id + 1);
        let ghost trace = seq![entry] + rest@;
        proof {
            assert(monsters_step(entry, rest@[0], id as int)) by {
                reveal(monsters_step);
            }
            assert(trace[0] == entry);
            assert(trace.last() == rest@.last());
            assert forall|k: int|
                0 <= k < trace.len() - 1 implies monsters_step(
                #[trigger] trace[k],
                trace[k + 1],
                id + k,
            ) by {
                if k == 0 {
                    assert(trace[0] == entry && trace[1] == rest@[0]);
                } else {
                    assert(trace[k] == rest@[k - 1] && trace[k + 1] == rest@[k]);
                    assert(monsters_step(rest@[k - 1], rest@[k], (id + 1) + (k - 1)));
                }
            }
        }
        Ghost(trace)
    } else {
        let ghost single: Seq<Game> = seq![entry];
        Ghost(single)
    }
}

impl Game {
    /// Start a fresh session: a new player wielding an equipped dagger,
    /// a freshly generated and populated first level, and an empty
    /// event queue.
    pub fn new_game() -> (g: Game)
        ensures
            game_wf(&g),
            g.objects@.len() >= 1,
            g.objects@[0].alive,
            is_player(&g.objects@[0]),
            g.objects@[0].fighter == Some(
                Fighter { hp: PLAYER_DEF_HP, xp: 0, base_power: 4, base_defence: 1, base_max_hp: PLAYER_DEF_HP },
            ),
            g.objects@[0].level == 1,
            g.objects@[0].level_up_xp == LEVEL_UP_BASE + LEVEL_UP_FACTOR,
            g.inventory@.len() == 1,
            g.inventory@[0].name@ == "dagger"@,
            g.inventory@[0].item == Some(Item::Sword),
            (g.inventory@[0].equipment matches Some(e) && e.equipped && e.slot == Slot::LeftHand
                && e.power_bonus == 2 && e.defense_bonus == 0 && e.max_hp_bonus == 0),
            g.events@.len() == 0,
            g.dungeon_level == 1,
            !g.stat_choice_pending,
            forall|i: int| 1 <= i < g.objects@.len() ==> populated_ok(#[trigger] &g.objects@[i]),
    {
        proof {
            reveal_strlit("player");
            reveal_strlit("dagger");
        }
        let mut player = Object::new(
            MAP_WIDTH / 2,
            MAP_HEIGHT / 2,
            '@',
            COLOR_WHITE,
            true,
            "player",
            true,
        );
        player.alive = true;
        player.fighter = Some(
            Fighter {
                hp: PLAYER_DEF_HP,
                xp: 0,
                base_power: 4,
                base_defence: 1,
                base_max_hp: PLAYER_DEF_HP,
            },
        );
        player.level_up_xp = LEVEL_UP_BASE + LEVEL_UP_FACTOR;

        let mut dagger = Object::new(0, 0, '-', COLOR_BLUE, false, "dagger", false);
        dagger.item = Some(Item::Sword);
        dagger.equipment = Some(
            Equipment {
                slot: Slot::LeftHand,
                equipped: true,
                power_bonus: 2,
                max_hp_bonus: 0,
                defense_bonus: 0,
            },
        );
        let mut inventory: Vec<Object> = Vec::new();
        inventory.push(dagger);

        let mut objects: Vec<Object> = Vec::new();
        objects.push(player);
        let ghost base = objects@;
        proof {
            assert(total_xp(base) == 0) by {
                reveal_with_fuel(total_xp, 2);
                assert(base.drop_last() =~= Seq::<Object>::empty());
            }
        }
        let map = make_map(&mut objects, 1);
        proof {
            lemma_total_xp_append_bound(base, objects@);
        }
        let g = Game {
            map,
            objects,
            inventory,
            events: Vec::new(),
            dungeon_level: 1,
            stat_choice_pending: false,
        };
        proof {
            assert(map_dims_ok(&g.map));
            assert(g.objects@.len() >= 1);
            assert(forall|i: int| 0 <= i < g.objects@.len() ==> obj_wf(#[trigger] &g.objects@[i]));
            assert(g.objects@[0].alive ==> is_player(&g.objects@[0]));
            assert(forall|i: int| 1 <= i < g.objects@.len() ==> !is_player(#[trigger] &g.objects@[i]));
            assert(forall|i: int|
                0 <= i < g.objects@.len() && (#[trigger] g.objects@[i]).ai is Some
                    ==> g.objects@[i].alive && g.objects@[i].fighter is Some);
            assert(g.objects@[0].fighter is Some);
            assert(forall|i: int|
                0 <= i < g.objects@.len() ==> ((#[trigger] g.objects@[i]).equipment matches Some(e)
                    ==> !e.equipped && g.objects@[i].item is Some));
            assert(inv_wf(g.inventory@));
            assert(total_xp(g.objects@) <= i32::MAX);
        }
        g
    }

    /// Give every monster its turn, in ascending arena order: the whole
    /// round is a chain of `take_turn` evaluations through intermediate
    /// sessions, returned as a ghost trace whose consecutive entries are
    /// related by `monsters_step`. Run once per player action that
    /// consumed game time.
    pub fn monsters_turn(&mut self) -> (trace: Ghost<Seq<Game>>)
        requires
            game_wf(old(self)),
        ensures
            game_wf(final(self)),
            final(self).objects@.len() == old(self).objects@.len(),
            final(self).map == old(self).map,
            final(self).inventory == old(self).inventory,
            final(self).dungeon_level == old(self).dungeon_level,
            final(self).stat_choice_pending == old(self).stat_choice_pending,
            final(self).events@.len() >= old(self).events@.len(),
            forall|k: int|
                0 <= k < old(self).events@.len() ==> final(self).events@[k] == old(
                    self,
                ).events@[k],
            trace@.len() == (if old(self).objects@.len() > 1 {
                old(self).objects@.len() as int
            } else {
                1int
            }),
            trace@[0] == *old(self),
            trace@.last() == *final(self),
            forall|k: int|
                0 <= k < trace@.len() - 1 ==> monsters_step(
                    #[trigger] trace@[k],
                    trace@[k + 1],
                    1 + k,
                ),
    {
        monsters_turn_from(self, 1)
    }

    /// The names of every object sharing the player's cell, except the
    /// player itself, for the presentation layer's "what is here" line.
    pub fn get_names_under_player(&self) -> (names: Vec<String>)
        requires
            self.objects@.len() >= 1,
        ensures
            names@.map_values(|s: String| s@) == spec_names_under(
                self.objects@,
                self.objects@[0].x as int,
                self.objects@[0].y as int,
                self.objects@.len() as int,
            ),
    {
        let (px, py) = {
            let p = &self.objects[PLAYER];
            (p.x, p.y)
        };
        let mut names: Vec<String> = Vec::new();
        let n = self.objects.len();
        let mut i: usize = 1;
        while i < n
            invariant
                n == self.objects@.len(),
                n >= 1,
                1 <= i <= n,
                px == self.objects@[0].x && py == self.objects@[0].y,
                names@.map_values(|s: String| s@) == spec_names_under(
                    self.objects@,
                    px as int,
                    py as int,
                    i as int,
                ),
            decreases n - i,
        {
            let matches_cell = {
                let o = &self.objects[i];
                o.x == px && o.y == py
            };
            if matches_cell {
                let ghost prev = names@;
                names.push(self.objects[i].name.clone());
                proof {
                    assert(names@.map_values(|s: String| s@) =~= prev.map_values(|s: String| s@)
                        .push(self.objects@[i as int].name@));
                }
            }
            i = i + 1;
        }
        names
    }

    /// Move the picked item from the arena into the inventory, unless
    /// the inventory is already full; a picked piece of equipment is
    /// worn at once when its slot is free.
    pub fn pick_item_up(&mut self, object_id: usize)
        requires
            game_wf(old(self)),
            0 < object_id < old(self).objects@.len(),
            old(self).objects@[object_id as int].item is Some,
        ensures
            game_wf(final(self)),
            final(self).map == old(self).map,
            final(self).dungeon_level == old(self).dungeon_level,
            final(self).stat_choice_pending == old(self).stat_choice_pending,
            ({
                let objs = old(self).objects@;
                let it = objs[object_id as int];
                if old(self).inventory@.len() >= 26 {
                    &&& final(self).objects@ == objs
                    &&& final(self).inventory@ == old(self).inventory@
                    &&& appended(old(self).events@, final(self).events@, 1)
                    &&& (final(self).events@.last() matches Event::InventoryFull { name } && name@
                        == it.name@)
                } else {
                    &&& final(self).objects@ == objs.update(
                        object_id as int,
                        objs.last(),
                    ).drop_last()
                    &&& final(self).inventory@.len() == old(self).inventory@.len() + 1
                    &&& forall|k: int|
                        0 <= k < old(self).inventory@.len() ==> final(self).inventory@[k] == old(
                            self,
                        ).inventory@[k]
                    &&& ({
                        let stored = final(self).inventory@.last();
                        &&& stored.name@ == it.name@
                        &&& stored.item == it.item
                        &&& (match it.equipment {
                            None => stored == it,
                            Some(e) => if (forall|j: int|
                                0 <= j < old(self).inventory@.len() ==> !is_equipped_in_slot(
                                    #[trigger] &old(self).inventory@[j],
                                    e.slot,
                                )) {
                                stored == (Object {
                                    equipment: Some(Equipment { equipped: true, ..e }),
                                    ..it
                                })
                            } else {
                                stored == it
                            },
                        })
                    })
                    &&& final(self).events@.len() > old(self).events@.len()
                    &&& forall|k: int|
                        0 <= k < old(self).events@.len() ==> final(self).events@[k] == old(
                            self,
                        ).events@[k]
                    &&& (final(self).events@[old(self).events@.len() as int] matches
                        Event::PickedUp { name } && name@ == it.name@)
                }
            }),
    {
        let ghost objs0 = old(self).objects@;
        let ghost inv0 = old(self).inventory@;
        if self.inventory.len() >= 26 {
            let name = self.objects[object_id].name.clone();
            self.events.push(Event::InventoryFull { name });
        } else {
            proof {
                lemma_xp_sum_laws();
            }
            let item = self.objects.swap_remove(object_id);
            let name = item.name.clone();
            self.events.push(Event::PickedUp { name });
            let index = self.inventory.len();
            let slot = match item.equipment {
                Some(e) => Some(e.slot),
                None => None,
            };
            self.inventory.push(item);
            match slot {
                Some(sl) => {
                    let free = crate::object::get_equipped_in_slot(sl, &self.inventory);
                    match free {
                        Some(c) => {
                            proof {
                                assert(is_equipped_in_slot(&inv0.push(objs0[object_id as int])[c as int], sl));
                                assert(c < inv0.len());
                                assert(final(self).inventory@ == inv0.push(objs0[object_id as int]));
                            }
                        },
                        None => {
                            let it_ref = &mut self.inventory[index];
                            it_ref.equip(&mut self.events);
                            proof {
                                assert(final(self).inventory@ == inv0.push(objs0[object_id as int]).update(
                                    index as int,
                                    (Object {
                                        equipment: Some(
                                            Equipment {
                                                equipped: true,
                                                ..objs0[object_id as int].equipment->Some_0
                                            },
                                        ),
                                        ..objs0[object_id as int]
                                    }),
                                ));
                            }
                        },
                    }
                },
                None => {
                    proof {
                        assert(final(self).inventory@ == inv0.push(objs0[object_id as int]));
                    }
                },
            }
            proof {
                let post = final(self).objects@;
                assert(post == objs0.update(object_id as int, objs0.last()).drop_last());
                assert(total_xp(objs0.update(object_id as int, objs0.last()))
                    == total_xp(objs0) - xp_of(&objs0[object_id as int]) + xp_of(&objs0.last()));
                assert(total_xp(objs0.update(object_id as int, objs0.last())) == total_xp(post)
                    + xp_of(&objs0.last())) by {
                    assert(objs0.update(object_id as int, objs0.last()).drop_last() =~= post);
                    assert(objs0.update(object_id as int, objs0.last()).last()
                        == objs0.last());
                }
                lemma_total_xp_nonneg(objs0);
                assert forall|k: int| 0 <= k < post.len() implies obj_wf(#[trigger] &post[k]) by {
                    if k != object_id {
                        assert(post[k] == objs0[k]);
                    }
                }
                let it = objs0[object_id as int];
                assert(final(self).inventory@.len() == inv0.len() + 1);
                assert(forall|k: int| 0 <= k < inv0.len() ==> final(self).inventory@[k] == inv0[k]);
                assert(final(self).inventory@.last().name@ == it.name@);
                assert(final(self).inventory@.last().item == it.item);
                assert(match it.equipment {
                    None => final(self).inventory@.last() == it,
                    Some(e) => if (forall|j: int|
                        0 <= j < inv0.len() ==> !is_equipped_in_slot(#[trigger] &inv0[j], e.slot)) {
                        final(self).inventory@.last() == (Object {
                            equipment: Some(Equipment { equipped: true, ..e }),
                            ..it
                        })
                    } else {
                        final(self).inventory@.last() == it
                    },
                });
                assert(final(self).events@.len() > old(self).events@.len());
                assert(forall|k: int|
                    0 <= k < old(self).events@.len() ==> final(self).events@[k] == old(
                        self,
                    ).events@[k]);
                assert(final(self).events@[old(self).events@.len() as int] matches
                    Event::PickedUp { name } && name@ == it.name@);
            }
        }
    }
}

/// Whether `id` is the first living object standing on cell `(x, y)`.
pub open spec fn first_alive_at(objs: Seq<Object>, x: int, y: int, id: int) -> bool {
    &&& 0 <= id < objs.len()
    &&& objs[id].x == x
    &&& objs[id].y == y
    &&& objs[id].alive
    &&& forall|j: int|
        0 <= j < id ==> !((#[trigger] objs[j]).x == x && objs[j].y == y && objs[j].alive)
}

/// The outcome of the object at `att` attacking the object at `tgt` in
/// melee: positive damage is applied to the target, a kill transfers
/// the victim's experience reward to the attacker, and non-positive
/// damage changes nothing.
pub open spec fn melee_post(pre: &Game, post: &Game, att: int, tgt: int) -> bool {
    let objs = pre.objects@;
    let a = objs[att];
    let t = objs[tgt];
    let inv = pre.inventory@;
    let damage = spec_power(&a, inv) - spec_defence(&t, inv);
    &&& post.objects@.len() == objs.len()
    &&& forall|k: int| 0 <= k < objs.len() && k != att && k != tgt ==> post.objects@[k] == objs[k]
    &&& if damage > 0 {
        &&& spec_after_damage(&t, &post.objects@[tgt], damage)
        &&& (if spec_dies(&t, damage) {
            &&& post.objects@[att] == (Object {
                fighter: Some(
                    Fighter {
                        xp: (a.fighter->Some_0.xp + t.fighter->Some_0.xp) as i32,
                        ..a.fighter->Some_0
                    },
                ),
                ..a
            })
            &&& appended(pre.events@, post.events@, 2)
            &&& (post.events@[pre.events@.len() as int] matches Event::Attacked {
                attacker,
                target,
                damage: d,
            } && attacker@ == a.name@ && target@ == t.name@ && d == damage)
            &&& (post.events@.last() matches Event::Died { name } && name@ == t.name@)
        } else {
            &&& post.objects@[att] == a
            &&& appended(pre.events@, post.events@, 1)
            &&& (post.events@.last() matches Event::Attacked { attacker, target, damage: d }
                && attacker@ == a.name@ && target@ == t.name@ && d == damage)
        })
    } else {
        &&& post.objects@ == objs
        &&& appended(pre.events@, post.events@, 1)
        &&& (post.events@.last() matches Event::NoEffect { attacker, target } && attacker@
            == a.name@ && target@ == t.name@)
    }
}

/// Removing any entry of a well-formed inventory leaves it well formed.
pub proof fn lemma_inv_wf_remove_univ()
    ensures
        forall|s: Seq<Object>, i: int|
            0 <= i < s.len() && inv_wf(s) ==> #[trigger] inv_wf(s.remove(i)),
{
    assert forall|s: Seq<Object>, i: int|
        0 <= i < s.len() && inv_wf(s) implies #[trigger] inv_wf(s.remove(i)) by {
        let t = s.remove(i);
        assert forall|k: int| 0 <= k < t.len() implies obj_wf(#[trigger] &t[k]) by {
            if k < i {
                assert(t[k] == s[k]);
            } else {
                assert(t[k] == s[k + 1]);
            }
        }
        assert forall|a: int, b: int, sl: Slot|
            0 <= a < b < t.len() && #[trigger] is_equipped_in_slot(&t[a], sl)
                && #[trigger] is_equipped_in_slot(&t[b], sl) implies false by {
            let a0 = if a < i {
                a
            } else {
                a + 1
            };
            let b0 = if b < i {
                b
            } else {
                b + 1
            };
            assert(t[a] == s[a0]);
            assert(t[b] == s[b0]);
        }
        assert forall|k: int|
            0 <= k < t.len() && (#[trigger] t[k]).equipment is Some implies t[k].item is Some by {
            if k < i {
                assert(t[k] == s[k]);
            } else {
                assert(t[k] == s[k + 1]);
            }
        }
    }
}

impl Game {
    /// Step the player by `(dx, dy)`: attack the first living object on
    /// the destination cell, or move there under the usual blocking
    /// rules when nothing stands in the way.
    pub fn player_move_or_attack(&mut self, dx: i32, dy: i32)
        requires
            game_wf(old(self)),
            old(self).objects@[0].alive,
            -1 <= dx <= 1,
            -1 <= dy <= 1,
            !(dx == 0 && dy == 0),
        ensures
            game_wf(final(self)),
            final(self).map == old(self).map,
            final(self).inventory == old(self).inventory,
            final(self).dungeon_level == old(self).dungeon_level,
            final(self).stat_choice_pending == old(self).stat_choice_pending,
            final(self).objects@.len() == old(self).objects@.len(),
            ({
                let objs = old(self).objects@;
                let nx = objs[0].x + dx;
                let ny = objs[0].y + dy;
                if exists|t: int| first_alive_at(objs, nx, ny, t) {
                    exists|t: int|
                        #[trigger] first_alive_at(objs, nx, ny, t) && melee_post(
                            old(self),
                            final(self),
                            0,
                            t,
                        )
                } else {
                    &&& final(self).events@ == old(self).events@
                    &&& final(self).objects@ == moved_seq(
                        &old(self).map,
                        objs,
                        0,
                        dx as int,
                        dy as int,
                    )
                }
            }),
    {
        let ghost objs0 = old(self).objects@;
        let (px, py) = {
            let p = &self.objects[PLAYER];
            (p.x, p.y)
        };
        let x = px + dx;
        let y = py + dy;
        let n = self.objects.len();
        let mut target_id: Option<usize> = None;
        let mut i: usize = 0;
        while i < n
            invariant_except_break
                n == objs0.len(),
                0 <= i <= n,
                self.objects@ == objs0,
                target_id is None,
                forall|j: int|
                    0 <= j < i ==> !((#[trigger] objs0[j]).x == x && objs0[j].y == y
                        && objs0[j].alive),
            ensures
                self.objects@ == objs0,
                match target_id {
                    Some(t) => first_alive_at(objs0, x as int, y as int, t as int),
                    None => forall|j: int|
                        0 <= j < n ==> !((#[trigger] objs0[j]).x == x && objs0[j].y == y
                            && objs0[j].alive),
                },
            decreases n - i,
        {
            let hit = {
                let o = &self.objects[i];
                o.x == x && o.y == y && o.alive
            };
            if hit {
                target_id = Some(i);
                break ;
            }
            i = i + 1;
        }
        match target_id {
            Some(t) => {
                proof {
                    assert(objs0[t as int].x == x && objs0[t as int].y == y);
                    assert(t != 0);
                    lemma_xp_pair_le_total(objs0, 0, t as int);
                    lemma_total_xp_nonneg(objs0);
                    lemma_total_xp_update2_all(objs0, t as int, 0);
                    lemma_total_xp_update2_all(objs0, 0, t as int);
                    lemma_effective_stats_bounded(&objs0[0], old(self).inventory@);
                    lemma_effective_stats_bounded(&objs0[t as int], old(self).inventory@);
                }
                let objs_slice = self.objects.as_mut_slice();
                let (player, target) = crate::ai::mut_two(PLAYER, t, objs_slice);
                player.attack(target, &mut self.events, &self.inventory);
                proof {
                    if spec_dies(
                        &objs0[t as int],
                        spec_power(&objs0[0], old(self).inventory@) - spec_defence(
                            &objs0[t as int],
                            old(self).inventory@,
                        ),
                    ) {
                        lemma_remains_not_player(
                            objs0[t as int].name@,
                            "remains of "@ + objs0[t as int].name@,
                        );
                    }
                    assert(final(self).objects@ == objs0.update(0, *final(player)).update(
                        t as int,
                        *final(target),
                    ));
                    assert(objs0.update(0, *final(player)).update(t as int, *final(target))
                        =~= objs0.update(t as int, *final(target)).update(0, *final(player)));
                    assert(objs0.update(0, objs0[0]).update(t as int, objs0[t as int]) =~= objs0);
                }
            },
            None => {
                proof {
                    lemma_total_xp_update_all(objs0, 0);
                }
                crate::object::move_by(PLAYER, dx, dy, &self.map, &mut self.objects);
            },
        }
    }

    /// Whether the player's accumulated experience meets the level-up
    /// threshold `LEVEL_UP_BASE + level * LEVEL_UP_FACTOR`; if so the
    /// player levels up at once and a stat choice becomes pending.
    pub fn check_level_up(&mut self) -> (leveled: bool)
        requires
            game_wf(old(self)),
            old(self).objects@[0].level < LEVEL_MAX,
        ensures
            game_wf(final(self)),
            final(self).map == old(self).map,
            final(self).inventory == old(self).inventory,
            final(self).dungeon_level == old(self).dungeon_level,
            ({
                let p = old(self).objects@[0];
                let f = p.fighter->Some_0;
                let threshold = LEVEL_UP_BASE + p.level * LEVEL_UP_FACTOR;
                if f.xp >= threshold {
                    &&& leveled
                    &&& final(self).objects@ == old(self).objects@.update(
                        0,
                        (Object {
                            level: (p.level + 1) as i32,
                            level_up_xp: threshold as i32,
                            ..p
                        }),
                    )
                    &&& final(self).stat_choice_pending
                    &&& appended(old(self).events@, final(self).events@, 1)
                    &&& (final(self).events@.last() matches Event::ReachedLevel { level } && level
                        == p.level + 1)
                } else {
                    &&& !leveled
                    &&& final(self).objects@ == old(self).objects@
                    &&& final(self).events@ == old(self).events@
                    &&& final(self).stat_choice_pending == old(self).stat_choice_pending
                }
            }),
    {
        let ghost objs0 = old(self).objects@;
        let (level, xp) = {
            let p = &self.objects[PLAYER];
            let f = p.fighter.unwrap();
            (p.level, f.xp)
        };
        let threshold = LEVEL_UP_BASE + level * LEVEL_UP_FACTOR;
        if xp >= threshold {
            proof {
                lemma_total_xp_update_all(objs0, 0);
            }
            {
                let p_ref = &mut self.objects[PLAYER];
                p_ref.level = level + 1;
                p_ref.level_up_xp = threshold;
            }
            self.events.push(Event::ReachedLevel { level: level + 1 });
            self.stat_choice_pending = true;
            true
        } else {
            false
        }
    }

    /// Spend the pending level-up on one stat raise: 0 boosts maximum
    /// and current hit points by 20, 1 boosts power by one, 2 boosts
    /// defence by one. The threshold's worth of experience is deducted
    /// atomically with the raise.
    pub fn apply_level_choice(&mut self, choice: i32)
        requires
            game_wf(old(self)),
            old(self).stat_choice_pending,
            0 <= choice <= 2,
            old(self).objects@[0].fighter->Some_0.xp >= old(self).objects@[0].level_up_xp,
            old(self).objects@[0].fighter->Some_0.base_max_hp <= STAT_MAX - 20,
            old(self).objects@[0].fighter->Some_0.base_power <= STAT_MAX - 1,
            old(self).objects@[0].fighter->Some_0.base_defence <= STAT_MAX - 1,
            old(self).objects@[0].fighter->Some_0.hp <= HP_MAX - 20,
        ensures
            game_wf(final(self)),
            final(self).map == old(self).map,
            final(self).inventory == old(self).inventory,
            final(self).dungeon_level == old(self).dungeon_level,
            final(self).events@ == old(self).events@,
            !final(self).stat_choice_pending,
            ({
                let p = old(self).objects@[0];
                let f = p.fighter->Some_0;
                let spent = Fighter { xp: (f.xp - p.level_up_xp) as i32, ..f };
                final(self).objects@ == old(self).objects@.update(
                    0,
                    (Object {
                        fighter: Some(
                            if choice == 0 {
                                Fighter {
                                    base_max_hp: (spent.base_max_hp + 20) as i32,
                                    hp: (spent.hp + 20) as i32,
                                    ..spent
                                }
                            } else if choice == 1 {
                                Fighter { base_power: (spent.base_power + 1) as i32, ..spent }
                            } else {
                                Fighter { base_defence: (spent.base_defence + 1) as i32, ..spent }
                            },
                        ),
                        ..p
                    }),
                )
            }),
    {
        let ghost objs0 = old(self).objects@;
        proof {
            lemma_total_xp_update_all(objs0, 0);
            lemma_total_xp_nonneg(objs0);
        }
        let threshold = self.objects[PLAYER].level_up_xp;
        let p_ref = &mut self.objects[PLAYER];
        let f = p_ref.fighter.unwrap();
        let spent = Fighter { xp: f.xp - threshold, ..f };
        if choice == 0 {
            p_ref.fighter = Some(
                Fighter { base_max_hp: spent.base_max_hp + 20, hp: spent.hp + 20, ..spent },
            );
        } else if choice == 1 {
            p_ref.fighter = Some(Fighter { base_power: spent.base_power + 1, ..spent });
        } else {
            p_ref.fighter = Some(Fighter { base_defence: spent.base_defence + 1, ..spent });
        }
        self.stat_choice_pending = false;
    }

    /// Descend one level: the player rests (healing half their effective
    /// maximum hit points, when that is positive), the dungeon level
    /// counter advances, and a fresh populated grid replaces the map.
    pub fn next_level(&mut self)
        requires
            game_wf(old(self)),
            total_xp(old(self).objects@) <= i32::MAX - 24000,
            old(self).dungeon_level < u32::MAX,
        ensures
            game_wf(final(self)),
            final(self).inventory == old(self).inventory,
            final(self).dungeon_level == old(self).dungeon_level + 1,
            final(self).stat_choice_pending == old(self).stat_choice_pending,
            appended(old(self).events@, final(self).events@, 1),
            final(self).events@.last() is Rested,
            map_dims_ok(&final(self).map),
            forall|x: int, y: int|
                0 <= x < MAP_WIDTH && 0 <= y < MAP_HEIGHT ==> !(#[trigger] tile_at(
                    &final(self).map,
                    x,
                    y,
                )).visible && !tile_at(&final(self).map, x, y).ever_seen && tile_at(
                    &final(self).map,
                    x,
                    y,
                ).blocked == tile_at(&final(self).map, x, y).block_sight,
            !tile_at(
                &final(self).map,
                final(self).objects@[0].x as int,
                final(self).objects@[0].y as int,
            ).blocked,
            old(self).objects@.len() <= final(self).objects@.len(),
            forall|i: int|
                old(self).objects@.len() <= i < final(self).objects@.len() ==> populated_ok(
                    #[trigger] &final(self).objects@[i],
                ),
            ({
                let p = old(self).objects@[0];
                let f = p.fighter->Some_0;
                let mh = spec_max_hp(&p, old(self).inventory@);
                let amount = if mh > 0 {
                    mh / 2
                } else {
                    0
                };
                let healed = (if f.hp + amount > f.base_max_hp {
                    f.base_max_hp as int
                } else {
                    f.hp + amount
                });
                final(self).objects@[0] == (Object {
                    x: final(self).objects@[0].x,
                    y: final(self).objects@[0].y,
                    fighter: Some(Fighter { hp: healed as i32, ..f }),
                    ..p
                })
            }),
    {
        let ghost objs0 = old(self).objects@;
        self.events.push(Event::Rested);
        let mh = {
            let p = &self.objects[PLAYER];
            p.max_hp(&self.inventory)
        };
        let amount: i32 = if mh > 0 {
            mh / 2
        } else {
            0
        };
        proof {
            lemma_effective_stats_bounded(&objs0[0], old(self).inventory@);
            lemma_total_xp_update_all(objs0, 0);
        }
        {
            let p_ref = &mut self.objects[PLAYER];
            p_ref.heal(amount);
        }
        self.dungeon_level = self.dungeon_level + 1;
        let ghost mid = objs0.update(
            0,
            (Object {
                fighter: Some(
                    Fighter {
                        hp: (if objs0[0].fighter->Some_0.hp + amount
                            > objs0[0].fighter->Some_0.base_max_hp {
                            objs0[0].fighter->Some_0.base_max_hp as int
                        } else {
                            objs0[0].fighter->Some_0.hp + amount
                        }) as i32,
                        ..objs0[0].fighter->Some_0
                    },
                ),
                ..objs0[0]
            }),
        );
        let level = self.dungeon_level;
        let new_map = make_map(&mut self.objects, level);
        self.map = new_map;
        proof {
            lemma_total_xp_append_bound(mid, final(self).objects@);
        }
    }

    /// Drop the inventory item at `inv_id`: it is taken off first if it
    /// is worn, then removed from the inventory.
    pub fn drop_item(&mut self, inv_id: usize)
        requires
            game_wf(old(self)),
            inv_id < old(self).inventory@.len(),
        ensures
            game_wf(final(self)),
            final(self).map == old(self).map,
            final(self).objects@ == old(self).objects@,
            final(self).dungeon_level == old(self).dungeon_level,
            final(self).stat_choice_pending == old(self).stat_choice_pending,
            final(self).inventory@ == old(self).inventory@.remove(inv_id as int),
            ({
                let it = old(self).inventory@[inv_id as int];
                match it.equipment {
                    Some(e) => if e.equipped {
                        appended(old(self).events@, final(self).events@, 1)
                            && (final(self).events@.last() matches Event::Dequipped { name, slot }
                            && name@ == it.name@ && slot == e.slot)
                    } else {
                        final(self).events@ == old(self).events@
                    },
                    None => final(self).events@ == old(self).events@,
                }
            }),
    {
        let ghost inv0 = old(self).inventory@;
        proof {
            lemma_inv_wf_remove_univ();
        }
        let has_equipment = self.inventory[inv_id].equipment.is_some();
        if has_equipment {
            let it_ref = &mut self.inventory[inv_id];
            it_ref.dequip(&mut self.events);
        }
        self.inventory.remove(inv_id);
        proof {
            if has_equipment {
                assert(inv0.update(
                    inv_id as int,
                    (Object {
                        equipment: Some(
                            Equipment { equipped: false, ..inv0[inv_id as int].equipment->Some_0 },
                        ),
                        ..inv0[inv_id as int]
                    }),
                ).remove(inv_id as int) =~= inv0.remove(inv_id as int));
            }
        }
    }
}

/// The inventory entries from index `i` on whose item tag differs from
/// `kind`, in order.
pub open spec fn spec_kept_from(inv: Seq<Object>, kind: Option<Item>, i: int) -> Seq<Object>
    decreases inv.len() - i,
{
    if i < 0 || i >= inv.len() {
        Seq::empty()
    } else if inv[i].item == kind {
        spec_kept_from(inv, kind, i + 1)
    } else {
        seq![inv[i]] + spec_kept_from(inv, kind, i + 1)
    }
}

/// Whether some pickable item shares the player's cell.
pub open spec fn item_underfoot(objs: Seq<Object>) -> bool {
    exists|i: int|
        0 < i < objs.len() && (#[trigger] objs[i]).item is Some && objs[i].x == objs[0].x
            && objs[i].y == objs[0].y
}

/// One player intent per turn, handed in by the presentation layer.
pub enum PlayerIntent {
    Move { dx: i32, dy: i32 },
    PickUp,
    UseItem { slot: usize },
    DropItem { slot: usize },
    EquipToggle { slot: usize },
    Wait,
    DescendStairs,
}

impl Game {
    /// Drop every inventory entry sharing the item tag of the entry at
    /// `inv_id`.
    pub fn drop_item_by_type(&mut self, inv_id: usize)
        requires
            game_wf(old(self)),
            inv_id < old(self).inventory@.len(),
        ensures
            game_wf(final(self)),
            final(self).map == old(self).map,
            final(self).objects@ == old(self).objects@,
            final(self).events@ == old(self).events@,
            final(self).dungeon_level == old(self).dungeon_level,
            final(self).stat_choice_pending == old(self).stat_choice_pending,
            final(self).inventory@ == spec_kept_from(
                old(self).inventory@,
                old(self).inventory@[inv_id as int].item,
                0,
            ),
    {
        let ghost inv0 = old(self).inventory@;
        proof {
            lemma_inv_wf_remove_univ();
        }
        let kind = self.inventory[inv_id].item;
        let mut i: usize = self.inventory.len();
        while i > 0
            invariant
                game_wf(old(self)),
                self.map == old(self).map,
                self.objects@ == old(self).objects@,
                self.events@ == old(self).events@,
                self.dungeon_level == old(self).dungeon_level,
                self.stat_choice_pending == old(self).stat_choice_pending,
                inv_wf(self.inventory@),
                kind == inv0[inv_id as int].item,
                i <= inv0.len(),
                self.inventory@.len() >= i,
                forall|k: int| 0 <= k < i ==> self.inventory@[k] == inv0[k],
                self.inventory@ == inv0.take(i as int) + spec_kept_from(inv0, kind, i as int),
                forall|s: Seq<Object>, j: int|
                    0 <= j < s.len() && inv_wf(s) ==> #[trigger] inv_wf(s.remove(j)),
            decreases i,
        {
            i = i - 1;
            let matches_kind = {
                let o = &self.inventory[i];
                match (o.item, kind) {
                    (Some(a), Some(b)) => a == b,
                    (None, None) => true,
                    _ => false,
                }
            };
            proof {
                assert(inv0.take(i as int + 1).drop_last() =~= inv0.take(i as int));
                assert(inv0.take(i as int + 1).last() == inv0[i as int]);
            }
            if matches_kind {
                self.inventory.remove(i);
                proof {
                    assert((inv0.take(i as int + 1) + spec_kept_from(inv0, kind, i as int
                        + 1)).remove(i as int) =~= inv0.take(i as int) + spec_kept_from(
                        inv0,
                        kind,
                        i as int,
                    ));
                }
            } else {
                proof {
                    assert(inv0.take(i as int + 1) + spec_kept_from(inv0, kind, i as int + 1)
                        =~= inv0.take(i as int) + spec_kept_from(inv0, kind, i as int));
                }
            }
        }
        proof {
            assert(inv0.take(0) =~= Seq::<Object>::empty());
            assert(Seq::<Object>::empty() + spec_kept_from(inv0, kind, 0) =~= spec_kept_from(
                inv0,
                kind,
                0,
            ));
        }
    }

    /// Whether some object named like stairs shares the player's cell.
    pub fn player_on_stairs(&self) -> (r: bool)
        requires
            self.objects@.len() >= 1,
        ensures
            r == exists|i: int|
                0 <= i < self.objects@.len() && (#[trigger] self.objects@[i]).name@ == "stairs"@
                    && self.objects@[i].x == self.objects@[0].x && self.objects@[i].y
                    == self.objects@[0].y,
    {
        let (px, py) = {
            let p = &self.objects[PLAYER];
            (p.x, p.y)
        };
        let stairs: String = "stairs".to_owned();
        let n = self.objects.len();
        let mut i: usize = 0;
        while i < n
            invariant
                n == self.objects@.len(),
                n >= 1,
                0 <= i <= n,
                px == self.objects@[0].x && py == self.objects@[0].y,
                stairs@ == "stairs"@,
                forall|j: int|
                    0 <= j < i ==> !((#[trigger] self.objects@[j]).name@ == "stairs"@
                        && self.objects@[j].x == px && self.objects@[j].y == py),
            decreases n - i,
        {
            let here = {
                let o = &self.objects[i];
                o.x == px && o.y == py && o.name.eq(&stairs)
            };
            if here {
                return true;
            }
            i = i + 1;
        }
        false
    }

    /// Evaluate one player intent: step or attack, pick up what lies
    /// underfoot, apply or drop or toggle an inventory item, wait, or
    /// descend when standing on stairs. Reports whether game time was
    /// consumed, so the caller knows whether to run the monsters' turns.
    #[verifier::rlimit(30)]
    pub fn handle_intent(&mut self, intent: PlayerIntent) -> (r: PlayerAction)
        requires
            game_wf(old(self)),
            old(self).objects@[0].alive,
            (intent matches PlayerIntent::Move { dx, dy } ==> -1 <= dx <= 1 && -1 <= dy <= 1 && !(
            dx == 0 && dy == 0)),
            (intent matches PlayerIntent::UseItem { slot } ==> slot < old(
                self,
            ).inventory@.len()),
            (intent matches PlayerIntent::DropItem { slot } ==> slot < old(
                self,
            ).inventory@.len()),
            (intent matches PlayerIntent::EquipToggle { slot } ==> slot < old(
                self,
            ).inventory@.len()),
            (intent is DescendStairs ==> total_xp(old(self).objects@) <= i32::MAX - 24000 && old(
                self,
            ).dungeon_level < u32::MAX),
        ensures
            game_wf(final(self)),
            final(self).dungeon_level >= old(self).dungeon_level,
            ({
                match intent {
                    PlayerIntent::Move { dx, dy } => {
                        let objs = old(self).objects@;
                        let nx = objs[0].x + dx;
                        let ny = objs[0].y + dy;
                        &&& r is TookTurn
                        &&& (if exists|t: int| first_alive_at(objs, nx, ny, t) {
                            exists|t: int|
                                #[trigger] first_alive_at(objs, nx, ny, t) && melee_post(
                                    old(self),
                                    final(self),
                                    0,
                                    t,
                                )
                        } else {
                            final(self).objects@ == moved_seq(
                                &old(self).map,
                                objs,
                                0,
                                dx as int,
                                dy as int,
                            )
                        })
                    },
                    PlayerIntent::PickUp => r == (if item_underfoot(old(self).objects@) && old(
                        self,
                    ).inventory@.len() < 26 {
                        PlayerAction::TookTurn
                    } else {
                        PlayerAction::DidntTakeTurn
                    }),
                    PlayerIntent::UseItem { slot } => r == (match old(
                        self,
                    ).inventory@[slot as int].item {
                        None => PlayerAction::DidntTakeTurn,
                        Some(kind) => if crate::item::item_cancelled(old(self), slot as int, kind) {
                            PlayerAction::DidntTakeTurn
                        } else {
                            PlayerAction::TookTurn
                        },
                    }),
                    PlayerIntent::DropItem { slot } => r is DidntTakeTurn
                        && final(self).inventory@ == old(self).inventory@.remove(slot as int)
                        && final(self).objects@ == old(self).objects@,
                    PlayerIntent::EquipToggle { slot } => r == (if old(
                        self,
                    ).inventory@[slot as int].equipment is Some {
                        PlayerAction::TookTurn
                    } else {
                        PlayerAction::DidntTakeTurn
                    }) && final(self).objects@ == old(self).objects@,
                    PlayerIntent::Wait => r is TookTurn && final(self).objects@ == old(
                        self,
                    ).objects@ && final(self).events@ == old(self).events@,
                    PlayerIntent::DescendStairs => {
                        &&& r is DidntTakeTurn
                        &&& (if exists|i: int|
                            0 <= i < old(self).objects@.len()
                                && (#[trigger] old(self).objects@[i]).name@ == "stairs"@
                                && old(self).objects@[i].x == old(self).objects@[0].x
                                && old(self).objects@[i].y == old(self).objects@[0].y {
                            final(self).dungeon_level == old(self).dungeon_level + 1
                        } else {
                            final(self).dungeon_level == old(self).dungeon_level
                                && final(self).objects@ == old(self).objects@
                        })
                    },
                }
            }),
    {
        let r = match intent {
            PlayerIntent::Move { dx, dy } => {
                self.player_move_or_attack(dx, dy);
                PlayerAction::TookTurn
            },
            PlayerIntent::PickUp => {
                let (px, py) = {
                    let p = &self.objects[PLAYER];
                    (p.x, p.y)
                };
                let n = self.objects.len();
                let mut found: Option<usize> = None;
                let mut i: usize = 1;
                while i < n
                    invariant_except_break
                        n == self.objects@.len(),
                        1 <= i <= n,
                        found is None,
                        px == self.objects@[0].x && py == self.objects@[0].y,
                        forall|j: int|
                            1 <= j < i ==> !((#[trigger] self.objects@[j]).item is Some
                                && self.objects@[j].x == px && self.objects@[j].y == py),
                    ensures
                        px == self.objects@[0].x && py == self.objects@[0].y,
                        match found {
                            Some(f) => 0 < f < self.objects@.len()
                                && self.objects@[f as int].item is Some
                                && self.objects@[f as int].x == px
                                && self.objects@[f as int].y == py,
                            None => forall|j: int|
                                1 <= j < n ==> !((#[trigger] self.objects@[j]).item is Some
                                    && self.objects@[j].x == px && self.objects@[j].y == py),
                        },
                    decreases n - i,
                {
                    let hit = {
                        let o = &self.objects[i];
                        o.x == px && o.y == py && o.item.is_some()
                    };
                    if hit {
                        found = Some(i);
                        break ;
                    }
                    i = i + 1;
                }
                match found {
                    Some(object_id) => {
                        proof {
                            assert(item_underfoot(old(self).objects@));
                        }
                        let room_left = self.inventory.len() < 26;
                        self.pick_item_up(object_id);
                        if room_left {
                            PlayerAction::TookTurn
                        } else {
                            PlayerAction::DidntTakeTurn
                        }
                    },
                    None => {
                        proof {
                            assert(!item_underfoot(old(self).objects@));
                        }
                        PlayerAction::DidntTakeTurn
                    },
                }
            },
            PlayerIntent::UseItem { slot } => crate::item::use_item(slot, self),
            PlayerIntent::DropItem { slot } => {
                self.drop_item(slot);
                PlayerAction::DidntTakeTurn
            },
            PlayerIntent::EquipToggle { slot } => {
                match crate::item::toggle_equipment(slot, self) {
                    crate::item::UseResult::Cancelled => PlayerAction::DidntTakeTurn,
                    _ => PlayerAction::TookTurn,
                }
            },
            PlayerIntent::Wait => PlayerAction::TookTurn,
            PlayerIntent::DescendStairs => {
                if self.player_on_stairs() {
                    self.next_level();
                }
                PlayerAction::DidntTakeTurn
            },
        };
        proof {
            match intent {
                PlayerIntent::Move { dx, dy } => {
                    let objs = old(self).objects@;
                    let nx = objs[0].x + dx;
                    let ny = objs[0].y + dy;
                    if exists|t: int| first_alive_at(objs, nx, ny, t) {
                        assert(exists|t: int|
                            #[trigger] first_alive_at(objs, nx, ny, t) && melee_post(
                                old(self),
                                final(self),
                                0,
                                t,
                            ));
                    } else {
                        assert(final(self).objects@ == moved_seq(
                            &old(self).map,
                            objs,
                            0,
                            dx as int,
                            dy as int,
                        ));
                    }
                },
                _ => {},
            }
        }
        r
    }
}

} // verus!

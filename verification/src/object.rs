//! The entity model: one representation for the player, monsters and
//! floor items, plus the combat-stat resolution over equipped bonuses.
use vstd::prelude::*;

use crate::ai::AI;
use crate::events::{appended, Event};
use crate::item::{Equipment, Item, Slot};
use crate::tile::{map_dims_ok, spec_is_blocked, Grid, MAP_HEIGHT, MAP_WIDTH};
use vstd::string::StringExecFns;

verus! {

/// Largest magnitude allowed for a base stat or an equipment bonus.
pub const STAT_MAX: i32 = 100_000;

/// Largest magnitude a fighter's hit points may reach.
pub const HP_MAX: i32 = 10_000_000;

/// Largest level the progression model admits.
pub const LEVEL_MAX: i32 = 1_000_000;

/// Most items an inventory may hold.
pub const MAX_INVENTORY: usize = 26;

/// Terminal color code: black.
pub const COLOR_BLACK: i16 = 0;

/// Terminal color code: red.
pub const COLOR_RED: i16 = 1;

/// Terminal color code: green.
pub const COLOR_GREEN: i16 = 2;

/// Terminal color code: yellow.
pub const COLOR_YELLOW: i16 = 3;

/// Terminal color code: blue.
pub const COLOR_BLUE: i16 = 4;

/// Terminal color code: magenta.
pub const COLOR_MAGENTA: i16 = 5;

/// Terminal color code: cyan.
pub const COLOR_CYAN: i16 = 6;

/// Terminal color code: white.
pub const COLOR_WHITE: i16 = 7;

/// The combat-capable aspect of an entity. All stats are *base* values;
/// effective values add the bonuses of currently equipped items.
#[derive(Clone, Copy, Debug, PartialEq, Eq, Structural)]
pub struct Fighter {
    pub hp: i32,
    pub xp: i32,
    pub base_power: i32,
    pub base_defence: i32,
    pub base_max_hp: i32,
}

/// Any placed game object: player, monster, or item on the floor.
#[derive(Debug)]
pub struct Object {
    pub x: i32,
    pub y: i32,
    pub ch: char,
    pub color: i16,
    pub is_bold: bool,
    pub name: String,
    pub blocks: bool,
    pub alive: bool,
    pub fighter: Option<Fighter>,
    pub ai: Option<AI>,
    pub item: Option<Item>,
    pub level: i32,
    pub level_up_xp: i32,
    pub equipment: Option<Equipment>,
}

/// Whether this object is the player. Only the player draws equipment
/// bonuses from the inventory.
pub open spec fn is_player(o: &Object) -> bool {
    o.name@ == "player"@
}

/// The stat bounds under which every stat computation stays inside `i32`.
pub open spec fn fighter_wf(f: Fighter) -> bool {
    &&& 0 <= f.base_max_hp <= STAT_MAX
    &&& 0 <= f.base_power <= STAT_MAX
    &&& 0 <= f.base_defence <= STAT_MAX
    &&& -HP_MAX <= f.hp <= HP_MAX
    &&& 0 <= f.xp
}

/// Bounds on one piece of equipment's bonuses.
pub open spec fn equipment_wf(e: Equipment) -> bool {
    &&& -STAT_MAX <= e.power_bonus <= STAT_MAX
    &&& -STAT_MAX <= e.defense_bonus <= STAT_MAX
    &&& -STAT_MAX <= e.max_hp_bonus <= STAT_MAX
}

/// Well-formedness of one object: coordinates on the grid, stats within
/// bounds, and a live fighter never has negative hit points.
pub open spec fn obj_wf(o: &Object) -> bool {
    &&& 0 <= o.x < crate::tile::MAP_WIDTH
    &&& 0 <= o.y < crate::tile::MAP_HEIGHT
    &&& (o.fighter matches Some(f) ==> fighter_wf(f))
    &&& (o.alive ==> (o.fighter matches Some(f) ==> f.hp >= 0))
    &&& (o.equipment matches Some(e) ==> equipment_wf(e))
    &&& 0 <= o.level <= LEVEL_MAX
    &&& 0 <= o.level_up_xp
}

/// An inventory whose stat sums are guaranteed to fit in `i32` and
/// that wears at most one equipped item per slot.
pub open spec fn inv_wf(inv: Seq<Object>) -> bool {
    &&& inv.len() <= MAX_INVENTORY
    &&& forall|i: int| 0 <= i < inv.len() ==> obj_wf(#[trigger] &inv[i])
    &&& forall|i: int, j: int, s: Slot|
        0 <= i < j < inv.len() && #[trigger] is_equipped_in_slot(&inv[i], s)
            && #[trigger] is_equipped_in_slot(&inv[j], s) ==> false
    &&& forall|i: int| 0 <= i < inv.len() && (#[trigger] inv[i]).equipment is Some ==> inv[i].item is Some
}

/// The equipment pieces of `inv` that are currently equipped, in order.
pub open spec fn equipped_list(inv: Seq<Object>) -> Seq<Equipment>
    decreases inv.len(),
{
    if inv.len() == 0 {
        Seq::empty()
    } else {
        equipped_list(inv.drop_last()) + (match inv.last().equipment {
            Some(e) => if e.equipped {
                seq![e]
            } else {
                Seq::empty()
            },
            None => Seq::empty(),
        })
    }
}

/// Sum of the power bonuses of a list of equipment.
pub open spec fn sum_power(es: Seq<Equipment>) -> int
    decreases es.len(),
{
    if es.len() == 0 {
        0
    } else {
        sum_power(es.drop_last()) + es.last().power_bonus
    }
}

/// Sum of the defence bonuses of a list of equipment.
pub open spec fn sum_defence(es: Seq<Equipment>) -> int
    decreases es.len(),
{
    if es.len() == 0 {
        0
    } else {
        sum_defence(es.drop_last()) + es.last().defense_bonus
    }
}

/// Sum of the max-hit-point bonuses of a list of equipment.
pub open spec fn sum_max_hp(es: Seq<Equipment>) -> int
    decreases es.len(),
{
    if es.len() == 0 {
        0
    } else {
        sum_max_hp(es.drop_last()) + es.last().max_hp_bonus
    }
}

/// Effective power: base power plus, for the player, all equipped bonuses.
pub open spec fn spec_power(o: &Object, inv: Seq<Object>) -> int {
    (match o.fighter {
        Some(f) => f.base_power as int,
        None => 0,
    }) + if is_player(o) {
        sum_power(equipped_list(inv))
    } else {
        0
    }
}

/// Effective defence: base defence plus, for the player, all equipped bonuses.
pub open spec fn spec_defence(o: &Object, inv: Seq<Object>) -> int {
    (match o.fighter {
        Some(f) => f.base_defence as int,
        None => 0,
    }) + if is_player(o) {
        sum_defence(equipped_list(inv))
    } else {
        0
    }
}

/// Effective maximum hit points: base plus, for the player, all equipped bonuses.
pub open spec fn spec_max_hp(o: &Object, inv: Seq<Object>) -> int {
    (match o.fighter {
        Some(f) => f.base_max_hp as int,
        None => 0,
    }) + if is_player(o) {
        sum_max_hp(equipped_list(inv))
    } else {
        0
    }
}

/// A sight-blocking-free statement of the take_damage transition: whether
/// the given damage kills `pre` (reduces its hit points below zero while
/// it is alive).
pub open spec fn spec_dies(pre: &Object, damage: int) -> bool {
    match pre.fighter {
        Some(f) => pre.alive && (if damage > 0 {
            f.hp - damage
        } else {
            f.hp as int
        }) < 0,
        None => false,
    }
}

/// The hit points `pre`'s fighter has after taking `damage`.
pub open spec fn spec_hp_after(f: Fighter, damage: int) -> int {
    if damage > 0 {
        f.hp - damage
    } else {
        f.hp as int
    }
}

/// Relates an object before and after damage application: positive damage
/// is subtracted from hit points; a kill flips the object into inert
/// remains (dead, passable, behaviorless, renamed) and zeroes its stored
/// experience reward, which `take_damage` hands to the caller instead.
pub open spec fn spec_after_damage(pre: &Object, post: &Object, damage: int) -> bool {
    match pre.fighter {
        None => *post == *pre,
        Some(f) => {
            if spec_dies(pre, damage) {
                &&& post.fighter == Some(
                    Fighter { hp: spec_hp_after(f, damage) as i32, xp: 0, ..f },
                )
                &&& post.alive == false
                &&& post.ch == '%'
                &&& post.color == COLOR_RED
                &&& post.blocks == false
                &&& post.ai is None
                &&& post.name@ == "remains of "@ + pre.name@
                &&& post.x == pre.x
                &&& post.y == pre.y
                &&& post.is_bold == pre.is_bold
                &&& post.item == pre.item
                &&& post.equipment == pre.equipment
                &&& post.level == pre.level
                &&& post.level_up_xp == pre.level_up_xp
            } else {
                *post == (Object {
                    fighter: Some(Fighter { hp: spec_hp_after(f, damage) as i32, ..f }),
                    ..*pre
                })
            }
        },
    }
}

/// Splitting off the last inventory entry splits the equipped list.
proof fn lemma_equipped_take(inv: Seq<Object>, i: int)
    requires
        0 <= i < inv.len(),
    ensures
        equipped_list(inv.take(i + 1)) == equipped_list(inv.take(i)) + (match inv[i].equipment {
            Some(e) => if e.equipped {
                seq![e]
            } else {
                Seq::<Equipment>::empty()
            },
            None => Seq::<Equipment>::empty(),
        }),
{
    assert(inv.take(i + 1).drop_last() =~= inv.take(i));
    assert(inv.take(i + 1).last() == inv[i]);
}

/// Every entry of the equipped list of a well-formed inventory is itself
/// well formed, and the list is no longer than the inventory.
proof fn lemma_equipped_list_wf(inv: Seq<Object>)
    requires
        forall|i: int| 0 <= i < inv.len() ==> obj_wf(#[trigger] &inv[i]),
    ensures
        equipped_list(inv).len() <= inv.len(),
        forall|k: int|
            0 <= k < equipped_list(inv).len() ==> equipment_wf(#[trigger] equipped_list(inv)[k]),
    decreases inv.len(),
{
    if inv.len() > 0 {
        assert(forall|i: int|
            0 <= i < inv.drop_last().len() ==> obj_wf(#[trigger] &inv.drop_last()[i]));
        lemma_equipped_list_wf(inv.drop_last());
        assert(obj_wf(&inv.last()));
    }
}

/// Bounds each bonus sum of a well-formed equipment list.
proof fn lemma_sums_bounded(es: Seq<Equipment>)
    requires
        forall|k: int| 0 <= k < es.len() ==> equipment_wf(#[trigger] es[k]),
    ensures
        -(es.len() as int) * STAT_MAX <= sum_power(es) <= (es.len() as int) * STAT_MAX,
        -(es.len() as int) * STAT_MAX <= sum_defence(es) <= (es.len() as int) * STAT_MAX,
        -(es.len() as int) * STAT_MAX <= sum_max_hp(es) <= (es.len() as int) * STAT_MAX,
    decreases es.len(),
{
    if es.len() > 0 {
        assert(forall|k: int|
            0 <= k < es.drop_last().len() ==> equipment_wf(#[trigger] es.drop_last()[k]));
        lemma_sums_bounded(es.drop_last());
        assert(equipment_wf(es.last()));
    }
}

/// Prefix-sum steps for the three bonus sums.
proof fn lemma_sum_take(es: Seq<Equipment>, i: int)
    requires
        0 <= i < es.len(),
    ensures
        sum_power(es.take(i + 1)) == sum_power(es.take(i)) + es[i].power_bonus,
        sum_defence(es.take(i + 1)) == sum_defence(es.take(i)) + es[i].defense_bonus,
        sum_max_hp(es.take(i + 1)) == sum_max_hp(es.take(i)) + es[i].max_hp_bonus,
{
    assert(es.take(i + 1).drop_last() =~= es.take(i));
    assert(es.take(i + 1).last() == es[i]);
}

/// Whether the inventory entry is an equipped piece for the given slot.
pub open spec fn is_equipped_in_slot(o: &Object, slot: Slot) -> bool {
    match o.equipment {
        Some(e) => e.equipped && e.slot == slot,
        None => false,
    }
}

impl Object {
    /// A bare object with no fighter, behavior, item or equipment aspect.
    pub fn new(x: i32, y: i32, ch: char, color: i16, is_bold: bool, name: &str, blocks: bool) -> (o:
        Object)
        ensures
            o == (Object {
                x,
                y,
                ch,
                color,
                is_bold,
                name: o.name,
                blocks,
                alive: false,
                fighter: None::<Fighter>,
                ai: None::<AI>,
                item: None::<Item>,
                level: 1,
                level_up_xp: 0,
                equipment: None::<Equipment>,
            }),
            o.name@ == name@,
    {
        Object {
            x,
            y,
            ch,
            color,
            is_bold,
            blocks,
            alive: false,
            name: name.to_owned(),
            fighter: None,
            ai: None,
            item: None,
            level: 1,
            level_up_xp: 0,
            equipment: None,
        }
    }

    /// The object's position.
    pub fn pos(&self) -> (p: (i32, i32))
        ensures
            p == (self.x, self.y),
    {
        (self.x, self.y)
    }

    /// Move the object to `(x, y)`.
    pub fn set_pos(&mut self, x: i32, y: i32)
        ensures
            *final(self) == (Object { x, y, ..*old(self) }),
    {
        self.x = x;
        self.y = y;
    }

    /// Squared distance to another object.
    pub fn distance_sq_to(&self, other: &Object) -> (d: i32)
        requires
            0 <= self.x < MAP_WIDTH,
            0 <= self.y < MAP_HEIGHT,
            0 <= other.x < MAP_WIDTH,
            0 <= other.y < MAP_HEIGHT,
        ensures
            d == spec_dist_sq(self, other),
    {
        let dx = self.x - other.x;
        let dy = self.y - other.y;
        proof {
            assert(dx * dx <= 100 * 100 && dy * dy <= 100 * 100 && dx * dx >= 0 && dy * dy >= 0)
                by (nonlinear_arith)
                requires
                    -100 <= dx <= 100,
                    -100 <= dy <= 100,
            ;
        }
        dx * dx + dy * dy
    }

    /// Whether this object is the player.
    pub fn is_player(&self) -> (r: bool)
        ensures
            r == is_player(self),
    {
        self.name.eq(&"player".to_owned())
    }

    /// The equipped items whose bonuses this object currently enjoys:
    /// all equipped inventory pieces for the player, none for anyone else.
    pub fn get_all_equipped(&self, inv: &Vec<Object>) -> (r: Vec<Equipment>)
        ensures
            is_player(self) ==> r@ == equipped_list(inv@),
            !is_player(self) ==> r@ == Seq::<Equipment>::empty(),
    {
        if self.is_player() {
            let mut r: Vec<Equipment> = Vec::new();
            let n = inv.len();
            let mut i: usize = 0;
            while i < n
                invariant
                    n == inv@.len(),
                    0 <= i <= n,
                    r@ == equipped_list(inv@.take(i as int)),
                decreases n - i,
            {
                proof {
                    lemma_equipped_take(inv@, i as int);
                }
                match inv[i].equipment {
                    Some(e) => {
                        if e.equipped {
                            r.push(e);
                        }
                    },
                    None => {},
                }
                i = i + 1;
            }
            proof {
                assert(inv@.take(n as int) =~= inv@);
            }
            r
        } else {
            Vec::new()
        }
    }

    /// Effective power: base power plus all equipped power bonuses.
    pub fn power(&self, inv: &Vec<Object>) -> (r: i32)
        requires
            obj_wf(self),
            inv_wf(inv@),
        ensures
            r == spec_power(self, inv@),
    {
        let base_power = match self.fighter {
            Some(f) => f.base_power,
            None => 0,
        };
        let equipped = self.get_all_equipped(inv);
        proof {
            lemma_equipped_list_wf(inv@);
        }
        let mut bonus: i32 = 0;
        let n = equipped.len();
        let mut i: usize = 0;
        while i < n
            invariant
                n == equipped@.len(),
                0 <= i <= n,
                n <= MAX_INVENTORY,
                forall|k: int| 0 <= k < n ==> equipment_wf(#[trigger] equipped@[k]),
                bonus == sum_power(equipped@.take(i as int)),
                -(i as int) * STAT_MAX <= bonus <= (i as int) * STAT_MAX,
            decreases n - i,
        {
            proof {
                lemma_sum_take(equipped@, i as int);
            }
            bonus = bonus + equipped[i].power_bonus;
            i = i + 1;
        }
        proof {
            assert(equipped@.take(n as int) =~= equipped@);
        }
        base_power + bonus
    }

    /// Effective defence: base defence plus all equipped defence bonuses.
    pub fn defence(&self, inv: &Vec<Object>) -> (r: i32)
        requires
            obj_wf(self),
            inv_wf(inv@),
        ensures
            r == spec_defence(self, inv@),
    {
        let base_defence = match self.fighter {
            Some(f) => f.base_defence,
            None => 0,
        };
        let equipped = self.get_all_equipped(inv);
        proof {
            lemma_equipped_list_wf(inv@);
        }
        let mut bonus: i32 = 0;
        let n = equipped.len();
        let mut i: usize = 0;
        while i < n
            invariant
                n == equipped@.len(),
                0 <= i <= n,
                n <= MAX_INVENTORY,
                forall|k: int| 0 <= k < n ==> equipment_wf(#[trigger] equipped@[k]),
                bonus == sum_defence(equipped@.take(i as int)),
                -(i as int) * STAT_MAX <= bonus <= (i as int) * STAT_MAX,
            decreases n - i,
        {
            proof {
                lemma_sum_take(equipped@, i as int);
            }
            bonus = bonus + equipped[i].defense_bonus;
            i = i + 1;
        }
        proof {
            assert(equipped@.take(n as int) =~= equipped@);
        }
        base_defence + bonus
    }

    /// Effective maximum hit points: base plus all equipped bonuses.
    pub fn max_hp(&self, inv: &Vec<Object>) -> (r: i32)
        requires
            obj_wf(self),
            inv_wf(inv@),
        ensures
            r == spec_max_hp(self, inv@),
    {
        let base_max_hp = match self.fighter {
            Some(f) => f.base_max_hp,
            None => 0,
        };
        let equipped = self.get_all_equipped(inv);
        proof {
            lemma_equipped_list_wf(inv@);
        }
        let mut bonus: i32 = 0;
        let n = equipped.len();
        let mut i: usize = 0;
        while i < n
            invariant
                n == equipped@.len(),
                0 <= i <= n,
                n <= MAX_INVENTORY,
                forall|k: int| 0 <= k < n ==> equipment_wf(#[trigger] equipped@[k]),
                bonus == sum_max_hp(equipped@.take(i as int)),
                -(i as int) * STAT_MAX <= bonus <= (i as int) * STAT_MAX,
            decreases n - i,
        {
            proof {
                lemma_sum_take(equipped@, i as int);
            }
            bonus = bonus + equipped[i].max_hp_bonus;
            i = i + 1;
        }
        proof {
            assert(equipped@.take(n as int) =~= equipped@);
        }
        base_max_hp + bonus
    }

    /// Restore up to `amount` hit points, never beyond the base maximum.
    pub fn heal(&mut self, amount: i32)
        requires
            (old(self).fighter matches Some(f) ==> fighter_wf(f)),
            0 <= amount <= HP_MAX,
        ensures
            match old(self).fighter {
                None => *final(self) == *old(self),
                Some(f) => *final(self) == (Object {
                    fighter: Some(
                        Fighter {
                            hp: (if f.hp + amount > f.base_max_hp {
                                f.base_max_hp as int
                            } else {
                                f.hp + amount
                            }) as i32,
                            ..f
                        },
                    ),
                    ..*old(self)
                }),
            },
    {
        match self.fighter {
            Some(f) => {
                let mut hp = f.hp + amount;
                if hp > f.base_max_hp {
                    hp = f.base_max_hp;
                }
                self.fighter = Some(Fighter { hp, ..f });
            },
            None => {},
        }
    }

    /// Apply damage. Positive damage is subtracted from hit points; if
    /// that leaves them negative while the object is alive, the object
    /// dies: it becomes inert remains and its stored experience reward
    /// is returned, exactly once, so the caller can credit the killer.
    pub fn take_damage(&mut self, damage: i32, events: &mut Vec<Event>) -> (xp: Option<i32>)
        requires
            (old(self).fighter matches Some(f) ==> -HP_MAX <= f.hp <= HP_MAX),
            -HP_MAX <= damage <= HP_MAX,
        ensures
            spec_after_damage(old(self), final(self), damage as int),
            xp == (if spec_dies(old(self), damage as int) {
                Some(old(self).fighter->Some_0.xp)
            } else {
                None::<i32>
            }),
            (if spec_dies(old(self), damage as int) {
                appended(old(events)@, final(events)@, 1) && (final(events)@.last() matches
                    Event::Died { name } && name@ == old(self).name@)
            } else {
                final(events)@ == old(events)@
            }),
    {
        match self.fighter {
            Some(f) => {
                let hp1: i32 = if damage > 0 {
                    f.hp - damage
                } else {
                    f.hp
                };
                if hp1 < 0 && self.alive {
                    events.push(Event::Died { name: self.name.clone() });
                    self.fighter = Some(Fighter { hp: hp1, xp: 0, ..f });
                    self.alive = false;
                    self.ch = '%';
                    self.color = COLOR_RED;
                    self.blocks = false;
                    self.ai = None;
                    let remains = "remains of ".to_owned().concat(self.name.as_str());
                    self.name = remains;
                    Some(f.xp)
                } else {
                    self.fighter = Some(Fighter { hp: hp1, ..f });
                    None
                }
            },
            None => None,
        }
    }

    /// Melee attack: damage is the attacker's effective power minus the
    /// defender's effective defence; non-positive damage has no effect.
    /// A kill credits the victim's experience reward to the attacker.
    pub fn attack(&mut self, target: &mut Object, events: &mut Vec<Event>, inv: &Vec<Object>)
        requires
            obj_wf(old(self)),
            obj_wf(old(target)),
            inv_wf(inv@),
            old(self).fighter is Some,
            (old(target).fighter matches Some(tf) ==> old(self).fighter->Some_0.xp + tf.xp
                <= i32::MAX),
        ensures
            ({
                let damage = spec_power(old(self), inv@) - spec_defence(old(target), inv@);
                if damage > 0 {
                    &&& spec_after_damage(old(target), final(target), damage)
                    &&& (if spec_dies(old(target), damage) {
                        &&& *final(self) == (Object {
                            fighter: Some(
                                Fighter {
                                    xp: (old(self).fighter->Some_0.xp
                                        + old(target).fighter->Some_0.xp) as i32,
                                    ..old(self).fighter->Some_0
                                },
                            ),
                            ..*old(self)
                        })
                        &&& appended(old(events)@, final(events)@, 2)
                        &&& (final(events)@[old(events)@.len() as int] matches Event::Attacked {
                            attacker,
                            target: t,
                            damage: d,
                        } && attacker@ == old(self).name@ && t@ == old(target).name@ && d == damage)
                        &&& (final(events)@.last() matches Event::Died { name } && name@ == old(
                            target,
                        ).name@)
                    } else {
                        &&& *final(self) == *old(self)
                        &&& appended(old(events)@, final(events)@, 1)
                        &&& (final(events)@.last() matches Event::Attacked {
                            attacker,
                            target: t,
                            damage: d,
                        } && attacker@ == old(self).name@ && t@ == old(target).name@ && d == damage)
                    })
                } else {
                    &&& *final(self) == *old(self)
                    &&& *final(target) == *old(target)
                    &&& appended(old(events)@, final(events)@, 1)
                    &&& (final(events)@.last() matches Event::NoEffect { attacker, target: t }
                        && attacker@ == old(self).name@ && t@ == old(target).name@)
                }
            }),
    {
        proof {
            lemma_equipped_list_wf(inv@);
            lemma_sums_bounded(equipped_list(inv@));
        }
        let damage = self.power(inv) - target.defence(inv);
        if damage > 0 {
            events.push(
                Event::Attacked {
                    attacker: self.name.clone(),
                    target: target.name.clone(),
                    damage,
                },
            );
            match target.take_damage(damage, events) {
                Some(xp) => {
                    let f = self.fighter.unwrap();
                    self.fighter = Some(Fighter { xp: f.xp + xp, ..f });
                },
                None => {},
            }
        } else {
            events.push(
                Event::NoEffect { attacker: self.name.clone(), target: target.name.clone() },
            );
        }
    }

    /// Mark this item's equipment as worn. Declined, with an event, if
    /// the object is not an item or not equipment.
    pub fn equip(&mut self, events: &mut Vec<Event>)
        ensures
            match old(self).equipment {
                Some(e) => if old(self).item is Some {
                    &&& *final(self) == (Object {
                        equipment: Some(Equipment { equipped: true, ..e }),
                        ..*old(self)
                    })
                    &&& (if !e.equipped {
                        appended(old(events)@, final(events)@, 1) && (final(events)@.last() matches
                            Event::Equipped { name, slot } && name@ == old(self).name@ && slot
                            == e.slot)
                    } else {
                        final(events)@ == old(events)@
                    })
                } else {
                    &&& *final(self) == *old(self)
                    &&& appended(old(events)@, final(events)@, 1)
                    &&& (final(events)@.last() matches Event::NotAnItem { name } && name@ == old(
                        self,
                    ).name@)
                },
                None => {
                    &&& *final(self) == *old(self)
                    &&& appended(old(events)@, final(events)@, 1)
                    &&& (if old(self).item is Some {
                        final(events)@.last() matches Event::NotEquipment { name } && name@ == old(
                            self,
                        ).name@
                    } else {
                        final(events)@.last() matches Event::NotAnItem { name } && name@ == old(
                            self,
                        ).name@
                    })
                },
            },
    {
        if self.item.is_none() {
            events.push(Event::NotAnItem { name: self.name.clone() });
            return ;
        }
        match self.equipment {
            Some(e) => {
                if !e.equipped {
                    self.equipment = Some(Equipment { equipped: true, ..e });
                    events.push(Event::Equipped { name: self.name.clone(), slot: e.slot });
                } else {
                    self.equipment = Some(Equipment { equipped: true, ..e });
                }
            },
            None => {
                events.push(Event::NotEquipment { name: self.name.clone() });
            },
        }
    }

    /// Take this item's equipment off. Declined, with an event, if the
    /// object is not an item or not equipment.
    pub fn dequip(&mut self, events: &mut Vec<Event>)
        ensures
            match old(self).equipment {
                Some(e) => if old(self).item is Some {
                    &&& *final(self) == (Object {
                        equipment: Some(Equipment { equipped: false, ..e }),
                        ..*old(self)
                    })
                    &&& (if e.equipped {
                        appended(old(events)@, final(events)@, 1) && (final(events)@.last() matches
                            Event::Dequipped { name, slot } && name@ == old(self).name@ && slot
                            == e.slot)
                    } else {
                        final(events)@ == old(events)@
                    })
                } else {
                    &&& *final(self) == *old(self)
                    &&& appended(old(events)@, final(events)@, 1)
                    &&& (final(events)@.last() matches Event::NotAnItem { name } && name@ == old(
                        self,
                    ).name@)
                },
                None => {
                    &&& *final(self) == *old(self)
                    &&& appended(old(events)@, final(events)@, 1)
                    &&& (if old(self).item is Some {
                        final(events)@.last() matches Event::NotEquipment { name } && name@ == old(
                            self,
                        ).name@
                    } else {
                        final(events)@.last() matches Event::NotAnItem { name } && name@ == old(
                            self,
                        ).name@
                    })
                },
            },
    {
        if self.item.is_none() {
            events.push(Event::NotAnItem { name: self.name.clone() });
            return ;
        }
        match self.equipment {
            Some(e) => {
                if e.equipped {
                    self.equipment = Some(Equipment { equipped: false, ..e });
                    events.push(Event::Dequipped { name: self.name.clone(), slot: e.slot });
                } else {
                    self.equipment = Some(Equipment { equipped: false, ..e });
                }
            },
            None => {
                events.push(Event::NotEquipment { name: self.name.clone() });
            },
        }
    }
}

/// Squared Euclidean distance between two objects' positions. The
/// engine compares distances only against fixed thresholds, so all
/// geometry stays in integers on squared distances.
pub open spec fn spec_dist_sq(a: &Object, b: &Object) -> int {
    (a.x - b.x) * (a.x - b.x) + (a.y - b.y) * (a.y - b.y)
}

/// The first inventory index holding an equipped item for `slot`, if any.
pub fn get_equipped_in_slot(slot: Slot, inventory: &Vec<Object>) -> (r: Option<usize>)
    ensures
        match r {
            Some(i) => {
                &&& 0 <= i < inventory@.len()
                &&& is_equipped_in_slot(&inventory@[i as int], slot)
                &&& forall|j: int| 0 <= j < i ==> !is_equipped_in_slot(#[trigger] &inventory@[j], slot)
            },
            None => forall|j: int|
                0 <= j < inventory@.len() ==> !is_equipped_in_slot(#[trigger] &inventory@[j], slot),
        },
{
    let n = inventory.len();
    let mut i: usize = 0;
    while i < n
        invariant
            n == inventory@.len(),
            0 <= i <= n,
            forall|j: int| 0 <= j < i ==> !is_equipped_in_slot(#[trigger] &inventory@[j], slot),
        decreases n - i,
    {
        match inventory[i].equipment {
            Some(e) => {
                if e.equipped && e.slot == slot {
                    return Some(i);
                }
            },
            None => {},
        }
        i = i + 1;
    }
    None
}

/// Move the object at `id` by `(dx, dy)` unless the destination is off
/// the grid or blocked by terrain or another blocking object.
pub fn move_by(id: usize, dx: i32, dy: i32, map: &Grid, objects: &mut Vec<Object>)
    requires
        map_dims_ok(map),
        id < old(objects)@.len(),
        0 <= old(objects)@[id as int].x < MAP_WIDTH,
        0 <= old(objects)@[id as int].y < MAP_HEIGHT,
        -MAP_WIDTH <= dx <= MAP_WIDTH,
        -MAP_HEIGHT <= dy <= MAP_HEIGHT,
    ensures
        ({
            let nx = old(objects)@[id as int].x + dx;
            let ny = old(objects)@[id as int].y + dy;
            if 0 <= nx < MAP_WIDTH && 0 <= ny < MAP_HEIGHT && !spec_is_blocked(
                map,
                old(objects)@,
                nx,
                ny,
            ) {
                final(objects)@ == old(objects)@.update(
                    id as int,
                    (Object { x: nx as i32, y: ny as i32, ..old(objects)@[id as int] }),
                )
            } else {
                final(objects)@ == old(objects)@
            }
        }),
{
    let (x, y) = objects[id].pos();
    let nx = x + dx;
    let ny = y + dy;
    if 0 <= nx && nx < MAP_WIDTH && 0 <= ny && ny < MAP_HEIGHT {
        if !crate::tile::is_blocked(nx, ny, map, objects) {
            let o = &mut objects[id];
            o.set_pos(nx, ny);
            proof {
                assert(final(objects)@ =~= old(objects)@.update(
                    id as int,
                    (Object { x: nx as i32, y: ny as i32, ..old(objects)@[id as int] }),
                ));
            }
        } else {
            proof {
                assert(final(objects)@ =~= old(objects)@);
            }
        }
    } else {
        proof {
            assert(final(objects)@ =~= old(objects)@);
        }
    }
}

/// The one-cell step the behavior engine takes along one axis when
/// homing: the axis delta divided by the distance and rounded, which on
/// integers is the delta's sign when `3 * d * d >= other * other` and
/// zero otherwise.
pub open spec fn step_toward(d: int, other: int) -> int {
    if 3 * (d * d) >= other * other {
        if d > 0 {
            1
        } else if d < 0 {
            -1
        } else {
            0
        }
    } else {
        0
    }
}

/// Step the object at `id` one cell toward `(target_x, target_y)`:
/// each axis delta is normalized by the current distance and rounded,
/// then the move is attempted under the usual blocking rules.
pub fn move_towards(id: usize, target_x: i32, target_y: i32, map: &Grid, objects: &mut Vec<Object>)
    requires
        map_dims_ok(map),
        id < old(objects)@.len(),
        0 <= old(objects)@[id as int].x < MAP_WIDTH,
        0 <= old(objects)@[id as int].y < MAP_HEIGHT,
        0 <= target_x < MAP_WIDTH,
        0 <= target_y < MAP_HEIGHT,
    ensures
        ({
            let ox = old(objects)@[id as int].x as int;
            let oy = old(objects)@[id as int].y as int;
            let sx = step_toward(target_x - ox, target_y - oy);
            let sy = step_toward(target_y - oy, target_x - ox);
            let nx = ox + sx;
            let ny = oy + sy;
            if 0 <= nx < MAP_WIDTH && 0 <= ny < MAP_HEIGHT && !spec_is_blocked(
                map,
                old(objects)@,
                nx,
                ny,
            ) {
                final(objects)@ == old(objects)@.update(
                    id as int,
                    (Object { x: nx as i32, y: ny as i32, ..old(objects)@[id as int] }),
                )
            } else {
                final(objects)@ == old(objects)@
            }
        }),
{
    let dx = target_x - objects[id].x;
    let dy = target_y - objects[id].y;
    proof {
        assert(dx * dx <= 100 * 100 && dy * dy <= 100 * 100 && dx * dx >= 0 && dy * dy >= 0)
            by (nonlinear_arith)
            requires
                -100 <= dx <= 100,
                -100 <= dy <= 100,
        ;
    }
    let step_x: i32 = if 3 * (dx * dx) >= dy * dy {
        if dx > 0 {
            1
        } else if dx < 0 {
            -1
        } else {
            0
        }
    } else {
        0
    };
    let step_y: i32 = if 3 * (dy * dy) >= dx * dx {
        if dy > 0 {
            1
        } else if dy < 0 {
            -1
        } else {
            0
        }
    } else {
        0
    };
    move_by(id, step_x, step_y, map, objects);
}

/// Effective stats of a well-formed object over a well-formed inventory
/// stay far inside `i32`.
pub proof fn lemma_effective_stats_bounded(o: &Object, inv: Seq<Object>)
    requires
        obj_wf(o),
        inv_wf(inv),
    ensures
        -2_700_000 <= spec_power(o, inv) <= 2_700_000,
        -2_700_000 <= spec_defence(o, inv) <= 2_700_000,
        -2_700_000 <= spec_max_hp(o, inv) <= 2_700_000,
{
    lemma_equipped_list_wf(inv);
    lemma_sums_bounded(equipped_list(inv));
}

/// A renamed corpse is never called like the player: the remains prefix
/// alone is longer than the player's name.
pub proof fn lemma_remains_not_player(pre: Seq<char>, post: Seq<char>)
    requires
        post == "remains of "@ + pre,
    ensures
        post != "player"@,
{
    reveal_strlit("remains of ");
    reveal_strlit("player");
    assert(post.len() >= 11);
}

} // verus!

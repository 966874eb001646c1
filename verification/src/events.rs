//! Events the core emits for the presentation layer, and the message
//! entries a presentation layer keeps in its log.
use vstd::prelude::*;

use crate::item::Slot;

verus! {

/// One message-log entry: a rendered message and how many display
/// rounds it remains on screen.
#[derive(Clone, Debug)]
pub struct Status {
    pub msg: String,
    pub rounds: u32,
}

impl Status {
    /// A log entry showing `msg` for `rounds` display cycles.
    pub fn new(msg: String, rounds: u32) -> (s: Status)
        ensures
            s.msg == msg,
            s.rounds == rounds,
    {
        Status { msg, rounds }
    }
}

/// One state change or declined action, reported to the presentation
/// layer in the order it happened.
#[derive(Debug)]
pub enum Event {
    /// `attacker` hit `target` for `damage` hit points.
    Attacked { attacker: String, target: String, damage: i32 },
    /// An attack whose damage did not exceed the target's defence.
    NoEffect { attacker: String, target: String },
    /// The named fighter died.
    Died { name: String },
    /// The named item was picked up.
    PickedUp { name: String },
    /// The inventory is full; the named item stays on the floor.
    InventoryFull { name: String },
    /// The player reached the given level.
    ReachedLevel { level: i32 },
    /// The named actor became confused.
    BecameConfused { name: String },
    /// The named actor is no longer confused.
    NoLongerConfused { name: String },
    /// A lightning bolt struck the named target for `damage`.
    Struck { target: String, damage: i32 },
    /// A wall of fire was raised in the given radius.
    FireCast { radius: i32 },
    /// The named actor was burned for `damage`.
    Burned { name: String, damage: i32 },
    /// The player was caught in their own fire for `damage`.
    BurnedSelf { damage: i32 },
    /// The player's wounds start to feel better.
    Healed,
    /// A heal was declined: already at full health.
    FullHealth,
    /// Using the named object was declined: it is not a usable item.
    NotUsable { name: String },
    /// An item use was cancelled; the item is not spent.
    Cancelled,
    /// A targeted effect found no enemy within range.
    NoEnemyInRange,
    /// The named item is now worn in the given slot.
    Equipped { name: String, slot: Slot },
    /// The named item was taken off the given slot.
    Dequipped { name: String, slot: Slot },
    /// Equip or unequip was declined: the named object is not an item.
    NotAnItem { name: String },
    /// Equip or unequip was declined: the named item is not equipment.
    NotEquipment { name: String },
    /// The player rests while descending to the next level.
    Rested,
}

/// `new` extends `prior` by exactly `n` entries, keeping the prefix.
pub open spec fn appended(prior: Seq<Event>, new: Seq<Event>, n: int) -> bool {
    &&& new.len() == prior.len() + n
    &&& forall|i: int| 0 <= i < prior.len() ==> new[i] == prior[i]
}

} // verus!

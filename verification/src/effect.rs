use vstd::prelude::*;
use crate::geom::{Coord, Pos};
use crate::item::{Id, ItemStats};

verus! {

/// The moments at which items act.
#[derive(Clone, Copy, PartialEq, Eq, Structural, Debug)]
pub enum Trigger {
    Night,
    DayBonus,
    DayAction,
    Active,
}

impl Trigger {
    /// The name of the method in scripts responsible for handling the trigger.
    pub fn method_name(&self) -> (name: &'static str)
        ensures
            name@ == match self {
                Trigger::Night => "night"@,
                Trigger::DayBonus => "day_bonus"@,
                Trigger::DayAction => "day_action"@,
                Trigger::Active => "active"@,
            },
    {
        match self {
            Trigger::Night => "night",
            Trigger::DayBonus => "day_bonus",
            Trigger::DayAction => "day_action",
            Trigger::Active => "active",
        }
    }
}

/// Something an item asks to happen.
pub enum Effect {
    SetUsed { item_id: Id },
    /// Damage an entity by the amount a script function computes; the
    /// function is known by its handle.
    Damage { target: Id, damage: usize },
    Bonus { from: Pos, target: Id, bonus: ItemStats, permanent: bool },
    /// Uncover tiles on the map.
    OpenTiles { tiles: usize },
    /// Completely remove the item from the map.
    Destroy { item_id: Id },
    /// Duplicate an item, making a copy in the inventory, and, if there is space, on the board.
    Duplicate { item_id: Id },
    /// Gain extra moves for this turn.
    GainMoves { moves: usize },
    Portal,
    SwapItems { board_a: Id, board_b: Id },
    TransformItem { item_id: Id, target_name: String },
    EmitLight { position: Pos, radius: Coord, duration: usize },
    UseItem { item: Id },
    NewItem { kind: usize },
}

/// An effect waiting to be resolved.
pub struct QueuedEffect {
    /// The trigger that proc'ed the effect.
    pub trigger: Trigger,
    /// The id of the item that proc'ed the effect.
    pub proc_item: Id,
    pub effect: Effect,
}

} // verus!

use vstd::prelude::*;
use crate::geom::Pos;
use crate::arena::Arena;
use crate::item::InventoryItem;

verus! {

pub struct Player {
    pub moves_left: usize,
    pub turns_left: usize,
    pub hearts: usize,
    /// Extra items player can choose at the end of the turn.
    pub extra_items: usize,
    /// Number of refreshes available in the select menu.
    pub refreshes: usize,
    pub items: Arena<InventoryItem>,
}

/// What the player asks for.
#[derive(Clone, Copy, PartialEq, Eq, Structural, Debug)]
pub enum PlayerInput {
    Dir(Pos),
    Tile(Pos),
    Vision { pos: Pos, commit: bool },
    SelectItem(usize),
    Reroll,
    Skip,
    Retry,
}

impl Player {
    /// Three hearts, nothing else.
    pub fn new() -> (p: Player)
        ensures
            p.moves_left == 0,
            p.turns_left == 0,
            p.hearts == 3,
            p.extra_items == 0,
            p.refreshes == 0,
            p.items@ == Seq::<Option<InventoryItem>>::empty(),
    {
        Player {
            moves_left: 0,
            turns_left: 0,
            hearts: 3,
            extra_items: 0,
            refreshes: 0,
            items: Arena::new(),
        }
    }
}

} // verus!

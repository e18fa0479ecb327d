use vstd::prelude::*;
use crate::geom::Pos;
use crate::item::{Hp, Id, ItemStats};

verus! {

/// What an animation shows, and what happens to the model when it ends.
#[derive(Clone, Copy, PartialEq, Eq, Structural, Debug)]
pub enum AnimationKind {
    MoveItem {
        /// Id of the item on the board.
        item_id: Id,
        target_pos: Pos,
    },
    MoveEntity { entity_id: Id, target_pos: Pos },
    ItemEffect { item: Id },
    EntityDeath { entity: Id, pos: Pos },
    ItemDeath { item: Id, pos: Pos },
    /// A copy of an item kind, by its index among all kinds.
    Dupe { kind: usize },
    Damage { from: Pos, target: Id, damage: Hp },
    Bonus {
        from: Pos,
        /// Id of the item on the board.
        target: Id,
        bonus: ItemStats,
        permanent: bool,
    },
}

/// Whether an animation that starts after the animations `dependent_on` may
/// run: none of them is still running.
pub fn may_start(dependent_on: &Vec<Id>, running: &Vec<Id>) -> (b: bool)
    ensures
        b == forall|i: int| 0 <= i < dependent_on@.len() ==> !running@.contains(#[trigger] dependent_on@[i]),
{
    let n = dependent_on.len();
    for i in 0..n
        invariant
            n == dependent_on@.len(),
            forall|k: int| 0 <= k < i ==> !running@.contains(#[trigger] dependent_on@[k]),
    {
        let d = dependent_on[i];
        let m = running.len();
        for j in 0..m
            invariant
                m == running@.len(),
                n == dependent_on@.len(),
                0 <= i < n,
                d == dependent_on@[i as int],
                forall|k: int| 0 <= k < j ==> running@[k] != d,
        {
            if running[j] == d {
                assert(running@.contains(dependent_on@[i as int]));
                return false;
            }
        }
    }
    true
}

} // verus!

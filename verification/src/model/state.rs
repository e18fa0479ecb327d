use vstd::prelude::*;
use crate::geom::Pos;
use crate::posset::PosSet;
use crate::grid::Grid;
use crate::arena::{Arena, arena_get, arena_has};
use crate::item::{BoardItem, InventoryItem, ItemKind, Id};
use crate::entity::Entity;
use crate::player::Player;

verus! {

/// The stuff accessible from within the scripts.
pub struct ModelState {
    pub all_items: Vec<ItemKind>,
    pub grid: Grid,
    pub player: Player,
    pub items: Arena<BoardItem>,
    pub entities: Arena<Entity>,
    pub visible_tiles: PosSet,
}

/// The board item under `id`.
pub open spec fn board_of(s: &ModelState, id: int) -> BoardItem {
    arena_get(s.items@, id).unwrap()
}

/// The inventory item under `id`.
pub open spec fn inv_of(s: &ModelState, id: int) -> InventoryItem {
    arena_get(s.player.items@, id).unwrap()
}

/// The entity under `id`.
pub open spec fn entity_of(s: &ModelState, id: int) -> Entity {
    arena_get(s.entities@, id).unwrap()
}

/// Some entity stands at `q`.
pub open spec fn entity_at(s: &ModelState, q: (int, int)) -> bool {
    exists|i: int| arena_has(s.entities@, i) && #[trigger] arena_get(s.entities@, i).unwrap().position@ == q
}

/// Some board item lies at `q`.
pub open spec fn item_at(s: &ModelState, q: (int, int)) -> bool {
    exists|i: int| arena_has(s.items@, i) && #[trigger] arena_get(s.items@, i).unwrap().position@ == q
}

/// The tiles with neither an entity nor an item on them.
pub open spec fn empty_space_spec(s: &ModelState) -> Set<(int, int)> {
    Set::new(|q: (int, int)| s.grid.tiles@.contains(q) && !entity_at(s, q) && !item_at(s, q))
}

/// Every board item shows an item the player owns.
pub open spec fn refs_ok(s: &ModelState) -> bool {
    forall|b: int| #[trigger] arena_has(s.items@, b) ==> arena_has(s.player.items@, board_of(s, b).item_id as int)
}

/// Every owned item is of a known kind.
pub open spec fn kinds_ok(s: &ModelState) -> bool {
    forall|i: int| #[trigger] arena_has(s.player.items@, i) ==> inv_of(s, i).kind < s.all_items.len()
}

/// Every entity's health is in range.
pub open spec fn health_ok(s: &ModelState) -> bool {
    forall|e: int| #[trigger] arena_has(s.entities@, e) ==> entity_of(s, e).health.wf()
}

/// An owned item's board id, if any, was handed out already.
pub open spec fn onboard_ok(s: &ModelState) -> bool {
    forall|i: int| #[trigger] arena_has(s.player.items@, i) ==> (inv_of(s, i).on_board matches Some(b) ==> b < s.items@.len())
}

/// Owned items keep their board ids and kinds while the board only grows.
pub proof fn lemma_inventory_kept(s0: &ModelState, s1: &ModelState)
    requires
        onboard_ok(s0),
        kinds_ok(s0),
        s1.items@.len() >= s0.items@.len(),
        s1.all_items@.len() == s0.all_items@.len(),
        forall|i: int| #[trigger] arena_has(s1.player.items@, i) ==> arena_has(s0.player.items@, i)
            && inv_of(s1, i).on_board == inv_of(s0, i).on_board && inv_of(s1, i).kind == inv_of(s0, i).kind,
    ensures
        onboard_ok(s1),
        kinds_ok(s1),
{
    assert forall|i: int| #[trigger] arena_has(s1.player.items@, i)
        implies (inv_of(s1, i).on_board matches Some(b) ==> b < s1.items@.len()) by {
        assert(arena_has(s0.player.items@, i));
    }
    assert forall|i: int| #[trigger] arena_has(s1.player.items@, i) implies inv_of(s1, i).kind < s1.all_items.len() by {
        assert(arena_has(s0.player.items@, i));
    }
}

impl ModelState {
    /// The state holds together: its sets have no repeats, every board item
    /// shows an owned item, every owned item has a known kind, and every
    /// health is in range.
    pub open spec fn wf(&self) -> bool {
        &&& self.grid.wf()
        &&& self.visible_tiles.wf()
        &&& refs_ok(self)
        &&& kinds_ok(self)
        &&& health_ok(self)
        &&& onboard_ok(self)
    }

    /// Whether every board item shows an owned item.
    pub fn check_refs(&self) -> (b: bool)
        ensures
            b == refs_ok(self),
    {
        let n = self.items.id_bound();
        for i in 0..n
            invariant
                n == self.items@.len(),
                forall|b: int| 0 <= b < i && #[trigger] arena_has(self.items@, b)
                    ==> arena_has(self.player.items@, board_of(self, b).item_id as int),
        {
            match self.items.get(i) {
                Some(b) => {
                    if !self.player.items.contains(b.item_id) {
                        assert(arena_has(self.items@, i as int));
                        assert(!refs_ok(self));
                        return false;
                    }
                },
                None => {},
            }
        }
        true
    }

    /// The tiles with neither an entity nor an item on them, in the order of the tiles.
    pub fn calculate_empty_space(&self) -> (available: PosSet)
        requires
            self.wf(),
        ensures
            available.wf(),
            available@ == empty_space_spec(self),
    {
        let mut available = self.grid.tiles.copy();
        let n = self.entities.id_bound();
        for i in 0..n
            invariant
                n == self.entities@.len(),
                available.wf(),
                forall|q: (int, int)| #[trigger] available@.contains(q) <==> self.grid.tiles@.contains(q)
                    && !(exists|j: int| 0 <= j < i && arena_has(self.entities@, j) && #[trigger] arena_get(self.entities@, j).unwrap().position@ == q),
        {
            let ghost before = available@;
            match self.entities.get(i) {
                Some(e) => {
                    available.remove(e.position);
                },
                None => {},
            }
            assert forall|q: (int, int)| #[trigger] available@.contains(q) <==> self.grid.tiles@.contains(q)
                && !(exists|j: int| 0 <= j < i + 1 && arena_has(self.entities@, j) && #[trigger] arena_get(self.entities@, j).unwrap().position@ == q) by {
                if exists|j: int| 0 <= j < i + 1 && arena_has(self.entities@, j) && #[trigger] arena_get(self.entities@, j).unwrap().position@ == q {
                    let j = choose|j: int| 0 <= j < i + 1 && arena_has(self.entities@, j) && #[trigger] arena_get(self.entities@, j).unwrap().position@ == q;
                    if j < i {
                        assert(!before.contains(q));
                    }
                }
            }
        }
        let m = self.items.id_bound();
        for i in 0..m
            invariant
                m == self.items@.len(),
                n == self.entities@.len(),
                available.wf(),
                forall|q: (int, int)| #[trigger] available@.contains(q) <==> self.grid.tiles@.contains(q)
                    && !(exists|j: int| 0 <= j < n && arena_has(self.entities@, j) && #[trigger] arena_get(self.entities@, j).unwrap().position@ == q)
                    && !(exists|j: int| 0 <= j < i && arena_has(self.items@, j) && #[trigger] arena_get(self.items@, j).unwrap().position@ == q),
        {
            let ghost before = available@;
            match self.items.get(i) {
                Some(b) => {
                    available.remove(b.position);
                },
                None => {},
            }
            assert forall|q: (int, int)| #[trigger] available@.contains(q) <==> self.grid.tiles@.contains(q)
                && !(exists|j: int| 0 <= j < n && arena_has(self.entities@, j) && #[trigger] arena_get(self.entities@, j).unwrap().position@ == q)
                && !(exists|j: int| 0 <= j < i + 1 && arena_has(self.items@, j) && #[trigger] arena_get(self.items@, j).unwrap().position@ == q) by {
                if exists|j: int| 0 <= j < i + 1 && arena_has(self.items@, j) && #[trigger] arena_get(self.items@, j).unwrap().position@ == q {
                    let j = choose|j: int| 0 <= j < i + 1 && arena_has(self.items@, j) && #[trigger] arena_get(self.items@, j).unwrap().position@ == q;
                    if j < i {
                        assert(!before.contains(q));
                    }
                }
            }
        }
        assert forall|q: (int, int)| available@.contains(q) <==> empty_space_spec(self).contains(q) by {
            if entity_at(self, q) {
                let j = choose|j: int| arena_has(self.entities@, j) && #[trigger] arena_get(self.entities@, j).unwrap().position@ == q;
                assert(0 <= j < n);
            }
            if item_at(self, q) {
                let j = choose|j: int| arena_has(self.items@, j) && #[trigger] arena_get(self.items@, j).unwrap().position@ == q;
                assert(0 <= j < m);
            }
        }
        assert(available@ =~= empty_space_spec(self));
        available
    }
}

} // verus!

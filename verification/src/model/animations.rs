use vstd::prelude::*;
use crate::geom::Pos;
use crate::arena::{arena_get, arena_has};
use crate::item::{BoardItem, Id, InventoryItem, ItemStats};
use crate::entity::{Entity, clamp_spec};
use crate::animation::AnimationKind;
use crate::random::pick_one;
use crate::model::state::{ModelState, board_of, inv_of, entity_of, empty_space_spec};
use crate::model::game::Model;
use crate::model::resolve_effect::{same_frame, same_but_board, same_but_inventory};

verus! {

/// Where new things may appear: empty tiles that nobody sees.
pub open spec fn hidden_space_spec(s: &ModelState) -> Set<(int, int)> {
    empty_space_spec(s).difference(s.visible_tiles@)
}

/// The state is as before but for its entities.
pub open spec fn same_but_entities(s0: &ModelState, s1: &ModelState) -> bool {
    &&& s1.all_items == s0.all_items
    &&& s1.grid == s0.grid
    &&& s1.player == s0.player
    &&& s1.items == s0.items
    &&& s1.visible_tiles == s0.visible_tiles
}

/// Removing inventory item `item` leaves no board item behind that shows it,
/// but the one it is on.
pub open spec fn death_safe(s: &ModelState, item: int) -> bool {
    forall|b: int| #[trigger] arena_has(s.items@, b) && board_of(s, b).item_id == item
        ==> (inv_of(s, item).on_board matches Some(x) && x as int == b)
}

/// A new item of kind `kind` was added to the inventory under id `id`, and
/// placed on a hidden empty tile if there was one.
pub open spec fn item_added_and_spawned(s0: &ModelState, kind: usize, s1: &ModelState, id: Id) -> bool {
    let fresh = InventoryItem {
        on_board: None,
        kind,
        turns_on_board: 0,
        base_stats: s0.all_items@[kind as int].config.base_stats,
        perm_stats: ItemStats { damage: None },
        temp_stats: ItemStats { damage: None },
    };
    &&& id == s0.player.items@.len()
    &&& s1.all_items == s0.all_items
    &&& s1.grid == s0.grid
    &&& s1.entities == s0.entities
    &&& s1.visible_tiles == s0.visible_tiles
    &&& s1.player.moves_left == s0.player.moves_left
    &&& s1.player.turns_left == s0.player.turns_left
    &&& s1.player.hearts == s0.player.hearts
    &&& s1.player.extra_items == s0.player.extra_items
    &&& s1.player.refreshes == s0.player.refreshes
    &&& if hidden_space_spec(s0) == Set::<(int, int)>::empty() {
        &&& s1.items == s0.items
        &&& s1.player.items@ == s0.player.items@.push(Some(fresh))
    } else {
        exists|p: Pos| #[trigger] hidden_space_spec(s0).contains(p@)
            && s1.items@ == s0.items@.push(Some(BoardItem { position: p, item_id: id, used: false }))
            && s1.player.items@ == s0.player.items@.push(Some(InventoryItem { on_board: Some(s0.items@.len() as usize), ..fresh }))
    }
}

/// What a finished animation of kind `kind` does to the model.
pub open spec fn animation_finished(m0: &Model, kind: AnimationKind, m1: &Model, r: Option<Id>) -> bool {
    let s0 = &m0.state;
    let s1 = &m1.state;
    &&& same_frame(m0, m1)
    &&& m1.phase == m0.phase
    &&& match kind {
        AnimationKind::MoveEntity { entity_id, target_pos } => {
            &&& r is None
            &&& same_but_entities(s0, s1)
            &&& s1.entities@ == if arena_has(s0.entities@, entity_id as int) {
                s0.entities@.update(entity_id as int, Some(Entity { position: target_pos, ..entity_of(s0, entity_id as int) }))
            } else {
                s0.entities@
            }
        },
        AnimationKind::MoveItem { item_id, target_pos } => {
            &&& r is None
            &&& same_but_board(s0, s1)
            &&& s1.items@ == if arena_has(s0.items@, item_id as int) {
                s0.items@.update(item_id as int, Some(BoardItem { position: target_pos, ..board_of(s0, item_id as int) }))
            } else {
                s0.items@
            }
        },
        AnimationKind::ItemEffect { .. } => r is None && *s1 == *s0,
        AnimationKind::EntityDeath { entity, .. } => {
            &&& r is None
            &&& same_but_entities(s0, s1)
            &&& s1.entities@ == if arena_has(s0.entities@, entity as int) {
                s0.entities@.update(entity as int, None)
            } else {
                s0.entities@
            }
        },
        AnimationKind::ItemDeath { item, .. } => {
            &&& r is None
            &&& if !arena_has(s0.player.items@, item as int) {
                *s1 == *s0
            } else {
                &&& s1.all_items == s0.all_items
                &&& s1.grid == s0.grid
                &&& s1.entities == s0.entities
                &&& s1.visible_tiles == s0.visible_tiles
                &&& s1.player.moves_left == s0.player.moves_left
                &&& s1.player.turns_left == s0.player.turns_left
                &&& s1.player.hearts == s0.player.hearts
                &&& s1.player.extra_items == s0.player.extra_items
                &&& s1.player.refreshes == s0.player.refreshes
                &&& s1.player.items@ == s0.player.items@.update(item as int, None)
                &&& s1.items@ == match inv_of(s0, item as int).on_board {
                    Some(b) => if arena_has(s0.items@, b as int) { s0.items@.update(b as int, None) } else { s0.items@ },
                    None => s0.items@,
                }
            }
        },
        AnimationKind::Dupe { kind } => r matches Some(id) && item_added_and_spawned(s0, kind, s1, id),
        AnimationKind::Damage { target, damage, .. } => {
            &&& r is None
            &&& same_but_entities(s0, s1)
            &&& if arena_has(s0.entities@, target as int) {
                let e0 = entity_of(s0, target as int);
                let e1 = entity_of(s1, target as int);
                &&& arena_has(s1.entities@, target as int)
                &&& s1.entities@.len() == s0.entities@.len()
                &&& forall|i: int| 0 <= i < s0.entities@.len() && i != target ==> #[trigger] s1.entities@[i] == s0.entities@[i]
                &&& e1.position == e0.position
                &&& e1.fraction == e0.fraction
                &&& e1.look_dir == e0.look_dir
                &&& e1.kind == e0.kind
                &&& e1.health.max_spec() == e0.health.max_spec()
                &&& e1.health.value_spec() == clamp_spec(e0.health.value_spec() - damage, e0.health.max_spec())
            } else {
                s1.entities == s0.entities
            }
        },
        AnimationKind::Bonus { target, bonus, permanent, .. } => {
            &&& r is None
            &&& if arena_has(s0.items@, target as int) {
                let id = board_of(s0, target as int).item_id as int;
                let inv = inv_of(s0, id);
                &&& same_but_inventory(s0, s1)
                &&& s1.player.items@ == s0.player.items@.update(id, Some(if permanent {
                    InventoryItem { perm_stats: inv.perm_stats.combine_spec(&bonus), ..inv }
                } else {
                    InventoryItem { temp_stats: inv.temp_stats.combine_spec(&bonus), ..inv }
                }))
            } else {
                *s1 == *s0
            }
        },
    }
}

impl Model {
    /// Adds a new item of kind `kind` to the inventory and places it on a
    /// hidden empty tile, if there is one. Returns the new inventory id.
    pub fn new_item_and_spawn(&mut self, kind: usize) -> (id: Id)
        requires
            old(self).wf(),
            kind < old(self).state.all_items.len(),
        ensures
            final(self).wf(),
            same_frame(old(self), final(self)),
            final(self).phase == old(self).phase,
            item_added_and_spawned(&old(self).state, kind, &final(self).state, id),
    {
        let ghost s0 = self.state;
        let base = self.state.all_items[kind].config.base_stats;
        let item_id = self.state.player.items.insert(InventoryItem::new(kind, base));
        let ghost s_mid = self.state;
        proof {
            assert forall|b: int| #[trigger] arena_has(self.state.items@, b)
                implies arena_has(self.state.player.items@, board_of(&self.state, b).item_id as int) by {
                assert(arena_has(s0.items@, b));
            }
            assert forall|i: int| #[trigger] arena_has(self.state.player.items@, i)
                implies inv_of(&self.state, i).kind < self.state.all_items.len() by {
                if i < s0.player.items@.len() {
                    assert(arena_has(s0.player.items@, i));
                }
            }
            assert(empty_space_spec(&self.state) =~= empty_space_spec(&s0));
            assert forall|i: int| #[trigger] arena_has(self.state.player.items@, i)
                implies (inv_of(&self.state, i).on_board matches Some(b) ==> b < self.state.items@.len()) by {
                if i < s0.player.items@.len() {
                    assert(arena_has(s0.player.items@, i));
                }
            }
        }
        let empty = self.state.calculate_empty_space();
        let available = empty.difference(&self.state.visible_tiles);
        if !available.is_empty() {
            proof {
                available.lemma_view();
            }
            let position = pick_one(available.as_slice()).unwrap();
            proof {
                available.lemma_view();
                let i = choose|i: int| 0 <= i < available.elems().len() && available.elems()[i] == position;
                assert(available@.contains(available.elems()[i]@));
            }
            let on_board = self.state.items.insert(BoardItem { position, item_id, used: false });
            let mut inv = self.state.player.items.get(item_id).unwrap();
            inv.on_board = Some(on_board);
            self.state.player.items.set(item_id, inv);
            proof {
                assert forall|b: int| #[trigger] arena_has(self.state.items@, b)
                    implies arena_has(self.state.player.items@, board_of(&self.state, b).item_id as int) by {
                    if b < s0.items@.len() {
                        assert(arena_has(s0.items@, b));
                    }
                }
                assert forall|i: int| #[trigger] arena_has(self.state.player.items@, i)
                    implies inv_of(&self.state, i).kind < self.state.all_items.len() by {
                    if i < s0.player.items@.len() {
                        assert(arena_has(s0.player.items@, i));
                    }
                }
                assert(self.state.player.items@ =~= s0.player.items@.push(Some(InventoryItem {
                    on_board: Some(s0.items@.len() as usize),
                    kind,
                    turns_on_board: 0,
                    base_stats: base,
                    perm_stats: ItemStats { damage: None },
                    temp_stats: ItemStats { damage: None },
                })));
                assert(hidden_space_spec(&s0).contains(position@));
                assert forall|i: int| #[trigger] arena_has(self.state.player.items@, i)
                    implies (inv_of(&self.state, i).on_board matches Some(b) ==> b < self.state.items@.len()) by {
                    if i < s0.player.items@.len() {
                        assert(arena_has(s0.player.items@, i));
                    }
                }
            }
        } else {
            proof {
                assert(hidden_space_spec(&s0) =~= Set::<(int, int)>::empty());
            }
        }
        item_id
    }

    /// Applies to the model what an animation does when it ends. Returns the
    /// new inventory id when an item was duplicated, whose script the caller
    /// is to initialize.
    pub fn finish_animation(&mut self, kind: AnimationKind) -> (r: Option<Id>)
        requires
            old(self).wf(),
            kind matches AnimationKind::Dupe { kind } ==> kind < old(self).state.all_items.len(),
            kind matches AnimationKind::Bonus { target, bonus, permanent, .. } ==> (arena_has(old(self).state.items@, target as int) ==> {
                let inv = inv_of(&old(self).state, board_of(&old(self).state, target as int).item_id as int);
                if permanent { inv.perm_stats.combine_ok(&bonus) } else { inv.temp_stats.combine_ok(&bonus) }
            }),
        ensures
            animation_finished(old(self), kind, final(self), r),
            (kind matches AnimationKind::ItemDeath { item, .. } ==> death_safe(&old(self).state, item as int)) ==> final(self).wf(),
    {
        let ghost m0 = *self;
        let ghost s0 = self.state;
        let r = match kind {
            AnimationKind::MoveEntity { entity_id, target_pos } => {
                match self.state.entities.get(entity_id) {
                    Some(e) => {
                        self.state.entities.set(entity_id, Entity { position: target_pos, ..e });
                        proof {
                            assert forall|i: int| #[trigger] arena_has(self.state.entities@, i) implies entity_of(&self.state, i).health.wf() by {
                                assert(arena_has(s0.entities@, i));
                            }
                        }
                    },
                    None => {},
                }
                assert(animation_finished(&m0, kind, self, None));
                None
            },
            AnimationKind::MoveItem { item_id, target_pos } => {
                match self.state.items.get(item_id) {
                    Some(b) => {
                        self.state.items.set(item_id, BoardItem { position: target_pos, ..b });
                        proof {
                            assert forall|i: int| #[trigger] arena_has(self.state.items@, i)
                                implies arena_has(self.state.player.items@, board_of(&self.state, i).item_id as int) by {
                                assert(arena_has(s0.items@, i));
                            }
                        }
                    },
                    None => {},
                }
                assert(animation_finished(&m0, kind, self, None));
                None
            },
            AnimationKind::ItemEffect { .. } => None,
            AnimationKind::EntityDeath { entity, .. } => {
                self.state.entities.remove(entity);
                proof {
                    assert forall|i: int| #[trigger] arena_has(self.state.entities@, i) implies entity_of(&self.state, i).health.wf() by {
                        assert(arena_has(s0.entities@, i));
                    }
                }
                assert(animation_finished(&m0, kind, self, None));
                None
            },
            AnimationKind::ItemDeath { item, .. } => {
                match self.state.player.items.remove(item) {
                    Some(inv) => {
                        assert(inv == inv_of(&s0, item as int));
                        assert(self.state.player.items@ == s0.player.items@.update(item as int, None));
                        match inv.on_board {
                            Some(id) => {
                                assert(self.state.items@ == s0.items@);
                                self.state.items.remove(id);
                                assert(self.state.items@ == if arena_has(s0.items@, id as int) {
                                    s0.items@.update(id as int, None)
                                } else {
                                    s0.items@
                                });
                            },
                            None => {},
                        }
                        proof {
                            if death_safe(&s0, item as int) {
                                assert forall|b: int| #[trigger] arena_has(self.state.items@, b)
                                    implies arena_has(self.state.player.items@, board_of(&self.state, b).item_id as int) by {
                                    assert(arena_has(s0.items@, b));
                                    assert(board_of(&self.state, b) == board_of(&s0, b));
                                    if board_of(&s0, b).item_id == item {
                                        assert(inv.on_board.unwrap() as int == b);
                                        assert(self.state.items@ == s0.items@.update(b, None));
                                        assert(false);
                                    }
                                    assert(arena_has(s0.player.items@, board_of(&s0, b).item_id as int));
                                }
                            }
                            assert forall|i: int| #[trigger] arena_has(self.state.player.items@, i)
                                implies inv_of(&self.state, i).kind < self.state.all_items.len() by {
                                assert(arena_has(s0.player.items@, i));
                            }
                        }
                    },
                    None => {
                        assert(self.state == s0);
                    },
                }
                assert(animation_finished(&m0, kind, self, None));
                None
            },
            AnimationKind::Dupe { kind } => {
                let id = self.new_item_and_spawn(kind);
                Some(id)
            },
            AnimationKind::Damage { target, damage, .. } => {
                match self.state.entities.get(target) {
                    Some(e) => {
                        assert(arena_has(s0.entities@, target as int));
                        let mut e2 = e;
                        e2.health.change(-(damage as i128));
                        self.state.entities.set(target, e2);
                        assert(e2.position == e.position && e2.fraction == e.fraction && e2.kind == e.kind && e2.look_dir == e.look_dir);
                        assert(entity_of(&self.state, target as int) == e2);
                        assert(same_but_entities(&s0, &self.state));
                        proof {
                            assert forall|i: int| #[trigger] arena_has(self.state.entities@, i) implies entity_of(&self.state, i).health.wf() by {
                                if i != target {
                                    assert(arena_has(s0.entities@, i));
                                }
                            }
                        }
                    },
                    None => {},
                }
                assert(animation_finished(&m0, kind, self, None));
                None
            },
            AnimationKind::Bonus { target, bonus, permanent, .. } => {
                match self.state.items.get(target) {
                    Some(b) => {
                        assert(arena_has(s0.items@, target as int));
                        let inv = self.state.player.items.get(b.item_id).unwrap();
                        let updated = if permanent {
                            InventoryItem { perm_stats: inv.perm_stats.combine(&bonus), ..inv }
                        } else {
                            InventoryItem { temp_stats: inv.temp_stats.combine(&bonus), ..inv }
                        };
                        self.state.player.items.set(b.item_id, updated);
                        proof {
                            assert forall|i: int| #[trigger] arena_has(self.state.items@, i)
                                implies arena_has(self.state.player.items@, board_of(&self.state, i).item_id as int) by {
                                assert(arena_has(s0.items@, i));
                            }
                            assert forall|i: int| #[trigger] arena_has(self.state.player.items@, i)
                                implies inv_of(&self.state, i).kind < self.state.all_items.len() by {
                                assert(arena_has(s0.player.items@, i));
                            }
                        }
                    },
                    None => {},
                }
                assert(animation_finished(&m0, kind, self, None));
                None
            },
        };
        proof {
            if !(kind is Dupe) {
                crate::model::state::lemma_inventory_kept(&s0, &self.state);
            }
        }
        r
    }
}

} // verus!

use vstd::prelude::*;
use crate::geom::Pos;
use crate::arena::{arena_get, arena_has};
use crate::item::{BoardItem, Category, Id, InventoryItem, ItemFilter, ItemKind, ItemStats, Stats};
use crate::effect::{Effect, QueuedEffect};
use crate::animation::AnimationKind;
use crate::grid::light_up_spec;
use crate::model::state::{ModelState, board_of, inv_of, refs_ok, kinds_ok, health_ok};
use crate::model::vision::vision_spec;
use crate::model::game::{Model, Phase};

verus! {

/// What the caller has to carry out after an effect was resolved. The first
/// action is the resolving item's own animation; the rest start after it.
#[derive(Clone, Copy, PartialEq, Eq, Structural, Debug)]
pub enum EffectAction {
    /// Play an animation.
    Animate(AnimationKind),
    /// Compute the damage by calling the script function with handle
    /// `damage` on `stats`, then play a damage animation from `from` to `target`.
    Damage { from: Pos, target: Id, damage: usize, stats: Stats },
    /// Initialize the script of inventory item `item` afresh.
    ResetScript { item: Id },
}

/// `k` is the first kind called `name`.
pub open spec fn first_named(kinds: Seq<ItemKind>, name: Seq<char>, k: int) -> bool {
    &&& 0 <= k < kinds.len()
    &&& kinds[k].config.name@ == name
    &&& forall|j: int| 0 <= j < k ==> kinds[j].config.name@ != name
}

/// The index of the first kind called `name`.
pub open spec fn first_named_index(kinds: Seq<ItemKind>, name: Seq<char>) -> int {
    choose|k: int| first_named(kinds, name, k)
}

pub proof fn lemma_first_named_unique(kinds: Seq<ItemKind>, name: Seq<char>, k: int)
    requires
        first_named(kinds, name, k),
    ensures
        first_named_index(kinds, name) == k,
{
    let k2 = first_named_index(kinds, name);
    assert(first_named(kinds, name, k2));
    if k2 < k {
        assert(kinds[k2].config.name@ != name);
    }
    if k < k2 {
        assert(kinds[k].config.name@ != name);
    }
}

pub open spec fn none_named(kinds: Seq<ItemKind>, name: Seq<char>) -> bool {
    forall|j: int| 0 <= j < kinds.len() ==> kinds[j].config.name@ != name
}

/// The player owns a magic item.
pub open spec fn owns_magic(s: &ModelState) -> bool {
    exists|i: int| #[trigger] arena_has(s.player.items@, i)
        && ItemFilter::Category(Category::Magic).matches(&s.all_items@[inv_of(s, i).kind as int])
}

/// No board item shows inventory item `id`.
pub open spec fn no_board_refs(s: &ModelState, id: int) -> bool {
    forall|b: int| #[trigger] arena_has(s.items@, b) ==> board_of(s, b).item_id != id
}

/// Everything but the phase and the state is as before.
pub open spec fn same_frame(m0: &Model, m1: &Model) -> bool {
    &&& m1.config == m0.config
    &&& m1.level == m0.level
    &&& m1.turn == m0.turn
    &&& m1.score == m0.score
    &&& m1.effect_queue_stack == m0.effect_queue_stack
    &&& m1.resolution_queue == m0.resolution_queue
}

/// The state is as before but for its board items.
pub open spec fn same_but_board(s0: &ModelState, s1: &ModelState) -> bool {
    &&& s1.all_items == s0.all_items
    &&& s1.grid == s0.grid
    &&& s1.player == s0.player
    &&& s1.entities == s0.entities
    &&& s1.visible_tiles == s0.visible_tiles
}

/// The state is as before but for the player's inventory.
pub open spec fn same_but_inventory(s0: &ModelState, s1: &ModelState) -> bool {
    &&& s1.all_items == s0.all_items
    &&& s1.grid == s0.grid
    &&& s1.items == s0.items
    &&& s1.entities == s0.entities
    &&& s1.visible_tiles == s0.visible_tiles
    &&& s1.player.moves_left == s0.player.moves_left
    &&& s1.player.turns_left == s0.player.turns_left
    &&& s1.player.hearts == s0.player.hearts
    &&& s1.player.extra_items == s0.player.extra_items
    &&& s1.player.refreshes == s0.player.refreshes
}

/// How `effect`, produced by board item `proc` with stats `stats`, changes the
/// model from `m0` to `m1`, and the actions it asks for after the item's own
/// animation.
pub open spec fn effect_applied(
    m0: &Model,
    proc_id: int,
    proc: BoardItem,
    stats: Stats,
    effect: &Effect,
    m1: &Model,
    rest: Seq<EffectAction>,
) -> bool {
    let s0 = &m0.state;
    let s1 = &m1.state;
    same_frame(m0, m1) && match *effect {
        Effect::SetUsed { item_id } => {
            &&& rest.len() == 0
            &&& m1.phase == m0.phase
            &&& same_but_board(s0, s1)
            &&& s1.items@ == if arena_has(s0.items@, item_id as int) {
                s0.items@.update(item_id as int, Some(crate::item::BoardItem { used: true, ..board_of(s0, item_id as int) }))
            } else {
                s0.items@
            }
        },
        Effect::Damage { target, damage } => {
            &&& rest == seq![EffectAction::Damage { from: proc.position, target, damage, stats }]
            &&& m1.phase == m0.phase
            &&& *s1 == *s0
        },
        Effect::Bonus { from, target, bonus, permanent } => {
            &&& rest == seq![EffectAction::Animate(AnimationKind::Bonus { from, target, bonus, permanent })]
            &&& m1.phase == m0.phase
            &&& *s1 == *s0
        },
        Effect::OpenTiles { tiles } => {
            &&& rest.len() == 0
            &&& *s1 == *s0
            &&& m1.phase == Phase::MapTiles { tiles_left: tiles, next_phase: Box::new(m0.phase) }
        },
        Effect::Destroy { item_id } => {
            &&& m1.phase == m0.phase
            &&& if !arena_has(s0.player.items@, item_id as int) {
                rest.len() == 0 && *s1 == *s0
            } else {
                let inv = inv_of(s0, item_id as int);
                if inv.on_board is Some && arena_has(s0.items@, inv.on_board.unwrap() as int) {
                    &&& rest == seq![EffectAction::Animate(AnimationKind::ItemDeath {
                        item: item_id,
                        pos: board_of(s0, inv.on_board.unwrap() as int).position,
                    })]
                    &&& *s1 == *s0
                } else {
                    &&& rest.len() == 0
                    &&& same_but_inventory(s0, s1)
                    &&& s1.player.items@ == s0.player.items@.update(item_id as int, None)
                }
            }
        },
        Effect::Duplicate { item_id } => {
            &&& m1.phase == m0.phase
            &&& *s1 == *s0
            &&& rest == if arena_has(s0.player.items@, item_id as int) {
                seq![EffectAction::Animate(AnimationKind::Dupe { kind: inv_of(s0, item_id as int).kind })]
            } else {
                Seq::empty()
            }
        },
        Effect::GainMoves { moves } => {
            &&& rest.len() == 0
            &&& m1.phase == m0.phase
            &&& s1.all_items == s0.all_items
            &&& s1.grid == s0.grid
            &&& s1.items == s0.items
            &&& s1.entities == s0.entities
            &&& s1.visible_tiles == s0.visible_tiles
            &&& s1.player.items == s0.player.items
            &&& s1.player.turns_left == s0.player.turns_left
            &&& s1.player.hearts == s0.player.hearts
            &&& s1.player.extra_items == s0.player.extra_items
            &&& s1.player.refreshes == s0.player.refreshes
            &&& s1.player.moves_left == s0.player.moves_left + moves
        },
        Effect::Portal => {
            &&& rest.len() == 0
            &&& *s1 == *s0
            &&& m1.phase == if owns_magic(s0) { Phase::Portal { next_phase: Box::new(m0.phase) } } else { m0.phase }
        },
        Effect::SwapItems { board_a, board_b } => {
            &&& m1.phase == m0.phase
            &&& *s1 == *s0
            &&& rest == if arena_has(s0.items@, board_a as int) && arena_has(s0.items@, board_b as int) {
                seq![
                    EffectAction::Animate(AnimationKind::MoveItem { item_id: board_a, target_pos: board_of(s0, board_b as int).position }),
                    EffectAction::Animate(AnimationKind::MoveItem { item_id: board_b, target_pos: board_of(s0, board_a as int).position }),
                ]
            } else {
                Seq::empty()
            }
        },
        Effect::TransformItem { item_id, target_name } => {
            &&& m1.phase == m0.phase
            &&& if arena_has(s0.player.items@, item_id as int) && !none_named(s0.all_items@, target_name@) {
                exists|k: int| first_named(s0.all_items@, target_name@, k)
                    && rest == seq![EffectAction::ResetScript { item: item_id }]
                    && same_but_inventory(s0, s1)
                    && s1.player.items@ == s0.player.items@.update(item_id as int, Some(InventoryItem {
                        on_board: None,
                        kind: k as usize,
                        turns_on_board: 0,
                        base_stats: s0.all_items@[k].config.base_stats,
                        perm_stats: ItemStats { damage: None },
                        temp_stats: ItemStats { damage: None },
                    }))
            } else {
                rest.len() == 0 && *s1 == *s0
            }
        },
        Effect::EmitLight { position, radius, duration } => {
            &&& rest.len() == 0
            &&& m1.phase == m0.phase
            &&& s1.all_items == s0.all_items
            &&& s1.items == s0.items
            &&& s1.entities == s0.entities
            &&& s1.player == s0.player
            &&& s1.grid.tiles@ == s0.grid.tiles@
            &&& s1.grid.fractured@ == s0.grid.fractured@
            &&& s1.grid.lights@ == light_up_spec(s0.grid.lights@, s0.grid.tiles@, position@, radius as int, duration as int)
            &&& s1.visible_tiles@ == vision_spec(s1)
        },
        Effect::UseItem { .. } | Effect::NewItem { .. } => {
            &&& rest.len() == 0
            &&& m1.phase == m0.phase
            &&& *s1 == *s0
        },
    }
}

/// What resolving `effect` needs when the item that produced it is still on
/// the board: that item's stats can be combined, and gained moves fit.
pub open spec fn effect_ready(m: &Model, effect: &QueuedEffect) -> bool {
    arena_has(m.state.items@, effect.proc_item as int) ==> {
        &&& inv_of(&m.state, board_of(&m.state, effect.proc_item as int).item_id as int).stats_ok()
        &&& effect.effect matches Effect::GainMoves { moves } ==> m.state.player.moves_left + moves <= usize::MAX
    }
}

/// A destroyed item is not shown on the board.
pub open spec fn destroy_safe(m: &Model, effect: &QueuedEffect) -> bool {
    effect.effect matches Effect::Destroy { item_id } ==> no_board_refs(&m.state, item_id as int)
}

/// What resolving `effect` does: nothing when the item that produced it has
/// left the board; otherwise the item's own animation comes first, and the
/// effect is applied.
pub open spec fn effect_resolved(m0: &Model, effect: &QueuedEffect, m1: &Model, r: Option<Vec<EffectAction>>) -> bool {
    let id = effect.proc_item as int;
    if !arena_has(m0.state.items@, id) {
        r is None && *m1 == *m0
    } else {
        r matches Some(acts)
            && acts@.len() >= 1
            && acts@[0] == EffectAction::Animate(AnimationKind::ItemEffect { item: effect.proc_item })
            && effect_applied(m0, id, board_of(&m0.state, id), script_stats(&m0.state, id), &effect.effect, m1, acts@.skip(1))
    }
}

/// The stats that scripts see for board item `b`.
pub open spec fn script_stats(s: &ModelState, b: int) -> Stats {
    Stats {
        damage: match inv_of(s, board_of(s, b).item_id as int).current_stats_spec().damage {
            Some(d) => d,
            None => 0,
        },
    }
}

/// The index of the first kind called `name`, if any.
pub fn find_kind(kinds: &Vec<ItemKind>, name: &String) -> (r: Option<usize>)
    ensures
        r matches Some(k) ==> first_named(kinds@, name@, k as int),
        r is None ==> none_named(kinds@, name@),
{
    let n = kinds.len();
    for i in 0..n
        invariant
            n == kinds.len(),
            forall|j: int| 0 <= j < i ==> kinds@[j].config.name@ != name@,
    {
        if kinds[i].config.name == *name {
            return Some(i);
        }
    }
    None
}

impl ModelState {
    /// Whether the player owns a magic item.
    pub fn has_magic_item(&self) -> (b: bool)
        requires
            self.wf(),
        ensures
            b == owns_magic(self),
    {
        let n = self.player.items.id_bound();
        let magic = ItemFilter::Category(Category::Magic);
        for i in 0..n
            invariant
                n == self.player.items@.len(),
                self.wf(),
                magic == ItemFilter::Category(Category::Magic),
                forall|j: int| 0 <= j < i && #[trigger] arena_has(self.player.items@, j)
                    ==> !ItemFilter::Category(Category::Magic).matches(&self.all_items@[inv_of(self, j).kind as int]),
        {
            match self.player.items.get(i) {
                Some(inv) => {
                    assert(arena_has(self.player.items@, i as int));
                    if magic.check(&self.all_items[inv.kind]) {
                        return true;
                    }
                },
                None => {},
            }
        }
        false
    }
}

impl Model {
    /// Carries out a queued effect. Returns `None` when the item that produced
    /// it is no longer on the board; otherwise the actions the caller is to
    /// carry out, starting with the item's own animation.
    pub fn resolve_effect(&mut self, effect: QueuedEffect) -> (r: Option<Vec<EffectAction>>)
        requires
            old(self).wf(),
            effect_ready(old(self), &effect),
        ensures
            effect_resolved(old(self), &effect, final(self), r),
            destroy_safe(old(self), &effect) ==> final(self).wf(),
    {
        let proc_id = effect.proc_item;
        let proc = match self.state.items.get(proc_id) {
            Some(b) => b,
            None => return None,
        };
        assert(arena_has(self.state.items@, proc_id as int));
        let inv = self.state.player.items.get(proc.item_id).unwrap();
        let stats = Stats::from_item_stats(inv.current_stats());
        let mut actions: Vec<EffectAction> = Vec::new();
        actions.push(EffectAction::Animate(AnimationKind::ItemEffect { item: proc_id }));
        let ghost m0 = *self;
        let ghost e0 = effect;
        assert(stats == script_stats(&m0.state, proc_id as int));
        match effect.effect {
            Effect::SetUsed { item_id } => {
                match self.state.items.get(item_id) {
                    Some(item) => {
                        self.state.items.set(item_id, BoardItem { used: true, ..item });
                        assert forall|b: int| #[trigger] arena_has(self.state.items@, b)
                            implies arena_has(self.state.player.items@, board_of(&self.state, b).item_id as int) by {
                            assert(arena_has(m0.state.items@, b));
                        }
                    },
                    None => {},
                }
                assert(actions@.skip(1) =~= actions@.subrange(1, actions@.len() as int));
                proof {
                    if actions@.len() == 1 {
                        assert(actions@.skip(1) =~= Seq::<EffectAction>::empty());
                    }
                }
                assert(effect_applied(&m0, proc_id as int, proc, stats, &e0.effect, self, actions@.skip(1)));
            },
            Effect::Damage { target, damage } => {
                actions.push(EffectAction::Damage { from: proc.position, target, damage, stats });
                assert(actions@.skip(1) =~= seq![EffectAction::Damage { from: proc.position, target, damage, stats }]);
                assert(effect_applied(&m0, proc_id as int, proc, stats, &e0.effect, self, actions@.skip(1)));
            },
            Effect::Bonus { from, target, bonus, permanent } => {
                actions.push(EffectAction::Animate(AnimationKind::Bonus { from, target, bonus, permanent }));
                assert(actions@.skip(1) =~= seq![EffectAction::Animate(AnimationKind::Bonus { from, target, bonus, permanent })]);
                assert(effect_applied(&m0, proc_id as int, proc, stats, &e0.effect, self, actions@.skip(1)));
            },
            Effect::OpenTiles { tiles } => {
                let mut next_phase = Phase::Vision;
                std::mem::swap(&mut self.phase, &mut next_phase);
                self.phase = Phase::MapTiles { tiles_left: tiles, next_phase: Box::new(next_phase) };
                assert(actions@.skip(1) =~= actions@.subrange(1, actions@.len() as int));
                proof {
                    if actions@.len() == 1 {
                        assert(actions@.skip(1) =~= Seq::<EffectAction>::empty());
                    }
                }
                assert(effect_applied(&m0, proc_id as int, proc, stats, &e0.effect, self, actions@.skip(1)));
            },
            Effect::Destroy { item_id } => {
                match self.state.player.items.get(item_id) {
                    Some(item) => {
                        let on_board = match item.on_board {
                            Some(b) => self.state.items.get(b),
                            None => None,
                        };
                        match on_board {
                            Some(board) => {
                                actions.push(EffectAction::Animate(AnimationKind::ItemDeath { item: item_id, pos: board.position }));
                                assert(actions@.skip(1) =~= seq![EffectAction::Animate(AnimationKind::ItemDeath { item: item_id, pos: board.position })]);
                            },
                            None => {
                                self.state.player.items.remove(item_id);
                                proof {
                                    if no_board_refs(&m0.state, item_id as int) {
                                        assert forall|b: int| #[trigger] arena_has(self.state.items@, b)
                                            implies arena_has(self.state.player.items@, board_of(&self.state, b).item_id as int) by {
                                            assert(arena_has(m0.state.items@, b));
                                        }
                                    }
                                    assert forall|i: int| #[trigger] arena_has(self.state.player.items@, i)
                                        implies inv_of(&self.state, i).kind < self.state.all_items.len() by {
                                        assert(arena_has(m0.state.player.items@, i));
                                    }
                                }
                            },
                        }
                    },
                    None => {},
                }
                assert(actions@.skip(1) =~= actions@.subrange(1, actions@.len() as int));
                proof {
                    if actions@.len() == 1 {
                        assert(actions@.skip(1) =~= Seq::<EffectAction>::empty());
                    }
                }
                assert(effect_applied(&m0, proc_id as int, proc, stats, &e0.effect, self, actions@.skip(1)));
            },
            Effect::Duplicate { item_id } => {
                match self.state.player.items.get(item_id) {
                    Some(item) => {
                        actions.push(EffectAction::Animate(AnimationKind::Dupe { kind: item.kind }));
                        assert(actions@.skip(1) =~= seq![EffectAction::Animate(AnimationKind::Dupe { kind: item.kind })]);
                    },
                    None => {},
                }
                assert(actions@.skip(1) =~= actions@.subrange(1, actions@.len() as int));
                proof {
                    if actions@.len() == 1 {
                        assert(actions@.skip(1) =~= Seq::<EffectAction>::empty());
                    }
                }
                assert(effect_applied(&m0, proc_id as int, proc, stats, &e0.effect, self, actions@.skip(1)));
            },
            Effect::GainMoves { moves } => {
                self.state.player.moves_left = self.state.player.moves_left + moves;
                assert(actions@.skip(1) =~= actions@.subrange(1, actions@.len() as int));
                proof {
                    if actions@.len() == 1 {
                        assert(actions@.skip(1) =~= Seq::<EffectAction>::empty());
                    }
                }
                assert(effect_applied(&m0, proc_id as int, proc, stats, &e0.effect, self, actions@.skip(1)));
            },
            Effect::Portal => {
                if self.state.has_magic_item() {
                    let mut next_phase = Phase::Vision;
                    std::mem::swap(&mut self.phase, &mut next_phase);
                    self.phase = Phase::Portal { next_phase: Box::new(next_phase) };
                }
                assert(actions@.skip(1) =~= actions@.subrange(1, actions@.len() as int));
                proof {
                    if actions@.len() == 1 {
                        assert(actions@.skip(1) =~= Seq::<EffectAction>::empty());
                    }
                }
                assert(effect_applied(&m0, proc_id as int, proc, stats, &e0.effect, self, actions@.skip(1)));
            },
            Effect::SwapItems { board_a, board_b } => {
                match self.state.items.get(board_a) {
                    Some(a) => match self.state.items.get(board_b) {
                        Some(b) => {
                            actions.push(EffectAction::Animate(AnimationKind::MoveItem { item_id: board_a, target_pos: b.position }));
                            actions.push(EffectAction::Animate(AnimationKind::MoveItem { item_id: board_b, target_pos: a.position }));
                            assert(actions@.skip(1) =~= seq![
                                EffectAction::Animate(AnimationKind::MoveItem { item_id: board_a, target_pos: b.position }),
                                EffectAction::Animate(AnimationKind::MoveItem { item_id: board_b, target_pos: a.position }),
                            ]);
                        },
                        None => {},
                    },
                    None => {},
                }
                assert(actions@.skip(1) =~= actions@.subrange(1, actions@.len() as int));
                proof {
                    if actions@.len() == 1 {
                        assert(actions@.skip(1) =~= Seq::<EffectAction>::empty());
                    }
                }
                assert(effect_applied(&m0, proc_id as int, proc, stats, &e0.effect, self, actions@.skip(1)));
            },
            Effect::TransformItem { item_id, target_name } => {
                if self.state.player.items.contains(item_id) {
                    match find_kind(&self.state.all_items, &target_name) {
                        Some(k) => {
                            let base = self.state.all_items[k].config.base_stats;
                            self.state.player.items.set(item_id, InventoryItem::new(k, base));
                            actions.push(EffectAction::ResetScript { item: item_id });
                            assert(actions@.skip(1) =~= seq![EffectAction::ResetScript { item: item_id }]);
                            proof {
                                assert forall|b: int| #[trigger] arena_has(self.state.items@, b)
                                    implies arena_has(self.state.player.items@, board_of(&self.state, b).item_id as int) by {
                                    assert(arena_has(m0.state.items@, b));
                                }
                                assert forall|i: int| #[trigger] arena_has(self.state.player.items@, i)
                                    implies inv_of(&self.state, i).kind < self.state.all_items.len() by {
                                    if i != item_id {
                                        assert(arena_has(m0.state.player.items@, i));
                                    }
                                }
                                assert forall|i: int| #[trigger] arena_has(self.state.player.items@, i)
                                    implies (inv_of(&self.state, i).on_board matches Some(b) ==> b < self.state.items@.len()) by {
                                    if i != item_id {
                                        assert(arena_has(m0.state.player.items@, i));
                                    }
                                }
                            }
                        },
                        None => {},
                    }
                }
                assert(actions@.skip(1) =~= actions@.subrange(1, actions@.len() as int));
                proof {
                    if actions@.len() == 1 {
                        assert(actions@.skip(1) =~= Seq::<EffectAction>::empty());
                    }
                }
                assert(effect_applied(&m0, proc_id as int, proc, stats, &e0.effect, self, actions@.skip(1)));
            },
            Effect::EmitLight { position, radius, duration } => {
                self.state.grid.light_up(position, radius, duration);
                let ghost mid = self.state;
                self.state.update_vision();
                proof {
                    crate::model::vision::lemma_vision_depends(&self.state, &mid);
                }
                assert(effect_applied(&m0, proc_id as int, proc, stats, &e0.effect, self, actions@.skip(1)));
            },
            Effect::UseItem { .. } => {
                assert(actions@.skip(1) =~= Seq::<EffectAction>::empty());
            },
            Effect::NewItem { .. } => {
                assert(actions@.skip(1) =~= Seq::<EffectAction>::empty());
            },
        }
        proof {
            if !(e0.effect is TransformItem) {
                crate::model::state::lemma_inventory_kept(&m0.state, &self.state);
            }
        }
        assert(actions@.skip(1) =~= actions@.subrange(1, actions@.len() as int));
        assert(same_frame(&m0, self));
        assert(effect_applied(&m0, proc_id as int, proc, stats, &e0.effect, self, actions@.skip(1)));
        Some(actions)
    }
}

} // verus!

use vstd::prelude::*;
use crate::geom::{Coord, Pos, distance, distance_manhattan, distance_spec, distance_manhattan_spec};
use crate::arena::{arena_get, arena_has};
use crate::item::{Category, Id, InventoryItem, ItemFilter, ItemStats, Target, BoardItem};
use crate::entity::Fraction;
use crate::effect::Effect;
use crate::random::pick_one;
use crate::model::state::{ModelState, board_of, inv_of, entity_of};

verus! {

/// The effects a script asks for while it runs.
pub struct ScriptEffects {
    pub effects: Vec<Effect>,
}

impl ScriptEffects {
    pub fn new() -> (s: ScriptEffects)
        ensures
            s.effects@.len() == 0,
    {
        ScriptEffects { effects: Vec::new() }
    }

    pub fn damage(&mut self, target: Id, damage: usize)
        ensures
            final(self).effects@ == old(self).effects@.push(Effect::Damage { target, damage }),
    {
        self.effects.push(Effect::Damage { target, damage });
    }

    pub fn bonus(&mut self, from: Pos, target: Id, bonus: ItemStats, permanent: bool)
        ensures
            final(self).effects@ == old(self).effects@.push(Effect::Bonus { from, target, bonus, permanent }),
    {
        self.effects.push(Effect::Bonus { from, target, bonus, permanent });
    }

    pub fn open_tiles(&mut self, tiles: usize)
        ensures
            final(self).effects@ == old(self).effects@.push(Effect::OpenTiles { tiles }),
    {
        self.effects.push(Effect::OpenTiles { tiles });
    }

    pub fn destroy(&mut self, item_id: Id)
        ensures
            final(self).effects@ == old(self).effects@.push(Effect::Destroy { item_id }),
    {
        self.effects.push(Effect::Destroy { item_id });
    }

    pub fn duplicate(&mut self, item_id: Id)
        ensures
            final(self).effects@ == old(self).effects@.push(Effect::Duplicate { item_id }),
    {
        self.effects.push(Effect::Duplicate { item_id });
    }

    pub fn gain_moves(&mut self, moves: usize)
        ensures
            final(self).effects@ == old(self).effects@.push(Effect::GainMoves { moves }),
    {
        self.effects.push(Effect::GainMoves { moves });
    }

    pub fn portal(&mut self)
        ensures
            final(self).effects@ == old(self).effects@.push(Effect::Portal),
    {
        self.effects.push(Effect::Portal);
    }

    pub fn swap_items(&mut self, board_a: Id, board_b: Id)
        ensures
            final(self).effects@ == old(self).effects@.push(Effect::SwapItems { board_a, board_b }),
    {
        self.effects.push(Effect::SwapItems { board_a, board_b });
    }

    pub fn transform_item(&mut self, item: Id, target_name: &str)
        ensures
            final(self).effects@.len() == old(self).effects@.len() + 1,
            final(self).effects@.drop_last() == old(self).effects@,
            final(self).effects@.last() matches Effect::TransformItem { item_id, target_name: t }
                && item_id == item && t@ == target_name@,
    {
        self.effects.push(Effect::TransformItem { item_id: item, target_name: target_name.to_owned() });
        assert(self.effects@.drop_last() =~= old(self).effects@);
    }

    pub fn emit_light(&mut self, position: Pos, radius: Coord, duration: usize)
        ensures
            final(self).effects@ == old(self).effects@.push(Effect::EmitLight { position, radius, duration }),
    {
        self.effects.push(Effect::EmitLight { position, radius, duration });
    }

    pub fn use_item(&mut self, item: Id)
        ensures
            final(self).effects@ == old(self).effects@.push(Effect::UseItem { item }),
    {
        self.effects.push(Effect::UseItem { item });
    }

    pub fn new_item(&mut self, kind: usize)
        ensures
            final(self).effects@ == old(self).effects@.push(Effect::NewItem { kind }),
    {
        self.effects.push(Effect::NewItem { kind });
    }
}

/// An item as a script running for it sees it: the model, the effects asked
/// for so far, the item on the board and the item in the inventory.
pub struct ScriptItem<'a> {
    pub model: &'a ModelState,
    pub effects: ScriptEffects,
    pub board_item: BoardItem,
    pub item: InventoryItem,
}

/// An entity that a player's item can hit.
pub open spec fn is_foe(s: &ModelState, i: int) -> bool {
    arena_has(s.entities@, i) && entity_of(s, i).fraction != Fraction::Player
}

/// `t` is the first foe at the least distance from `from`.
pub open spec fn nearest_foe(s: &ModelState, from: (int, int), t: int) -> bool {
    &&& is_foe(s, t)
    &&& forall|j: int| #[trigger] is_foe(s, j) ==> distance_spec(entity_of(s, j).position@, from) >= distance_spec(entity_of(s, t).position@, from)
    &&& forall|j: int| 0 <= j < t && #[trigger] is_foe(s, j) ==> distance_spec(entity_of(s, j).position@, from) > distance_spec(entity_of(s, t).position@, from)
}

/// The ways an item hands out or collects bonuses.
#[derive(Clone, Copy, PartialEq, Eq, Structural, Debug)]
pub enum BonusRule {
    /// From each item within `range`, to this item.
    FromNearby { range: Coord },
    /// From each orthogonally adjacent item, to this item.
    FromConnected,
    /// To each item within `range`.
    ToNearby { range: Coord },
    /// To every item.
    ToAll,
}

/// Whether board item `b` takes part in a bonus by `rule` of an item at `me`.
pub open spec fn rule_applies(rule: BonusRule, s: &ModelState, me: (int, int), b: BoardItem, filter: &ItemFilter) -> bool {
    let kind_ok = filter.matches(&s.all_items@[inv_of(s, b.item_id as int).kind as int]);
    match rule {
        BonusRule::FromNearby { range } => 1 <= distance_spec(b.position@, me) <= range && kind_ok,
        BonusRule::FromConnected => distance_manhattan_spec(b.position@, me) == 1 && kind_ok,
        BonusRule::ToNearby { range } => 1 <= distance_spec(b.position@, me) <= range && kind_ok,
        BonusRule::ToAll => kind_ok,
    }
}

/// The bonus effect for board item `id` by `rule`, from an item at `me_pos` whose board id is `me_id`.
pub open spec fn rule_effect(rule: BonusRule, me_pos: Pos, me_id: Id, id: Id, b: BoardItem, bonus: ItemStats, permanent: bool) -> Effect {
    match rule {
        BonusRule::FromNearby { .. } | BonusRule::FromConnected => Effect::Bonus { from: b.position, target: me_id, bonus, permanent },
        BonusRule::ToNearby { .. } | BonusRule::ToAll => Effect::Bonus { from: me_pos, target: id, bonus, permanent },
    }
}

/// The bonus effects of `rule` over the board items with ids below `n`, in id order.
pub open spec fn bonus_seq(
    rule: BonusRule,
    s: &ModelState,
    me_pos: Pos,
    me_id: Id,
    filter: &ItemFilter,
    bonus: ItemStats,
    permanent: bool,
    n: int,
) -> Seq<Effect>
    decreases n,
{
    if n <= 0 {
        Seq::empty()
    } else {
        let prev = bonus_seq(rule, s, me_pos, me_id, filter, bonus, permanent, n - 1);
        match arena_get(s.items@, n - 1) {
            Some(b) => if rule_applies(rule, s, me_pos@, b, filter) {
                prev.push(rule_effect(rule, me_pos, me_id, (n - 1) as Id, b, bonus, permanent))
            } else {
                prev
            },
            None => prev,
        }
    }
}

/// Some board item takes part in a bonus by `rule` of an item at `me`.
pub open spec fn some_applies(rule: BonusRule, s: &ModelState, me: (int, int), filter: &ItemFilter) -> bool {
    exists|i: int| #[trigger] arena_has(s.items@, i) && rule_applies(rule, s, me, board_of(s, i), filter)
}

/// The rule sends its bonuses to the item that runs it.
pub open spec fn to_self(rule: BonusRule) -> bool {
    rule is FromNearby || rule is FromConnected
}

/// Who takes part in a bonus, with the offsets written out: a nearby item is
/// within `range` on both axes but not on the same tile; a connected item is
/// one step away along one axis, so a diagonal neighbour never is; and the
/// item's kind passes the filter.
pub proof fn law_bonus_membership(rule: BonusRule, s: &ModelState, me: (int, int), b: BoardItem, filter: &ItemFilter)
    ensures
        ({
            let dx = b.position.x - me.0;
            let dy = b.position.y - me.1;
            let ax = if dx < 0 { -dx } else { dx };
            let ay = if dy < 0 { -dy } else { dy };
            let kind_ok = filter.matches(&s.all_items@[inv_of(s, b.item_id as int).kind as int]);
            rule_applies(rule, s, me, b, filter) == match rule {
                BonusRule::FromNearby { range } => (ax > 0 || ay > 0) && ax <= range && ay <= range && kind_ok,
                BonusRule::ToNearby { range } => (ax > 0 || ay > 0) && ax <= range && ay <= range && kind_ok,
                BonusRule::FromConnected => ((ax == 1 && dy == 0) || (dx == 0 && ay == 1)) && kind_ok,
                BonusRule::ToAll => kind_ok,
            }
        }),
{
}

/// A bonus gathered from connected items comes only from tiles one
/// orthogonal step away.
pub proof fn law_connected_sources(s: &ModelState, me_pos: Pos, me_id: Id, filter: &ItemFilter, bonus: ItemStats,
    permanent: bool, n: int, k: int)
    requires
        0 <= k < bonus_seq(BonusRule::FromConnected, s, me_pos, me_id, filter, bonus, permanent, n).len(),
    ensures
        bonus_seq(BonusRule::FromConnected, s, me_pos, me_id, filter, bonus, permanent, n)[k] matches Effect::Bonus { from, target, .. }
            && target == me_id
            && (from.x - me_pos.x) * (from.x - me_pos.x) + (from.y - me_pos.y) * (from.y - me_pos.y) == 1,
    decreases n,
{
    let prev = bonus_seq(BonusRule::FromConnected, s, me_pos, me_id, filter, bonus, permanent, n - 1);
    if k < prev.len() {
        law_connected_sources(s, me_pos, me_id, filter, bonus, permanent, n - 1, k);
    } else {
        let b = arena_get(s.items@, n - 1).unwrap();
        law_bonus_membership(BonusRule::FromConnected, s, me_pos@, b, filter);
        let dx = b.position.x - me_pos.x;
        let dy = b.position.y - me_pos.y;
        assert(dx * dx + dy * dy == 1) by (nonlinear_arith)
            requires
                (dx == 1 || dx == -1) && dy == 0 || dx == 0 && (dy == 1 || dy == -1);
    }
}

/// Board item `i` is within `range` of `me` and passes `filter`.
pub open spec fn nearby_match(s: &ModelState, me: (int, int), range: int, filter: &ItemFilter, i: int) -> bool {
    &&& arena_has(s.items@, i)
    &&& 1 <= distance_spec(board_of(s, i).position@, me) <= range
    &&& filter.matches(&s.all_items@[inv_of(s, board_of(s, i).item_id as int).kind as int])
}

/// Every board id with a board item is below `n`.
pub open spec fn ids_below(s: &ModelState, n: int) -> bool {
    forall|i: int| #[trigger] arena_has(s.items@, i) ==> i < n
}

impl<'a> ScriptItem<'a> {
    pub open spec fn me(&self) -> Pos {
        self.board_item.position
    }

    /// Attacks the nearest foe, or a random one.
    pub fn damage(&mut self, target: Target, damage: usize)
        requires
            old(self).model.wf(),
        ensures
            final(self).model == old(self).model,
            final(self).board_item == old(self).board_item,
            final(self).item == old(self).item,
            (exists|i: int| is_foe(old(self).model, i)) ==> (exists|t: int| #![trigger is_foe(old(self).model, t)]
                final(self).effects.effects@ == old(self).effects.effects@.push(Effect::Damage { target: t as Id, damage })
                && (target == Target::Nearest ==> nearest_foe(old(self).model, old(self).me()@, t))
                && is_foe(old(self).model, t)),
            !(exists|i: int| is_foe(old(self).model, i)) ==> final(self).effects == old(self).effects,
    {
        let s = self.model;
        let me = self.board_item.position;
        let n = s.entities.id_bound();
        let chosen: Option<usize> = match target {
            Target::Nearest => {
                let mut best: Option<usize> = None;
                let mut best_dist: i128 = 0;
                for i in 0..n
                    invariant
                        n == s.entities@.len(),
                        best matches Some(t) ==> t < i && is_foe(s, t as int)
                            && best_dist == distance_spec(entity_of(s, t as int).position@, me@)
                            && (forall|j: int| 0 <= j < i && #[trigger] is_foe(s, j) ==> distance_spec(entity_of(s, j).position@, me@) >= best_dist)
                            && (forall|j: int| 0 <= j < t && #[trigger] is_foe(s, j) ==> distance_spec(entity_of(s, j).position@, me@) > best_dist),
                        best is None ==> forall|j: int| 0 <= j < i ==> !#[trigger] is_foe(s, j),
                {
                    match s.entities.get(i) {
                        Some(e) => {
                            if e.fraction != Fraction::Player {
                                let d = distance(e.position, me);
                                match best {
                                    Some(_) => {
                                        if d < best_dist {
                                            best = Some(i);
                                            best_dist = d;
                                        }
                                    },
                                    None => {
                                        best = Some(i);
                                        best_dist = d;
                                    },
                                }
                            }
                        },
                        None => {},
                    }
                }
                proof {
                    if let Some(t) = best {
                        assert forall|j: int| #[trigger] is_foe(s, j) implies distance_spec(entity_of(s, j).position@, me@)
                            >= distance_spec(entity_of(s, t as int).position@, me@) by {
                            assert(0 <= j < n);
                        }
                    } else {
                        assert forall|j: int| !#[trigger] is_foe(s, j) by {
                            if is_foe(s, j) {
                                assert(0 <= j < n);
                            }
                        }
                    }
                }
                best
            },
            Target::Random => {
                let mut foes: Vec<usize> = Vec::new();
                for i in 0..n
                    invariant
                        n == s.entities@.len(),
                        forall|j: int| 0 <= j < foes.len() ==> is_foe(s, #[trigger] foes[j] as int),
                        forall|j: int| 0 <= j < i && #[trigger] is_foe(s, j) ==> foes@.contains(j as usize),
                {
                    match s.entities.get(i) {
                        Some(e) => {
                            if e.fraction != Fraction::Player {
                                let ghost before = foes@;
                                foes.push(i);
                                assert(foes@[foes.len() - 1] == i);
                                assert forall|j: int| 0 <= j < i && #[trigger] is_foe(s, j) implies foes@.contains(j as usize) by {
                                    let k = choose|k: int| 0 <= k < before.len() && before[k] == j as usize;
                                    assert(foes@[k] == j as usize);
                                }
                            }
                        },
                        None => {},
                    }
                }
                let r = pick_one(foes.as_slice());
                proof {
                    if let Some(t) = r {
                        let k = choose|k: int| 0 <= k < foes@.len() && foes@[k] == t;
                        assert(is_foe(s, foes[k] as int));
                    } else {
                        assert forall|j: int| !#[trigger] is_foe(s, j) by {
                            if is_foe(s, j) {
                                assert(0 <= j < n);
                                assert(foes@.contains(j as usize));
                            }
                        }
                    }
                }
                r
            },
        };
        match chosen {
            Some(t) => {
                self.effects.damage(t, damage);
            },
            None => {},
        }
    }

    /// Gives this item a bonus.
    pub fn bonus(&mut self, bonus: ItemStats, permanent: bool)
        requires
            old(self).item.on_board is Some,
        ensures
            final(self).model == old(self).model,
            final(self).board_item == old(self).board_item,
            final(self).item == old(self).item,
            final(self).effects.effects@ == old(self).effects.effects@.push(Effect::Bonus {
                from: old(self).board_item.position,
                target: old(self).item.on_board.unwrap(),
                bonus,
                permanent,
            }),
    {
        self.effects.bonus(self.board_item.position, self.item.on_board.unwrap(), bonus, permanent);
    }

    /// Whether board item `b` takes part in a bonus by `rule` of this item.
    fn applies_to(&self, rule: BonusRule, filter: &ItemFilter, b: BoardItem) -> (r: bool)
        requires
            self.model.wf(),
            arena_has(self.model.player.items@, b.item_id as int),
        ensures
            r == rule_applies(rule, self.model, self.me()@, b, filter),
    {
        let s = self.model;
        let me = self.board_item.position;
        let inv = s.player.items.get(b.item_id).unwrap();
        let kind_ok = filter.check(&s.all_items[inv.kind]);
        match rule {
            BonusRule::FromNearby { range } => {
                let d = distance(b.position, me);
                1 <= d && d <= range as i128 && kind_ok
            },
            BonusRule::FromConnected => distance_manhattan(b.position, me) == 1 && kind_ok,
            BonusRule::ToNearby { range } => {
                let d = distance(b.position, me);
                1 <= d && d <= range as i128 && kind_ok
            },
            BonusRule::ToAll => kind_ok,
        }
    }

    /// Asks for the bonuses of `rule`, one per matching board item in id order.
    fn push_bonuses(&mut self, rule: BonusRule, filter: &ItemFilter, bonus: ItemStats, permanent: bool)
        requires
            old(self).model.wf(),
            to_self(rule) && some_applies(rule, old(self).model, old(self).board_item.position@, filter)
                ==> old(self).item.on_board is Some,
        ensures
            final(self).model == old(self).model,
            final(self).board_item == old(self).board_item,
            final(self).item == old(self).item,
            final(self).effects.effects@ == old(self).effects.effects@ + bonus_seq(rule, old(self).model,
                old(self).board_item.position, old(self).item.on_board.unwrap(), filter, bonus, permanent,
                old(self).model.items@.len() as int),
    {
        let s = self.model;
        let me = self.board_item.position;
        let ghost me_id = old(self).item.on_board.unwrap();
        let n = s.items.id_bound();
        let ghost start = self.effects.effects@;
        for i in 0..n
            invariant
                n == s.items@.len(),
                s == old(self).model,
                s.wf(),
                me == old(self).board_item.position,
                me_id == old(self).item.on_board.unwrap(),
                to_self(rule) && some_applies(rule, s, me@, filter) ==> old(self).item.on_board is Some,
                self.model == old(self).model,
                self.board_item == old(self).board_item,
                self.item == old(self).item,
                start == old(self).effects.effects@,
                self.effects.effects@ == start + bonus_seq(rule, s, me, me_id, filter, bonus, permanent, i as int),
        {
            match s.items.get(i) {
                Some(b) => {
                    assert(arena_has(s.items@, i as int));
                    assert(arena_has(s.player.items@, b.item_id as int));
                    let applies = self.applies_to(rule, filter, b);
                    assert(applies == rule_applies(rule, s, me@, b, filter));
                    if applies {
                        match rule {
                            BonusRule::FromNearby { .. } | BonusRule::FromConnected => {
                                assert(arena_has(s.items@, i as int) && rule_applies(rule, s, me@, board_of(s, i as int), filter));
                                let target = self.item.on_board.unwrap();
                                self.effects.bonus(b.position, target, bonus, permanent);
                            },
                            BonusRule::ToNearby { .. } | BonusRule::ToAll => {
                                self.effects.bonus(me, i, bonus, permanent);
                            },
                        }
                    }
                },
                None => {},
            }
            assert(self.effects.effects@ =~= start + bonus_seq(rule, s, me, me_id, filter, bonus, permanent, i + 1));
        }
    }

    /// Whether some board item takes part in a bonus by `rule` of this item.
    pub fn bonus_applies_somewhere(&self, rule: BonusRule, filter: &ItemFilter) -> (b: bool)
        requires
            self.model.wf(),
        ensures
            b == some_applies(rule, self.model, self.me()@, filter),
    {
        let s = self.model;
        let me = self.board_item.position;
        let n = s.items.id_bound();
        for i in 0..n
            invariant
                n == s.items@.len(),
                s == self.model,
                s.wf(),
                me == self.board_item.position,
                forall|j: int| 0 <= j < i && #[trigger] arena_has(s.items@, j) ==> !rule_applies(rule, s, me@, board_of(s, j), filter),
        {
            match s.items.get(i) {
                Some(b) => {
                    assert(arena_has(s.items@, i as int));
                    assert(arena_has(s.player.items@, b.item_id as int));
                    let applies = self.applies_to(rule, filter, b);
                    if applies {
                        assert(rule_applies(rule, s, me@, board_of(s, i as int), filter));
                        return true;
                    }
                },
                None => {},
            }
        }
        false
    }

    /// A bonus to this item from each item within `range` that passes `filter`.
    pub fn bonus_from_nearby(&mut self, range: Coord, filter: ItemFilter, bonus: ItemStats, permanent: bool)
        requires
            old(self).model.wf(),
            some_applies(BonusRule::FromNearby { range }, old(self).model, old(self).board_item.position@, &filter)
                ==> old(self).item.on_board is Some,
        ensures
            final(self).model == old(self).model,
            final(self).board_item == old(self).board_item,
            final(self).item == old(self).item,
            final(self).effects.effects@ == old(self).effects.effects@ + bonus_seq(BonusRule::FromNearby { range }, old(self).model,
                old(self).board_item.position, old(self).item.on_board.unwrap(), &filter, bonus, permanent,
                old(self).model.items@.len() as int),
    {
        self.push_bonuses(BonusRule::FromNearby { range }, &filter, bonus, permanent);
    }

    /// A bonus to this item from each orthogonally adjacent item that passes `filter`.
    pub fn bonus_from_connected(&mut self, filter: ItemFilter, bonus: ItemStats, permanent: bool)
        requires
            old(self).model.wf(),
            some_applies(BonusRule::FromConnected, old(self).model, old(self).board_item.position@, &filter)
                ==> old(self).item.on_board is Some,
        ensures
            final(self).model == old(self).model,
            final(self).board_item == old(self).board_item,
            final(self).item == old(self).item,
            final(self).effects.effects@ == old(self).effects.effects@ + bonus_seq(BonusRule::FromConnected, old(self).model,
                old(self).board_item.position, old(self).item.on_board.unwrap(), &filter, bonus, permanent,
                old(self).model.items@.len() as int),
    {
        self.push_bonuses(BonusRule::FromConnected, &filter, bonus, permanent);
    }

    /// A bonus from this item to each item within `range` that passes `filter`.
    pub fn bonus_to_nearby(&mut self, range: Coord, filter: ItemFilter, bonus: ItemStats, permanent: bool)
        requires
            old(self).model.wf(),
        ensures
            final(self).model == old(self).model,
            final(self).board_item == old(self).board_item,
            final(self).item == old(self).item,
            final(self).effects.effects@ == old(self).effects.effects@ + bonus_seq(BonusRule::ToNearby { range }, old(self).model,
                old(self).board_item.position, old(self).item.on_board.unwrap(), &filter, bonus, permanent,
                old(self).model.items@.len() as int),
    {
        self.push_bonuses(BonusRule::ToNearby { range }, &filter, bonus, permanent);
    }

    /// A bonus from this item to every item that passes `filter`.
    pub fn bonus_to_all(&mut self, filter: ItemFilter, bonus: ItemStats, permanent: bool)
        requires
            old(self).model.wf(),
        ensures
            final(self).model == old(self).model,
            final(self).board_item == old(self).board_item,
            final(self).item == old(self).item,
            final(self).effects.effects@ == old(self).effects.effects@ + bonus_seq(BonusRule::ToAll, old(self).model,
                old(self).board_item.position, old(self).item.on_board.unwrap(), &filter, bonus, permanent,
                old(self).model.items@.len() as int),
    {
        self.push_bonuses(BonusRule::ToAll, &filter, bonus, permanent);
    }

    /// Lets the player uncover new tiles on the map.
    pub fn open_tiles(&mut self, tiles: usize)
        ensures
            final(self).model == old(self).model,
            final(self).board_item == old(self).board_item,
            final(self).item == old(self).item,
            final(self).effects.effects@ == old(self).effects.effects@.push(Effect::OpenTiles { tiles }),
    {
        self.effects.open_tiles(tiles);
    }

    /// Destroys the self item.
    pub fn destroy(&mut self)
        ensures
            final(self).model == old(self).model,
            final(self).board_item == old(self).board_item,
            final(self).item == old(self).item,
            final(self).effects.effects@ == old(self).effects.effects@.push(Effect::Destroy { item_id: old(self).board_item.item_id }),
    {
        self.effects.destroy(self.board_item.item_id);
    }

    /// A random board item within `range` that passes `filter`, if any.
    pub fn find_nearby(&self, range: Coord, filter: ItemFilter) -> (r: Option<Id>)
        requires
            self.model.wf(),
        ensures
            r matches Some(i) ==> nearby_match(self.model, self.me()@, range as int, &filter, i as int),
            r is None ==> forall|i: int| !#[trigger] nearby_match(self.model, self.me()@, range as int, &filter, i),
    {
        let s = self.model;
        let me = self.board_item.position;
        let n = s.items.id_bound();
        let mut found: Vec<usize> = Vec::new();
        for i in 0..n
            invariant
                n == s.items@.len(),
                s.wf(),
                me == self.board_item.position,
                forall|j: int| 0 <= j < found.len() ==> nearby_match(s, me@, range as int, &filter, #[trigger] found[j] as int),
                forall|j: int| 0 <= j < i && #[trigger] nearby_match(s, me@, range as int, &filter, j) ==> found@.contains(j as usize),
        {
            match s.items.get(i) {
                Some(b) => {
                    assert(arena_has(s.items@, i as int));
                    let inv = s.player.items.get(b.item_id).unwrap();
                    assert(arena_has(s.player.items@, b.item_id as int));
                    let d = distance(b.position, me);
                    if 1 <= d && d <= range as i128 && filter.check(&s.all_items[inv.kind]) {
                        let ghost before = found@;
                        found.push(i);
                        assert(found@[found.len() - 1] == i);
                        assert forall|j: int| 0 <= j < i && #[trigger] nearby_match(s, me@, range as int, &filter, j) implies found@.contains(j as usize) by {
                            let k = choose|k: int| 0 <= k < before.len() && before[k] == j as usize;
                            assert(found@[k] == j as usize);
                        }
                    }
                },
                None => {},
            }
        }
        let r = pick_one(found.as_slice());
        proof {
            if let Some(t) = r {
                let k = choose|k: int| 0 <= k < found@.len() && found@[k] == t;
                assert(nearby_match(s, me@, range as int, &filter, found[k] as int));
            } else {
                assert forall|j: int| !#[trigger] nearby_match(s, me@, range as int, &filter, j) by {
                    if nearby_match(s, me@, range as int, &filter, j) {
                        assert(0 <= j < n);
                        assert(found@.contains(j as usize));
                    }
                }
            }
        }
        r
    }

    /// Duplicates the self item.
    pub fn duplicate(&mut self)
        ensures
            final(self).model == old(self).model,
            final(self).board_item == old(self).board_item,
            final(self).item == old(self).item,
            final(self).effects.effects@ == old(self).effects.effects@.push(Effect::Duplicate { item_id: old(self).board_item.item_id }),
    {
        self.effects.duplicate(self.board_item.item_id);
    }

    /// The first owned item shown by board item `id`, with the board item.
    pub fn item_board(&self, id: Id) -> (r: Option<(Id, BoardItem)>)
        ensures
            r matches Some((i, b)) ==> arena_has(self.model.player.items@, i as int)
                && inv_of(self.model, i as int).on_board == Some(id)
                && (forall|j: int| 0 <= j < i && #[trigger] arena_has(self.model.player.items@, j) ==> inv_of(self.model, j).on_board != Some(id))
                && arena_get(self.model.items@, id as int) == Some(b),
            r is None ==> !arena_has(self.model.items@, id as int)
                || forall|j: int| #[trigger] arena_has(self.model.player.items@, j) ==> inv_of(self.model, j).on_board != Some(id),
    {
        let s = self.model;
        let n = s.player.items.id_bound();
        for i in 0..n
            invariant
                n == s.player.items@.len(),
                s == self.model,
                forall|j: int| 0 <= j < i && #[trigger] arena_has(s.player.items@, j) ==> inv_of(s, j).on_board != Some(id),
        {
            match s.player.items.get(i) {
                Some(inv) => {
                    if inv.on_board == Some(id) {
                        return match s.items.get(id) {
                            Some(b) => Some((i, b)),
                            None => None,
                        };
                    }
                },
                None => {},
            }
        }
        None
    }

    /// The name of a random kind of `category` other than this item's own, if any.
    pub fn random_kind(&self, category: Category) -> (r: Option<String>)
        requires
            self.item.kind < self.model.all_items.len(),
        ensures
            r matches Some(name) ==> exists|k: int| 0 <= k < self.model.all_items.len()
                && #[trigger] self.model.all_items@[k].config.name@ == name@
                && name@ != self.model.all_items@[self.item.kind as int].config.name@
                && self.model.all_items@[k].config.categories@.contains(category),
            r is None ==> forall|k: int| 0 <= k < self.model.all_items.len()
                && #[trigger] self.model.all_items@[k].config.name@ != self.model.all_items@[self.item.kind as int].config.name@
                ==> !self.model.all_items@[k].config.categories@.contains(category),
    {
        let kinds = &self.model.all_items;
        let own = &kinds[self.item.kind].config.name;
        let filter = ItemFilter::Category(category);
        let n = kinds.len();
        let mut options: Vec<usize> = Vec::new();
        for k in 0..n
            invariant
                n == kinds.len(),
                filter == ItemFilter::Category(category),
                *own == kinds@[self.item.kind as int].config.name,
                forall|j: int| 0 <= j < options.len() ==> #[trigger] options[j] < n
                    && kinds@[options[j] as int].config.name@ != own@
                    && kinds@[options[j] as int].config.categories@.contains(category),
                forall|j: int| 0 <= j < k && #[trigger] kinds@[j].config.name@ != own@
                    && kinds@[j].config.categories@.contains(category) ==> options@.contains(j as usize),
        {
            if !(kinds[k].config.name == *own) && filter.check(&kinds[k]) {
                let ghost before = options@;
                options.push(k);
                assert(options@[options.len() - 1] == k);
                assert forall|j: int| 0 <= j < k && #[trigger] kinds@[j].config.name@ != own@
                    && kinds@[j].config.categories@.contains(category) implies options@.contains(j as usize) by {
                    let i = choose|i: int| 0 <= i < before.len() && before[i] == j as usize;
                    assert(options@[i] == j as usize);
                }
            }
        }
        match pick_one(options.as_slice()) {
            Some(k) => {
                proof {
                    let i = choose|i: int| 0 <= i < options@.len() && options@[i] == k;
                    assert(options[i] < n);
                }
                let name = kinds[k].config.name.clone();
                Some(name)
            },
            None => {
                proof {
                    assert forall|j: int| 0 <= j < n && #[trigger] kinds@[j].config.name@ != own@
                        implies !kinds@[j].config.categories@.contains(category) by {
                        if kinds@[j].config.categories@.contains(category) {
                            assert(options@.contains(j as usize));
                        }
                    }
                }
                None
            },
        }
    }

    pub fn gain_moves(&mut self, moves: usize)
        ensures
            final(self).model == old(self).model,
            final(self).board_item == old(self).board_item,
            final(self).item == old(self).item,
            final(self).effects.effects@ == old(self).effects.effects@.push(Effect::GainMoves { moves }),
    {
        self.effects.gain_moves(moves);
    }

    pub fn portal(&mut self)
        ensures
            final(self).model == old(self).model,
            final(self).board_item == old(self).board_item,
            final(self).item == old(self).item,
            final(self).effects.effects@ == old(self).effects.effects@.push(Effect::Portal),
    {
        self.effects.portal();
    }
}

} // verus!

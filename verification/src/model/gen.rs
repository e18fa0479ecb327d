use vstd::prelude::*;
use vstd::arithmetic::power2::{pow2, lemma2_to64, lemma2_to64_rest, lemma_pow2_strictly_increases, lemma_pow2_unfold};
use crate::geom::Pos;
use crate::posset::PosSet;
use crate::arena::{Arena, arena_get, arena_has};
use std::collections::VecDeque;
use crate::item::{BoardItem, InventoryItem, ItemKind, ItemStats};
use crate::grid::{Grid, square_spec};
use crate::player::Player;
use crate::model::resolve_effect::{find_kind, first_named, first_named_index, lemma_first_named_unique, none_named};
use crate::entity::{Entity, EntityKind, Fraction, Health};
use crate::random::pick_one;
use crate::model::state::{ModelState, board_of, inv_of, entity_of, empty_space_spec, onboard_ok};
use crate::model::animations::hidden_space_spec;
use crate::model::game::{Config, Model, Phase};

verus! {

/// How many enemies a level brings: one more every level up to four, and one
/// more every four levels, at most five.
pub open spec fn enemy_count(level: int) -> int {
    let l = if level >= 1 { level - 1 } else { 0 };
    let c = l % 4 + l / 4 + 1;
    if c < 5 { c } else { 5 }
}

/// The health of an enemy: five, doubled every four levels.
pub open spec fn enemy_health(level: int) -> int {
    5 * (pow2((level / 4) as nat) as int)
}

/// The turns a level gives: four plus a power of two that doubles every four
/// levels, at most ten.
pub open spec fn level_turns(level: int) -> int {
    let t = 4 + (pow2((level / 4) as nat) as int);
    if t < 10 { t } else { 10 }
}

/// `s1` is `s0` with up to `count` enemies of full `health` added, on
/// distinct hidden empty tiles; fewer only when those tiles ran out.
pub open spec fn enemies_spawned(s0: &ModelState, s1: &ModelState, count: int, health: int) -> bool {
    let n0 = s0.entities@.len() as int;
    let n1 = s1.entities@.len() as int;
    let avail = hidden_space_spec(s0);
    &&& n0 <= n1 <= n0 + count
    &&& s1.entities@.subrange(0, n0) == s0.entities@
    &&& forall|j: int| n0 <= j < n1 ==> (#[trigger] s1.entities@[j] matches Some(e)
        && e.fraction == Fraction::Enemy && e.kind == EntityKind::Dummy && e.look_dir == Pos { x: 0, y: -1i64 }
        && e.health.value_spec() == health && e.health.max_spec() == health && e.health.wf()
        && avail.contains(e.position@))
    &&& forall|j: int, k: int| n0 <= j < k < n1 ==> #[trigger] s1.entities@[j].unwrap().position != #[trigger] s1.entities@[k].unwrap().position
    &&& (n1 - n0 == count || forall|q: (int, int)| #[trigger] avail.contains(q) ==>
        exists|j: int| n0 <= j < n1 && #[trigger] s1.entities@[j].unwrap().position@ == q)
    &&& s1.all_items == s0.all_items
    &&& s1.grid == s0.grid
    &&& s1.player == s0.player
    &&& s1.items == s0.items
    &&& s1.visible_tiles == s0.visible_tiles
}

/// The first level brings one enemy, and within each block of four levels
/// every level brings one more than the level before, at most five; in
/// closed form, level `L` brings `min(5, (L - 1) % 4 + (L - 1) / 4 + 1)`.
pub proof fn law_enemy_counts(level: int)
    requires
        level >= 1,
    ensures
        enemy_count(1) == 1,
        level % 4 != 0 ==> enemy_count(level + 1) == if enemy_count(level) < 5 { enemy_count(level) + 1 } else { 5 },
        enemy_count(level) == if (level - 1) % 4 + (level - 1) / 4 + 1 < 5 { (level - 1) % 4 + (level - 1) / 4 + 1 } else { 5 },
{
    let l = level - 1;
    if level % 4 != 0 {
        assert(l % 4 != 3);
        assert((l + 1) % 4 == l % 4 + 1);
        assert((l + 1) / 4 == l / 4);
    }
}

/// Enemies have five health on the first levels and twice as much every
/// four levels; a level gives five turns, then six, eight, and ten from the
/// twelfth level on.
pub proof fn law_level_growth(level: int)
    requires
        level >= 0,
    ensures
        0 <= level < 4 ==> enemy_health(level) == 5 && level_turns(level) == 5,
        4 <= level < 8 ==> level_turns(level) == 6,
        8 <= level < 12 ==> level_turns(level) == 8,
        level >= 12 ==> level_turns(level) == 10,
        enemy_health(level + 4) == 2 * enemy_health(level),
{
    lemma2_to64();
    assert((level + 4) / 4 == level / 4 + 1);
    lemma_pow2_unfold((level / 4 + 1) as nat);
    if level >= 16 {
        lemma_pow2_strictly_increases(3, (level / 4) as nat);
    }
}

/// Entering level `n + 1` adds `min(5, n % 4 + n / 4 + 1)` enemies, fewer
/// only when every hidden empty tile got one.
pub proof fn law_next_level_enemies(m0: &Model, m1: &Model)
    requires
        next_level_post(m0, m1),
    ensures
        ({
            let n = m0.level as int;
            let want = if n % 4 + n / 4 + 1 < 5 { n % 4 + n / 4 + 1 } else { 5 };
            let n0 = m0.state.entities@.len() as int;
            let n1 = m1.state.entities@.len() as int;
            &&& n0 <= n1 <= n0 + want
            &&& (n1 == n0 + want || forall|q: (int, int)| #[trigger] hidden_space_spec(&m0.state).contains(q) ==>
                exists|j: int| n0 <= j < n1 && #[trigger] m1.state.entities@[j].unwrap().position@ == q)
        }),
{
    let level = m0.level + 1;
    let sa = ModelState { player: crate::player::Player { turns_left: level_turns(level) as usize, ..m0.state.player }, ..m0.state };
    let sb = choose|sb: ModelState| enemies_spawned(&sa, &sb, enemy_count(level), enemy_health(level))
        && items_spawned(&sb, &m1.state);
    assert(hidden_space_spec(&sa) =~= hidden_space_spec(&m0.state));
    assert(m1.state.entities == sb.entities);
}

/// Owned item `i` is not on the board.
pub open spec fn needs_place(s: &ModelState, i: int) -> bool {
    &&& arena_has(s.player.items@, i)
    &&& !(inv_of(s, i).on_board matches Some(b) && arena_has(s.items@, b as int))
}

/// `s1` is `s0` with owned items that are not on the board placed, in id
/// order, on distinct hidden empty tiles, until every such item is placed or
/// the tiles run out.
pub open spec fn items_spawned(s0: &ModelState, s1: &ModelState) -> bool {
    let m0 = s0.items@.len() as int;
    let m1 = s1.items@.len() as int;
    let avail = hidden_space_spec(s0);
    &&& m0 <= m1
    &&& s1.items@.subrange(0, m0) == s0.items@
    &&& forall|j: int| m0 <= j < m1 ==> (#[trigger] s1.items@[j] matches Some(b)
        && !b.used && avail.contains(b.position@) && needs_place(s0, b.item_id as int)
        && s1.player.items@[b.item_id as int] == Some(InventoryItem { on_board: Some(j as usize), ..inv_of(s0, b.item_id as int) }))
    &&& forall|j: int, k: int| m0 <= j < k < m1 ==>
        #[trigger] s1.items@[j].unwrap().position != #[trigger] s1.items@[k].unwrap().position
        && s1.items@[j].unwrap().item_id < s1.items@[k].unwrap().item_id
    &&& forall|i: int, j: int| m0 <= j < m1 && #[trigger] needs_place(s0, i) && i < #[trigger] s1.items@[j].unwrap().item_id
        ==> exists|k: int| m0 <= k < j && #[trigger] s1.items@[k].unwrap().item_id == i
    &&& ((forall|i: int| #[trigger] needs_place(s0, i) ==> exists|j: int| m0 <= j < m1 && #[trigger] s1.items@[j].unwrap().item_id == i)
        || forall|q: (int, int)| #[trigger] avail.contains(q) ==> exists|j: int| m0 <= j < m1 && #[trigger] s1.items@[j].unwrap().position@ == q)
    &&& s1.player.items@.len() == s0.player.items@.len()
    &&& forall|i: int| 0 <= i < s0.player.items@.len() && !(exists|j: int| m0 <= j < m1 && #[trigger] s1.items@[j].unwrap().item_id == i)
        ==> #[trigger] s1.player.items@[i] == s0.player.items@[i]
    &&& s1.player.moves_left == s0.player.moves_left
    &&& s1.player.turns_left == s0.player.turns_left
    &&& s1.player.hearts == s0.player.hearts
    &&& s1.player.extra_items == s0.player.extra_items
    &&& s1.player.refreshes == s0.player.refreshes
    &&& s1.all_items == s0.all_items
    &&& s1.grid == s0.grid
    &&& s1.entities == s0.entities
    &&& s1.visible_tiles == s0.visible_tiles
}

/// What a new level does to the model: the score counts the finished level
/// and its unused turns (from the second level on), the level goes up, the
/// player gets the level's turns, enemies and then items are spawned, and
/// the level starts.
pub open spec fn next_level_post(m0: &Model, m1: &Model) -> bool {
    let level = m0.level + 1;
    let sa = ModelState { player: crate::player::Player { turns_left: level_turns(level) as usize, ..m0.state.player }, ..m0.state };
    &&& m1.level == level
    &&& m1.score == if m0.level > 0 {
        m0.score + m0.config.score_per_level + m0.config.score_per_turn_left * m0.state.player.turns_left
    } else {
        m0.score as int
    }
    &&& m1.phase == Phase::LevelStarting
    &&& m1.config == m0.config
    &&& m1.turn == m0.turn
    &&& m1.effect_queue_stack == m0.effect_queue_stack
    &&& m1.resolution_queue == m0.resolution_queue
    &&& exists|sb: ModelState| enemies_spawned(&sa, &sb, enemy_count(level), enemy_health(level))
        && items_spawned(&sb, &m1.state)
}

/// The score after a level fits in a score.
pub open spec fn level_score_fits(m: &Model) -> bool {
    m.level > 0 ==> m.score + m.config.score_per_level + m.config.score_per_turn_left * m.state.player.turns_left <= u64::MAX
}

proof fn lemma_pow2_small(e: nat)
    requires
        e <= 60,
    ensures
        pow2(e) <= 0x1000_0000_0000_0000,
        pow2(e) >= 1,
{
    lemma2_to64();
    lemma2_to64_rest();
    if e < 60 {
        lemma_pow2_strictly_increases(e, 60);
    }
    if e > 0 {
        lemma_pow2_strictly_increases(0, e);
    }
}

impl ModelState {
    /// The hidden empty tiles, in the order of the tiles.
    pub fn hidden_space(&self) -> (available: PosSet)
        requires
            self.wf(),
        ensures
            available.wf(),
            available@ == hidden_space_spec(self),
    {
        let empty = self.calculate_empty_space();
        empty.difference(&self.visible_tiles)
    }

    /// Adds up to `count` enemies with full `health` on random hidden empty tiles.
    pub fn spawn_enemies(&mut self, count: usize, health: i64)
        requires
            old(self).wf(),
            health >= 0,
        ensures
            final(self).wf(),
            enemies_spawned(old(self), final(self), count as int, health as int),
    {
        let ghost s0 = *self;
        let mut available = self.hidden_space();
        let ghost avail0 = available@;
        if available.is_empty() {
            assert(self.entities@.subrange(0, self.entities@.len() as int) =~= self.entities@);
            return;
        }
        let options: Vec<EntityKind> = vec![EntityKind::Dummy];
        let mut k: usize = 0;
        while k < count
            invariant
                self.wf(),
                s0.wf(),
                s0 == *old(self),
                health >= 0,
                avail0 == hidden_space_spec(&s0),
                available.wf(),
                self.all_items == s0.all_items,
                self.grid == s0.grid,
                self.player == s0.player,
                self.items == s0.items,
                self.visible_tiles == s0.visible_tiles,
                options@ == seq![EntityKind::Dummy],
                k <= count,
                self.entities@.len() == s0.entities@.len() + k,
                self.entities@.subrange(0, s0.entities@.len() as int) == s0.entities@,
                forall|j: int| s0.entities@.len() <= j < self.entities@.len() ==> (#[trigger] self.entities@[j] matches Some(e)
                    && e.fraction == Fraction::Enemy && e.kind == EntityKind::Dummy && e.look_dir == Pos { x: 0, y: -1i64 }
                    && e.health.value_spec() == health && e.health.max_spec() == health && e.health.wf()
                    && avail0.contains(e.position@)),
                forall|j: int, l: int| s0.entities@.len() <= j < l < self.entities@.len()
                    ==> #[trigger] self.entities@[j].unwrap().position != #[trigger] self.entities@[l].unwrap().position,
                forall|q: (int, int)| #[trigger] available@.contains(q) <==> avail0.contains(q)
                    && !exists|j: int| s0.entities@.len() <= j < self.entities@.len() && #[trigger] self.entities@[j].unwrap().position@ == q,
                available@ != Set::<(int, int)>::empty(),
            decreases count - k,
        {
            let kind = pick_one(options.as_slice()).unwrap();
            proof {
                available.lemma_view();
            }
            let position = pick_one(available.as_slice()).unwrap();
            proof {
                let i = choose|i: int| 0 <= i < available.elems().len() && available.elems()[i] == position;
                assert(available@.contains(available.elems()[i]@));
            }
            proof {
                let i = choose|i: int| 0 <= i < options@.len() && options@[i] == kind;
            }
            assert(kind == EntityKind::Dummy);
            let ghost before = self.entities@;
            let ghost avail_before = available@;
            let h = Health::new_max(health);
            self.entities.insert(Entity {
                position,
                fraction: Fraction::Enemy,
                health: h,
                look_dir: Pos::new(0, -1),
                kind,
            });
            available.remove(position);
            k += 1;
            proof {
                let n0 = s0.entities@.len() as int;
                let last = self.entities@.len() - 1;
                assert(self.entities@.subrange(0, n0) =~= s0.entities@) by {
                    assert(before.subrange(0, n0) == s0.entities@);
                }
                assert forall|j: int, l: int| n0 <= j < l < self.entities@.len()
                    implies #[trigger] self.entities@[j].unwrap().position != #[trigger] self.entities@[l].unwrap().position by {
                    if l == last {
                        assert(self.entities@[j] == before[j]);
                        assert(avail_before.contains(position@));
                    } else {
                        assert(self.entities@[j] == before[j] && self.entities@[l] == before[l]);
                    }
                }
                assert forall|q: (int, int)| #[trigger] available@.contains(q) <==> avail0.contains(q)
                    && !exists|j: int| n0 <= j < self.entities@.len() && #[trigger] self.entities@[j].unwrap().position@ == q by {
                    assert(available@ == avail_before.remove(position@));
                    if available@.contains(q) {
                        assert(avail_before.contains(q) && q != position@);
                        assert forall|j: int| n0 <= j < self.entities@.len() implies #[trigger] self.entities@[j].unwrap().position@ != q by {
                            if j < last {
                                assert(self.entities@[j] == before[j]);
                            } else {
                                assert(self.entities@[j].unwrap().position == position);
                            }
                        }
                    }
                    if avail0.contains(q) && !exists|j: int| n0 <= j < self.entities@.len() && #[trigger] self.entities@[j].unwrap().position@ == q {
                        assert(self.entities@[last].unwrap().position@ != q);
                        assert forall|j: int| n0 <= j < before.len() implies #[trigger] before[j].unwrap().position@ != q by {
                            assert(self.entities@[j] == before[j]);
                        }
                        assert(avail_before.contains(q));
                    }
                }
                assert forall|e: int| #[trigger] arena_has(self.entities@, e) implies entity_of(self, e).health.wf() by {
                    if e < last {
                        assert(self.entities@[e] == before[e]);
                        assert(arena_has(before, e));
                    } else {
                        assert(entity_of(self, e).health == h);
                    }
                }
                assert forall|j: int| s0.entities@.len() <= j < self.entities@.len() implies (#[trigger] self.entities@[j] matches Some(e)
                    && e.fraction == Fraction::Enemy && e.kind == EntityKind::Dummy && e.look_dir == Pos { x: 0, y: -1i64 }
                    && e.health.value_spec() == health && e.health.max_spec() == health && e.health.wf()
                    && avail0.contains(e.position@)) by {
                    if j < last {
                        assert(self.entities@[j] == before[j]);
                    } else {
                        assert(avail_before.contains(position@));
                    }
                }
            }
            if available.is_empty() {
                proof {
                    let n0 = s0.entities@.len() as int;
                    assert forall|q: (int, int)| #[trigger] avail0.contains(q) implies
                        exists|j: int| n0 <= j < self.entities@.len() && #[trigger] self.entities@[j].unwrap().position@ == q by {
                        assert(!available@.contains(q));
                    }
                    let n1 = self.entities@.len() as int;
                    assert(n0 <= n1 <= n0 + count);
                    assert(self.entities@.subrange(0, n0) == s0.entities@);
                }
                return;
            }
        }
    }

    /// Places every owned item that is not on the board on a random hidden
    /// empty tile, in id order, while such tiles last.
    #[verifier::rlimit(100)]
    #[verifier::spinoff_prover]
    pub fn spawn_items(&mut self)
        requires
            old(self).wf(),
        ensures
            final(self).wf(),
            items_spawned(old(self), final(self)),
    {
        let ghost s0 = *self;
        let mut available = self.hidden_space();
        let ghost avail0 = available@;
        let m0 = self.items.id_bound();
        if available.is_empty() {
            assert(self.items@.subrange(0, m0 as int) =~= self.items@);
            return;
        }
        let n = self.player.items.id_bound();
        let mut i: usize = 0;
        let mut exhausted = false;
        while i < n && !exhausted
            invariant
                n == s0.player.items@.len(),
                m0 == s0.items@.len(),
                s0.wf(),
                i <= n,
                avail0 == hidden_space_spec(&s0),
                available.wf(),
                exhausted <==> available@ == Set::<(int, int)>::empty(),
                self.all_items == s0.all_items,
                self.grid == s0.grid,
                self.entities == s0.entities,
                self.visible_tiles == s0.visible_tiles,
                self.player.moves_left == s0.player.moves_left,
                self.player.turns_left == s0.player.turns_left,
                self.player.hearts == s0.player.hearts,
                self.player.extra_items == s0.player.extra_items,
                self.player.refreshes == s0.player.refreshes,
                self.items@.len() >= m0,
                self.items@.subrange(0, m0 as int) == s0.items@,
                self.player.items@.len() == n,
                forall|j: int| m0 <= j < self.items@.len() ==> (#[trigger] self.items@[j] matches Some(b)
                    && !b.used && avail0.contains(b.position@) && needs_place(&s0, b.item_id as int)
                    && b.item_id < i
                    && self.player.items@[b.item_id as int] == Some(InventoryItem { on_board: Some(j as usize), ..inv_of(&s0, b.item_id as int) })),
                forall|j: int, k: int| m0 <= j < k < self.items@.len() ==>
                    #[trigger] self.items@[j].unwrap().position != #[trigger] self.items@[k].unwrap().position
                    && self.items@[j].unwrap().item_id < self.items@[k].unwrap().item_id,
                forall|c: int, j: int| m0 <= j < self.items@.len() && #[trigger] needs_place(&s0, c) && c < #[trigger] self.items@[j].unwrap().item_id
                    ==> exists|k: int| m0 <= k < j && #[trigger] self.items@[k].unwrap().item_id == c,
                forall|c: int| 0 <= c < i && #[trigger] needs_place(&s0, c) && !exhausted
                    ==> exists|k: int| m0 <= k < self.items@.len() && #[trigger] self.items@[k].unwrap().item_id == c,
                forall|c: int| 0 <= c < n && !(exists|j: int| m0 <= j < self.items@.len() && #[trigger] self.items@[j].unwrap().item_id == c)
                    ==> #[trigger] self.player.items@[c] == s0.player.items@[c],
                forall|q: (int, int)| #[trigger] available@.contains(q) <==> avail0.contains(q)
                    && !exists|j: int| m0 <= j < self.items@.len() && #[trigger] self.items@[j].unwrap().position@ == q,
                self.wf(),
            decreases n - i,
        {
            let ghost before = *self;
            let ghost avail_before = available@;
            match self.player.items.get(i) {
                Some(inv) => {
                    let live = match inv.on_board {
                        Some(id) => self.items.contains(id),
                        None => false,
                    };
                    proof {
                        assert(!exists|j: int| m0 <= j < self.items@.len() && #[trigger] self.items@[j].unwrap().item_id == i) by {
                            if exists|j: int| m0 <= j < self.items@.len() && #[trigger] self.items@[j].unwrap().item_id == i {
                                let j = choose|j: int| m0 <= j < self.items@.len() && #[trigger] self.items@[j].unwrap().item_id == i;
                                assert(self.items@[j] matches Some(b) && b.item_id < i);
                            }
                        }
                        assert(self.player.items@[i as int] == s0.player.items@[i as int]);
                        assert(arena_has(s0.player.items@, i as int));
                        if let Some(id) = inv.on_board {
                            assert(id < m0);
                            assert(self.items@[id as int] == s0.items@[id as int]);
                        }
                        assert(live == !needs_place(&s0, i as int));
                    }
                    if !live {
                        proof {
                            available.lemma_view();
                        }
                        let position = pick_one(available.as_slice()).unwrap();
                        proof {
                            let k = choose|k: int| 0 <= k < available.elems().len() && available.elems()[k] == position;
                            assert(available@.contains(available.elems()[k]@));
                        }
                        let on_board = self.items.insert(BoardItem { position, item_id: i, used: false });
                        self.player.items.set(i, InventoryItem { on_board: Some(on_board), ..inv });
                        available.remove(position);
                        exhausted = available.is_empty();
                        proof {
                            let last = self.items@.len() - 1;
                            assert(self.items@.subrange(0, m0 as int) =~= s0.items@) by {
                                assert(before.items@.subrange(0, m0 as int) == s0.items@);
                            }
                            assert forall|j: int| m0 <= j < self.items@.len() implies (#[trigger] self.items@[j] matches Some(b)
                                && !b.used && avail0.contains(b.position@) && needs_place(&s0, b.item_id as int)
                                && b.item_id < i + 1
                                && self.player.items@[b.item_id as int] == Some(InventoryItem { on_board: Some(j as usize), ..inv_of(&s0, b.item_id as int) })) by {
                                if j < last {
                                    assert(self.items@[j] == before.items@[j]);
                                }
                            }
                            assert forall|j: int, k: int| m0 <= j < k < self.items@.len() implies
                                #[trigger] self.items@[j].unwrap().position != #[trigger] self.items@[k].unwrap().position
                                && self.items@[j].unwrap().item_id < self.items@[k].unwrap().item_id by {
                                assert(self.items@[j] == before.items@[j]);
                                if k == last {
                                    assert(avail_before.contains(position@));
                                } else {
                                    assert(self.items@[k] == before.items@[k]);
                                }
                            }
                            assert forall|c: int, j: int| m0 <= j < self.items@.len() && #[trigger] needs_place(&s0, c) && c < #[trigger] self.items@[j].unwrap().item_id
                                implies exists|k: int| m0 <= k < j && #[trigger] self.items@[k].unwrap().item_id == c by {
                                if j == last {
                                    let k = choose|k: int| m0 <= k < before.items@.len() && #[trigger] before.items@[k].unwrap().item_id == c;
                                    assert(self.items@[k] == before.items@[k]);
                                } else {
                                    assert(self.items@[j] == before.items@[j]);
                                    let k = choose|k: int| m0 <= k < j && #[trigger] before.items@[k].unwrap().item_id == c;
                                    assert(self.items@[k] == before.items@[k]);
                                }
                            }
                            assert forall|c: int| 0 <= c < i + 1 && #[trigger] needs_place(&s0, c) && !exhausted
                                implies exists|k: int| m0 <= k < self.items@.len() && #[trigger] self.items@[k].unwrap().item_id == c by {
                                if c == i {
                                    assert(self.items@[last].unwrap().item_id == c);
                                } else {
                                    let k = choose|k: int| m0 <= k < before.items@.len() && #[trigger] before.items@[k].unwrap().item_id == c;
                                    assert(self.items@[k] == before.items@[k]);
                                }
                            }
                            assert forall|c: int| 0 <= c < n && !(exists|j: int| m0 <= j < self.items@.len() && #[trigger] self.items@[j].unwrap().item_id == c)
                                implies #[trigger] self.player.items@[c] == s0.player.items@[c] by {
                                if c == i {
                                    assert(self.items@[last].unwrap().item_id == c);
                                }
                                assert forall|j: int| m0 <= j < before.items@.len() implies #[trigger] before.items@[j].unwrap().item_id != c by {
                                    assert(self.items@[j] == before.items@[j]);
                                }
                            }
                            assert forall|q: (int, int)| #[trigger] available@.contains(q) <==> avail0.contains(q)
                                && !exists|j: int| m0 <= j < self.items@.len() && #[trigger] self.items@[j].unwrap().position@ == q by {
                                if exists|j: int| m0 <= j < self.items@.len() && #[trigger] self.items@[j].unwrap().position@ == q {
                                    let j = choose|j: int| m0 <= j < self.items@.len() && #[trigger] self.items@[j].unwrap().position@ == q;
                                    if j < last {
                                        assert(before.items@[j].unwrap().position@ == q);
                                    }
                                }
                                if avail_before.contains(q) && q != position@ {
                                    assert forall|j: int| m0 <= j < self.items@.len() implies #[trigger] self.items@[j].unwrap().position@ != q by {
                                        if j < last {
                                            assert(self.items@[j] == before.items@[j]);
                                        }
                                    }
                                }
                            }
                            assert forall|b: int| #[trigger] arena_has(self.items@, b)
                                implies arena_has(self.player.items@, board_of(self, b).item_id as int) by {
                                if b < last {
                                    assert(self.items@[b] == before.items@[b]);
                                    assert(arena_has(before.items@, b));
                                    assert(arena_has(before.player.items@, board_of(&before, b).item_id as int));
                                }
                            }
                            assert forall|c: int| #[trigger] arena_has(self.player.items@, c)
                                implies (inv_of(self, c).on_board matches Some(b) ==> b < self.items@.len()) by {
                                if c != i {
                                    assert(arena_has(before.player.items@, c));
                                }
                            }
                            assert forall|c: int| #[trigger] arena_has(self.player.items@, c)
                                implies inv_of(self, c).kind < self.all_items.len() by {
                                assert(arena_has(before.player.items@, c));
                            }
                        }
                    } else {
                        proof {
                            assert forall|c: int| 0 <= c < i + 1 && #[trigger] needs_place(&s0, c) && !exhausted
                                implies exists|k: int| m0 <= k < self.items@.len() && #[trigger] self.items@[k].unwrap().item_id == c by {
                            }
                        }
                    }
                },
                None => {
                    proof {
                        assert(self.player.items@[i as int] == s0.player.items@[i as int]) by {
                            if exists|j: int| m0 <= j < self.items@.len() && #[trigger] self.items@[j].unwrap().item_id == i {
                                let j = choose|j: int| m0 <= j < self.items@.len() && #[trigger] self.items@[j].unwrap().item_id == i;
                                assert(self.items@[j] matches Some(b) && b.item_id < i);
                            }
                        }
                        assert(!needs_place(&s0, i as int));
                    }
                },
            }
            i += 1;
        }
        proof {
            if exhausted {
                assert forall|q: (int, int)| #[trigger] avail0.contains(q) implies
                    exists|j: int| m0 <= j < self.items@.len() && #[trigger] self.items@[j].unwrap().position@ == q by {
                    assert(!available@.contains(q));
                }
            } else {
                assert forall|c: int| #[trigger] needs_place(&s0, c) implies
                    exists|j: int| m0 <= j < self.items@.len() && #[trigger] self.items@[j].unwrap().item_id == c by {
                    assert(c < n);
                }
            }
        }
    }
}

/// The state before the first level: a 3x3 grid, the player at the origin
/// with full health out of 100, and the starting items in the inventory, each
/// of the first kind with its name.
pub open spec fn initial_state(s: &ModelState, config: &Config, all_items: Seq<ItemKind>) -> bool {
    &&& s.all_items@ == all_items
    &&& s.grid.wf()
    &&& s.grid.tiles@ == square_spec(3)
    &&& s.grid.fractured@ == Set::<(int, int)>::empty()
    &&& s.grid.lights@ == Map::<(int, int), int>::empty()
    &&& s.visible_tiles.wf()
    &&& s.visible_tiles@ == Set::<(int, int)>::empty()
    &&& s.items@ == Seq::<Option<BoardItem>>::empty()
    &&& s.entities@.len() == 1
    &&& s.entities@[0] matches Some(e) && e.position == Pos { x: 0, y: 0 } && e.fraction == Fraction::Player
        && e.health.wf() && e.health.value_spec() == 100 && e.health.max_spec() == 100
        && e.look_dir == Pos { x: 0, y: 0 } && e.kind == EntityKind::Player
    &&& s.player.moves_left == 0
    &&& s.player.turns_left == 0
    &&& s.player.hearts == 3
    &&& s.player.extra_items == 0
    &&& s.player.refreshes == 0
    &&& s.player.items@.len() == config.starting_items@.len()
    &&& forall|j: int| 0 <= j < config.starting_items@.len() ==> #[trigger] s.player.items@[j] == Some(starting_item(all_items, config.starting_items@[j]@))
}

/// A fresh item of the first kind called `name`.
pub open spec fn starting_item(all_items: Seq<ItemKind>, name: Seq<char>) -> InventoryItem {
    let k = first_named_index(all_items, name);
    InventoryItem {
        on_board: None,
        kind: k as usize,
        turns_on_board: 0,
        base_stats: all_items[k].config.base_stats,
        perm_stats: ItemStats { damage: None },
        temp_stats: ItemStats { damage: None },
    }
}

impl Model {
    /// A new game: the initial state, then the first level.
    pub fn new(config: Config, all_items: Vec<ItemKind>) -> (m: Model)
        requires
            forall|j: int| 0 <= j < config.starting_items@.len() ==> !none_named(all_items@, #[trigger] config.starting_items@[j]@),
        ensures
            m.wf(),
            m.config == config,
            exists|m0: Model| initial_state(&m0.state, &config, all_items@)
                && m0.config == config && m0.level == 0 && m0.turn == 0 && m0.score == 0
                && m0.effect_queue_stack@.len() == 0 && m0.resolution_queue@.len() == 0
                && #[trigger] next_level_post(&m0, &m),
    {
        let mut entities = Arena::new();
        entities.insert(Entity {
            position: Pos::new(0, 0),
            fraction: Fraction::Player,
            health: Health::new_max(100),
            look_dir: Pos::new(0, 0),
            kind: EntityKind::Player,
        });
        let mut items: Arena<InventoryItem> = Arena::new();
        let n = config.starting_items.len();
        for j in 0..n
            invariant
                n == config.starting_items@.len(),
                forall|i: int| 0 <= i < config.starting_items@.len() ==> !none_named(all_items@, #[trigger] config.starting_items@[i]@),
                items@.len() == j,
                forall|i: int| 0 <= i < j ==> #[trigger] items@[i] == Some(starting_item(all_items@, config.starting_items@[i]@)),
                forall|i: int| 0 <= i < j ==> first_named(all_items@, config.starting_items@[i]@, #[trigger] items@[i].unwrap().kind as int),
        {
            let k = find_kind(&all_items, &config.starting_items[j]).unwrap();
            proof {
                lemma_first_named_unique(all_items@, config.starting_items@[j as int]@, k as int);
            }
            let base = all_items[k].config.base_stats;
            let ghost before = items@;
            items.insert(InventoryItem::new(k, base));
            assert forall|i: int| 0 <= i < j + 1 implies #[trigger] items@[i] == Some(starting_item(all_items@, config.starting_items@[i]@)) by {
                if i < j {
                    assert(items@[i] == before[i]);
                }
            }
            assert forall|i: int| 0 <= i < j + 1 implies first_named(all_items@, config.starting_items@[i]@, #[trigger] items@[i].unwrap().kind as int) by {
                if i < j {
                    assert(items@[i] == before[i]);
                }
            }
        }
        let mut player = Player::new();
        player.items = items;
        let state = ModelState {
            all_items,
            grid: Grid::new(3),
            player,
            items: Arena::new(),
            entities,
            visible_tiles: PosSet::new(),
        };
        let mut model = Model {
            config,
            state,
            level: 0,
            turn: 0,
            score: 0,
            phase: Phase::Dawn,
            effect_queue_stack: Vec::new(),
            resolution_queue: VecDeque::new(),
        };
        let ghost m0 = model;
        proof {
            assert forall|i: int| #[trigger] arena_has(model.state.player.items@, i)
                implies inv_of(&model.state, i).kind < model.state.all_items.len() by {
                assert(first_named(m0.state.all_items@, m0.config.starting_items@[i]@, model.state.player.items@[i].unwrap().kind as int));
            }
            assert forall|i: int| #[trigger] arena_has(model.state.player.items@, i)
                implies (inv_of(&model.state, i).on_board matches Some(b) ==> b < model.state.items@.len()) by {
                assert(model.state.player.items@[i] == Some(starting_item(m0.state.all_items@, m0.config.starting_items@[i]@)));
            }
            assert forall|e: int| #[trigger] arena_has(model.state.entities@, e) implies entity_of(&model.state, e).health.wf() by {
            }
        }
        assert(initial_state(&m0.state, &m0.config, m0.state.all_items@));
        model.next_level();
        model
    }

    /// Moves on to the next level.
    pub fn next_level(&mut self)
        requires
            old(self).wf(),
            old(self).level < 243,
            level_score_fits(old(self)),
        ensures
            final(self).wf(),
            next_level_post(old(self), final(self)),
    {
        let ghost m0 = *self;
        if self.level > 0 {
            self.score = self.score + self.config.score_per_level;
            self.score = self.score + self.config.score_per_turn_left * (self.state.player.turns_left as u64);
        }
        self.level = self.level + 1;
        let e = self.level / 4;
        proof {
            lemma2_to64();
            if e >= 3 {
                if e > 3 {
                    lemma_pow2_strictly_increases(3, e as nat);
                }
            }
        }
        let turns: usize = if e == 0 { 5 } else if e == 1 { 6 } else if e == 2 { 8 } else { 10 };
        assert(turns == level_turns(self.level as int));
        self.state.player.turns_left = turns;
        let l = if self.level >= 1 { self.level - 1 } else { 0 };
        let c = l % 4 + l / 4 + 1;
        let count = if c < 5 { c } else { 5 };
        let mut health: i64 = 5;
        let mut i: usize = 0;
        while i < e
            invariant
                e <= 60,
                i <= e,
                health == 5 * pow2(i as nat),
            decreases e - i,
        {
            proof {
                lemma_pow2_small((i + 1) as nat);
                lemma_pow2_unfold((i + 1) as nat);
            }
            health = health * 2;
            i += 1;
        }
        proof {
            lemma_pow2_small(e as nat);
        }
        let ghost sa = self.state;
        assert(sa == ModelState { player: crate::player::Player { turns_left: level_turns(m0.level + 1) as usize, ..m0.state.player }, ..m0.state });
        self.state.spawn_enemies(count, health);
        let ghost sb = self.state;
        self.state.spawn_items();
        self.phase = Phase::LevelStarting;
        assert(count == enemy_count(m0.level + 1));
        assert(health == enemy_health(m0.level + 1));
        assert(enemies_spawned(&sa, &sb, enemy_count(m0.level + 1), enemy_health(m0.level + 1)));
        assert(items_spawned(&sb, &self.state));
        assert(self.level == m0.level + 1);
        assert(self.score == if m0.level > 0 {
            m0.score + m0.config.score_per_level + m0.config.score_per_turn_left * m0.state.player.turns_left
        } else {
            m0.score as int
        });
    }
}

} // verus!

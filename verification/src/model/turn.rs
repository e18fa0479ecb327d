use vstd::prelude::*;
use crate::arena::{arena_get, arena_has};
use crate::entity::{Entity, Fraction};
use crate::effect::Trigger;
use crate::grid::near_spec;
use crate::player::Player;
use crate::random::pick_one;
use crate::model::state::{ModelState, entity_of};
use crate::model::vision::vision_spec;
use crate::model::phases::queued_all;
use crate::model::game::{Model, Phase};

verus! {

/// The number of enemies among the entities with ids below `n`.
pub open spec fn enemies_below(es: Seq<Option<Entity>>, n: int) -> nat
    decreases n,
{
    if n <= 0 {
        0
    } else {
        enemies_below(es, n - 1) + match arena_get(es, n - 1) {
            Some(e) => if e.fraction == Fraction::Enemy { 1nat } else { 0nat },
            None => 0nat,
        }
    }
}

/// The number of enemies on the board.
pub open spec fn enemy_total(s: &ModelState) -> nat {
    enemies_below(s.entities@, s.entities@.len() as int)
}

/// Some enemy is on the board.
pub open spec fn enemy_left(s: &ModelState) -> bool {
    exists|e: int| #[trigger] arena_has(s.entities@, e) && entity_of(s, e).fraction == Fraction::Enemy
}

/// No position is left next to the map where it could grow.
pub open spec fn map_full(tiles: Set<(int, int)>) -> bool {
    forall|q: (int, int)| !near_spec(tiles, q)
}

/// Kind `k` may be offered in the shop.
pub open spec fn in_shop(s: &ModelState, k: int) -> bool {
    &&& 0 <= k < s.all_items@.len()
    &&& s.all_items@[k].config.appears_in_shop.allows(map_full(s.grid.tiles@))
}

/// Some kind may be offered in the shop.
pub open spec fn shop_open(s: &ModelState) -> bool {
    exists|k: int| #[trigger] in_shop(s, k)
}

proof fn lemma_enemies_below_bound(es: Seq<Option<Entity>>, n: int)
    ensures
        n >= 0 ==> enemies_below(es, n) <= n,
        n < 0 ==> enemies_below(es, n) == 0,
    decreases n,
{
    if n > 0 {
        lemma_enemies_below_bound(es, n - 1);
    }
}

/// A turn has passed: the turn counter goes up and the player has one turn
/// less. When the turns run out, every enemy left costs a heart and the level
/// is lost, or the game when no heart is left; otherwise night falls.
pub open spec fn turn_passed(m0: &Model, m1: &Model) -> bool {
    let turns: int = if m0.state.player.turns_left > 0 { m0.state.player.turns_left - 1 } else { 0 };
    let hurt: int = m0.state.player.hearts - enemy_total(&m0.state);
    let hearts: int = if hurt > 0 { hurt } else { 0 };
    &&& m1.turn == m0.turn + 1
    &&& m1.config == m0.config
    &&& m1.level == m0.level
    &&& m1.score == m0.score
    &&& m1.effect_queue_stack == m0.effect_queue_stack
    &&& m1.state.player.turns_left == turns
    &&& m1.state.player.hearts == if turns == 0 { hearts } else { m0.state.player.hearts as int }
    &&& m1.state == ModelState {
        player: Player { turns_left: m1.state.player.turns_left, hearts: m1.state.player.hearts, ..m0.state.player },
        ..m0.state
    }
    &&& if turns == 0 {
        &&& m1.resolution_queue == m0.resolution_queue
        &&& m1.phase == if hearts == 0 { Phase::GameOver } else { Phase::LevelFinished { win: false } }
    } else {
        &&& m1.phase == Phase::Night
        &&& queued_all(&m0.state, m0.resolution_queue@, m1.resolution_queue@, Trigger::Night)
    }
}

/// What the select phase does with `items` items to choose: the visible tiles
/// are recomputed; then three kinds from the shop are offered, or, with
/// nothing to choose, the turn passes.
pub open spec fn select_started(m0: &Model, items: usize, m1: &Model) -> bool {
    let mid = Model { state: ModelState { visible_tiles: m1.state.visible_tiles, ..m0.state }, ..*m0 };
    if items > 0 {
        &&& m1.state == mid.state
        &&& m1.state.visible_tiles@ == vision_spec(&m0.state)
        &&& m1.config == m0.config
        &&& m1.level == m0.level
        &&& m1.turn == m0.turn
        &&& m1.score == m0.score
        &&& m1.effect_queue_stack == m0.effect_queue_stack
        &&& m1.resolution_queue == m0.resolution_queue
        &&& m1.phase matches Phase::Select { options, extra_items }
        &&& extra_items == items - 1
        &&& options@.len() == 3
        &&& forall|j: int| 0 <= j < 3 ==> #[trigger] in_shop(&m0.state, options@[j] as int)
    } else {
        exists|v: ModelState| v.visible_tiles@ == vision_spec(&m0.state) && turn_passed(
            &Model { state: ModelState { visible_tiles: v.visible_tiles, ..m0.state }, ..*m0 },
            m1,
        )
    }
}

impl ModelState {
    /// The number of enemies on the board.
    pub fn count_enemies(&self) -> (c: usize)
        ensures
            c == enemy_total(self),
    {
        let n = self.entities.id_bound();
        let mut c: usize = 0;
        for i in 0..n
            invariant
                n == self.entities@.len(),
                c == enemies_below(self.entities@, i as int),
        {
            proof {
                lemma_enemies_below_bound(self.entities@, i as int);
            }
            match self.entities.get(i) {
                Some(e) => {
                    if e.fraction == Fraction::Enemy {
                        c = c + 1;
                    }
                },
                None => {},
            }
        }
        c
    }

    /// Whether some enemy is on the board.
    pub fn has_enemies(&self) -> (b: bool)
        ensures
            b == enemy_left(self),
    {
        let n = self.entities.id_bound();
        for i in 0..n
            invariant
                n == self.entities@.len(),
                forall|e: int| 0 <= e < i && #[trigger] arena_has(self.entities@, e) ==> entity_of(self, e).fraction != Fraction::Enemy,
        {
            match self.entities.get(i) {
                Some(e) => {
                    if e.fraction == Fraction::Enemy {
                        assert(arena_has(self.entities@, i as int));
                        return true;
                    }
                },
                None => {},
            }
        }
        false
    }
}

impl Model {
    /// Ends the turn: one turn less; when none is left, every enemy on the
    /// board costs a heart and the level is lost (the game, without hearts);
    /// otherwise night falls.
    pub fn next_turn(&mut self)
        requires
            old(self).wf(),
            old(self).turn < usize::MAX,
        ensures
            final(self).wf(),
            turn_passed(old(self), final(self)),
    {
        let ghost m0 = *self;
        self.turn = self.turn + 1;
        if self.state.player.turns_left > 0 {
            self.state.player.turns_left = self.state.player.turns_left - 1;
        }
        if self.state.player.turns_left == 0 {
            let damage = self.state.count_enemies();
            if self.state.player.hearts > damage {
                self.state.player.hearts = self.state.player.hearts - damage;
            } else {
                self.state.player.hearts = 0;
            }
            if self.state.player.hearts == 0 {
                self.game_over();
            } else {
                self.finish_level(false, true);
            }
        } else {
            self.night_phase();
        }
    }

    /// Offers three kinds from the shop when there are `items` items to
    /// choose; with none, the turn passes.
    pub fn select_phase(&mut self, items: usize)
        requires
            old(self).wf(),
            items > 0 ==> shop_open(&old(self).state),
            items == 0 ==> old(self).turn < usize::MAX,
        ensures
            final(self).wf(),
            select_started(old(self), items, final(self)),
    {
        let ghost m0 = *self;
        self.state.update_vision();
        let ghost m1 = *self;
        assert(m1 == Model { state: ModelState { visible_tiles: m1.state.visible_tiles, ..m0.state }, ..m0 });
        if items > 0 {
            let full = self.state.grid.is_max();
            let kinds = self.state.all_items.len();
            let mut shop: Vec<usize> = Vec::new();
            for k in 0..kinds
                invariant
                    kinds == self.state.all_items@.len(),
                    self.state == m1.state,
                    self.state.all_items == m0.state.all_items,
                    self.state.grid == m0.state.grid,
                    full == map_full(m0.state.grid.tiles@),
                    forall|j: int| 0 <= j < shop@.len() ==> #[trigger] in_shop(&m0.state, shop@[j] as int),
                    forall|c: int| 0 <= c < k && #[trigger] in_shop(&m0.state, c) ==> shop@.contains(c as usize),
            {
                let ghost before = shop@;
                if self.state.all_items[k].config.appears_in_shop.check(full) {
                    shop.push(k);
                    assert(shop@[shop@.len() - 1] == k);
                    assert(in_shop(&m0.state, k as int));
                    assert forall|j: int| 0 <= j < shop@.len() implies #[trigger] in_shop(&m0.state, shop@[j] as int) by {
                        if j < before.len() {
                            assert(shop@[j] == before[j]);
                        }
                    }
                    assert forall|c: int| 0 <= c < k + 1 && #[trigger] in_shop(&m0.state, c) implies shop@.contains(c as usize) by {
                        if c < k {
                            let w = choose|w: int| 0 <= w < before.len() && before[w] == c as usize;
                            assert(shop@[w] == before[w]);
                        }
                    }
                } else {
                    assert(!in_shop(&m0.state, k as int));
                }
            }
            proof {
                let c = choose|c: int| #[trigger] in_shop(&m0.state, c);
                assert(shop@.contains(c as usize));
            }
            let mut options: Vec<usize> = Vec::new();
            for j in 0..3usize
                invariant
                    shop@.len() > 0,
                    options@.len() == j,
                    forall|j: int| 0 <= j < shop@.len() ==> #[trigger] in_shop(&m0.state, shop@[j] as int),
                    forall|i: int| 0 <= i < options@.len() ==> #[trigger] in_shop(&m0.state, options@[i] as int),
            {
                let k = pick_one(shop.as_slice()).unwrap();
                proof {
                    let i = choose|i: int| 0 <= i < shop@.len() && shop@[i] == k;
                    assert(in_shop(&m0.state, shop@[i] as int));
                }
                options.push(k);
                assert(options@[options@.len() - 1] == k);
            }
            assert forall|j: int| 0 <= j < options@.len() implies #[trigger] options@[j] < m0.state.all_items@.len() by {
                assert(in_shop(&m0.state, options@[j] as int));
            }
            self.phase = Phase::Select { options, extra_items: items - 1 };
        } else {
            self.next_turn();
        }
    }
}

/// A passing turn never gives a heart back, the game is lost only without
/// hearts, and a level ends only when the turns run out.
pub proof fn law_turn_hearts(m0: &Model, m1: &Model)
    requires
        turn_passed(m0, m1),
    ensures
        m1.state.player.hearts <= m0.state.player.hearts,
        m1.phase == Phase::GameOver ==> m1.state.player.hearts == 0,
        (m1.phase is LevelFinished || m1.phase == Phase::GameOver) <==> m1.state.player.turns_left == 0,
{
}

/// The ids below `n` of the enemies on the board.
pub open spec fn enemy_ids_below(s: &ModelState, n: int) -> Set<int> {
    Set::new(|e: int| 0 <= e < n && arena_has(s.entities@, e) && entity_of(s, e).fraction == Fraction::Enemy)
}

/// The ids of the enemies on the board.
pub open spec fn enemy_ids(s: &ModelState) -> Set<int> {
    enemy_ids_below(s, s.entities@.len() as int)
}

proof fn lemma_enemies_counted(s: &ModelState, n: int)
    requires
        0 <= n <= s.entities@.len(),
    ensures
        enemy_ids_below(s, n).finite(),
        enemy_ids_below(s, n).len() == enemies_below(s.entities@, n),
    decreases n,
{
    if n == 0 {
        assert(enemy_ids_below(s, 0) =~= Set::<int>::empty());
    } else {
        lemma_enemies_counted(s, n - 1);
        let prev = enemy_ids_below(s, n - 1);
        if arena_has(s.entities@, n - 1) && entity_of(s, n - 1).fraction == Fraction::Enemy {
            assert(enemy_ids_below(s, n) =~= prev.insert(n - 1));
            assert(!prev.contains(n - 1));
        } else {
            assert(enemy_ids_below(s, n) =~= prev);
        }
    }
}

/// Every enemy on the board is counted once: the count is the number of
/// enemy ids.
pub proof fn law_enemy_total(s: &ModelState)
    ensures
        enemy_ids(s).finite(),
        enemy_total(s) == enemy_ids(s).len(),
        enemy_left(s) <==> enemy_ids(s).len() > 0,
{
    lemma_enemies_counted(s, s.entities@.len() as int);
    if enemy_left(s) {
        let e = choose|e: int| #[trigger] arena_has(s.entities@, e) && entity_of(s, e).fraction == Fraction::Enemy;
        assert(enemy_ids(s).contains(e));
    }
    if enemy_ids(s).len() > 0 {
        let e = enemy_ids(s).choose();
        assert(enemy_ids(s).contains(e));
    }
}

/// A level lost for want of turns costs one heart for each enemy left on the
/// board, down to no heart at all.
pub proof fn law_lost_level_costs_hearts(m0: &Model, m1: &Model)
    requires
        turn_passed(m0, m1),
        m1.state.player.turns_left == 0,
    ensures
        m0.state.player.hearts - m1.state.player.hearts == if m0.state.player.hearts < enemy_ids(&m0.state).len() {
            m0.state.player.hearts as int
        } else {
            enemy_ids(&m0.state).len() as int
        },
{
    law_enemy_total(&m0.state);
}

} // verus!

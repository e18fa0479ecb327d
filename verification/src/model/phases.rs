use vstd::prelude::*;
use std::collections::VecDeque;
use crate::geom::Pos;
use crate::arena::{Arena, arena_get, arena_has};
use crate::posset::PosSet;
use crate::item::{BoardItem, Id, InventoryItem, ItemStats};
use crate::entity::{Entity, EntityKind, Fraction};
use crate::effect::Trigger;
use crate::lights::tick_spec;
use crate::model::state::{ModelState, board_of, inv_of, entity_of, refs_ok, kinds_ok, health_ok};
use crate::model::vision::vision_spec;
use crate::model::game::{Model, Phase};

verus! {

/// Board item `a` resolves before board item `b`: left to right, then top to
/// bottom, then by id.
pub open spec fn resolves_before(s: &ModelState, a: int, b: int) -> bool {
    let pa = board_of(s, a).position;
    let pb = board_of(s, b).position;
    ||| pa.x < pb.x
    ||| (pa.x == pb.x && pa.y > pb.y)
    ||| (pa.x == pb.x && pa.y == pb.y && a < b)
}

/// `ids` lists every board item once, in resolution order.
pub open spec fn resolution_order(s: &ModelState, ids: Seq<Id>) -> bool {
    &&& forall|i: int| 0 <= i < ids.len() ==> arena_has(s.items@, #[trigger] ids[i] as int)
    &&& forall|b: int| #[trigger] arena_has(s.items@, b) ==> ids.contains(b as Id)
    &&& forall|i: int, j: int| 0 <= i < j < ids.len() ==> resolves_before(s, #[trigger] ids[i] as int, #[trigger] ids[j] as int)
}

/// `q1` is `q0` followed by every board item of `s`, in resolution order,
/// each to respond to `trigger`.
pub open spec fn queued_all(s: &ModelState, q0: Seq<(Id, Trigger)>, q1: Seq<(Id, Trigger)>, trigger: Trigger) -> bool {
    &&& q1.len() >= q0.len()
    &&& q1.subrange(0, q0.len() as int) == q0
    &&& resolution_order(s, q1.skip(q0.len() as int).map_values(|e: (Id, Trigger)| e.0))
    &&& forall|i: int| q0.len() <= i < q1.len() ==> #[trigger] q1[i].1 == trigger
}

/// No queue on the effect stack holds an effect.
pub open spec fn queues_empty(m: &Model) -> bool {
    forall|i: int| 0 <= i < m.effect_queue_stack@.len() ==> #[trigger] m.effect_queue_stack@[i]@.len() == 0
}

/// Board items resolve left to right, and within a column top to bottom:
/// in a resolution order, an item further left, or in the same column and
/// higher up, comes first.
pub proof fn law_resolution_left_right_top_bottom(s: &ModelState, ids: Seq<Id>, i: int, j: int)
    requires
        resolution_order(s, ids),
        0 <= i < ids.len(),
        0 <= j < ids.len(),
        ({
            let pa = board_of(s, ids[i] as int).position;
            let pb = board_of(s, ids[j] as int).position;
            pa.x < pb.x || (pa.x == pb.x && pa.y > pb.y)
        }),
    ensures
        i < j,
{
    if j < i {
        assert(resolves_before(s, ids[j] as int, ids[i] as int));
    }
}

/// The board ids below `n` of the board items showing owned item `i`.
pub open spec fn showing_below(items: Seq<Option<BoardItem>>, i: int, n: int) -> Set<int> {
    Set::new(|b: int| 0 <= b < n && arena_has(items, b) && arena_get(items, b).unwrap().item_id == i)
}

/// `board_refs` counts every board item that shows the item, once.
pub proof fn law_board_refs_counts(items: Seq<Option<BoardItem>>, i: int, n: int)
    requires
        0 <= n <= items.len(),
    ensures
        showing_below(items, i, n).finite(),
        board_refs(items, i, n) == showing_below(items, i, n).len(),
    decreases n,
{
    if n == 0 {
        assert(showing_below(items, i, 0) =~= Set::<int>::empty());
    } else {
        law_board_refs_counts(items, i, n - 1);
        let prev = showing_below(items, i, n - 1);
        if arena_has(items, n - 1) && arena_get(items, n - 1).unwrap().item_id == i {
            assert(showing_below(items, i, n) =~= prev.insert(n - 1));
            assert(!prev.contains(n - 1));
        } else {
            assert(showing_below(items, i, n) =~= prev);
        }
    }
}

/// Dawn counts one more turn on the board for an owned item for each board
/// item that shows it, and resets its temporary stats.
pub proof fn law_dawn_turns(m0: &Model, m1: &Model, i: int)
    requires
        dawned(m0, m1),
        turn_counts_fit(&m0.state),
        arena_has(m0.state.player.items@, i),
    ensures
        arena_has(m1.state.player.items@, i),
        inv_of(&m1.state, i).turns_on_board == inv_of(&m0.state, i).turns_on_board
            + showing_below(m0.state.items@, i, m0.state.items@.len() as int).len(),
        inv_of(&m1.state, i).temp_stats.damage is None,
{
    law_board_refs_counts(m0.state.items@, i, m0.state.items@.len() as int);
    assert(m1.state.player.items@[i] is Some);
}

/// Everything but the phase is as before.
pub open spec fn same_but_phase(m0: &Model, m1: &Model) -> bool {
    &&& m1.config == m0.config
    &&& m1.state == m0.state
    &&& m1.level == m0.level
    &&& m1.turn == m0.turn
    &&& m1.score == m0.score
    &&& m1.effect_queue_stack == m0.effect_queue_stack
    &&& m1.resolution_queue == m0.resolution_queue
}

/// The turn counters of the owned items can take one more turn for each
/// board item that shows them.
pub open spec fn turn_counts_fit(s: &ModelState) -> bool {
    forall|i: int| #[trigger] arena_has(s.player.items@, i)
        ==> inv_of(s, i).turns_on_board + board_refs(s.items@, i, s.items@.len() as int) <= usize::MAX
}

/// What dawn does: the fractured tiles are those under the players, lights
/// burn down, temporary stats reset, board items become unused and each owned
/// item counts one more turn for each board item that shows it.
pub open spec fn dawned(m0: &Model, m1: &Model) -> bool {
    &&& m1.phase == Phase::Dawn
    &&& m1.config == m0.config
    &&& m1.level == m0.level
    &&& m1.turn == m0.turn
    &&& m1.score == m0.score
    &&& m1.effect_queue_stack == m0.effect_queue_stack
    &&& m1.resolution_queue == m0.resolution_queue
    &&& m1.state.all_items == m0.state.all_items
    &&& m1.state.entities == m0.state.entities
    &&& m1.state.visible_tiles == m0.state.visible_tiles
    &&& m1.state.grid.tiles == m0.state.grid.tiles
    &&& m1.state.grid.fractured@ == player_spots(m0.state.entities@, m0.state.entities@.len() as int)
    &&& m1.state.grid.lights@ == tick_spec(m0.state.grid.lights@)
    &&& m1.state.player.extra_items == m0.turn % 2
    &&& m1.state.player.moves_left == m0.state.player.moves_left
    &&& m1.state.player.turns_left == m0.state.player.turns_left
    &&& m1.state.player.hearts == m0.state.player.hearts
    &&& m1.state.player.refreshes == m0.state.player.refreshes
    &&& m1.state.items@.len() == m0.state.items@.len()
    &&& forall|b: int| 0 <= b < m0.state.items@.len() ==> #[trigger] m1.state.items@[b] == match m0.state.items@[b] {
            Some(item) => Some(BoardItem { used: false, ..item }),
            None => None,
        }
    &&& m1.state.player.items@.len() == m0.state.player.items@.len()
    &&& forall|i: int| 0 <= i < m0.state.player.items@.len() ==> #[trigger] m1.state.player.items@[i] == match m0.state.player.items@[i] {
            Some(inv) => Some(InventoryItem {
                temp_stats: ItemStats { damage: None },
                turns_on_board: (inv.turns_on_board + board_refs(m0.state.items@, i, m0.state.items@.len() as int)) as usize,
                ..inv
            }),
            None => None,
        }
}

/// The player is to pick where to look: nobody looks anywhere, and the
/// visible tiles are recomputed.
pub open spec fn vision_started(m0: &Model, m1: &Model) -> bool {
    &&& m1.phase == Phase::Vision
    &&& m1.state.player == m0.state.player
    &&& m1.state.all_items == m0.state.all_items
    &&& m1.state.grid == m0.state.grid
    &&& m1.state.items == m0.state.items
    &&& m1.state.entities@.len() == m0.state.entities@.len()
    &&& forall|e: int| 0 <= e < m0.state.entities@.len() ==> #[trigger] m1.state.entities@[e] == match m0.state.entities@[e] {
            Some(ent) => Some(Entity { look_dir: Pos { x: 0, y: 0 }, ..ent }),
            None => None,
        }
    &&& m1.state.visible_tiles@ == vision_spec(&m1.state)
    &&& m1.config == m0.config
    &&& m1.level == m0.level
    &&& m1.turn == m0.turn
    &&& m1.score == m0.score
    &&& m1.effect_queue_stack == m0.effect_queue_stack
    &&& m1.resolution_queue == m0.resolution_queue
}

/// How many board items among the ids below `n` show inventory item `i`.
pub open spec fn board_refs(items: Seq<Option<BoardItem>>, i: int, n: int) -> nat
    decreases n,
{
    if n <= 0 {
        0
    } else {
        board_refs(items, i, n - 1) + match arena_get(items, n - 1) {
            Some(b) => if b.item_id == i { 1nat } else { 0nat },
            None => 0nat,
        }
    }
}

proof fn lemma_board_refs_mono(items: Seq<Option<BoardItem>>, i: int, a: int, b: int)
    requires
        a <= b,
    ensures
        board_refs(items, i, a) <= board_refs(items, i, b),
    decreases b - a,
{
    if a < b {
        lemma_board_refs_mono(items, i, a, b - 1);
    }
}

/// No more board items show an item than there are board ids.
pub proof fn lemma_board_refs_bound(items: Seq<Option<BoardItem>>, i: int, n: int)
    requires
        n >= 0,
    ensures
        board_refs(items, i, n) <= n,
    decreases n,
{
    if n > 0 {
        lemma_board_refs_bound(items, i, n - 1);
    }
}

/// The positions of the player entities among the ids below `n`.
pub open spec fn player_spots(es: Seq<Option<Entity>>, n: int) -> Set<(int, int)> {
    Set::new(|q: (int, int)| exists|e: int| 0 <= e < n && arena_has(es, e)
        && #[trigger] arena_get(es, e).unwrap().kind == EntityKind::Player && arena_get(es, e).unwrap().position@ == q)
}

/// The positions of the player entities.
fn player_positions(entities: &Arena<Entity>) -> (out: PosSet)
    ensures
        out.wf(),
        out@ == player_spots(entities@, entities@.len() as int),
{
    let mut out = PosSet::new();
    let n = entities.id_bound();
    for e in 0..n
        invariant
            n == entities@.len(),
            out.wf(),
            forall|q: (int, int)| #[trigger] out@.contains(q) <==> player_spots(entities@, e as int).contains(q),
    {
        let ghost before = out@;
        match entities.get(e) {
            Some(ent) => {
                if ent.kind == EntityKind::Player {
                    out.insert(ent.position);
                }
            },
            None => {},
        }
        assert forall|q: (int, int)| #[trigger] out@.contains(q) <==> player_spots(entities@, e + 1).contains(q) by {
            if player_spots(entities@, e + 1).contains(q) {
                let e2 = choose|e2: int| 0 <= e2 < e + 1 && arena_has(entities@, e2)
                    && #[trigger] arena_get(entities@, e2).unwrap().kind == EntityKind::Player && arena_get(entities@, e2).unwrap().position@ == q;
                if e2 < e {
                    assert(player_spots(entities@, e as int).contains(q));
                }
            }
            if player_spots(entities@, e as int).contains(q) {
                let e2 = choose|e2: int| 0 <= e2 < e && arena_has(entities@, e2)
                    && #[trigger] arena_get(entities@, e2).unwrap().kind == EntityKind::Player && arena_get(entities@, e2).unwrap().position@ == q;
                assert(player_spots(entities@, e + 1).contains(q));
            }
        }
    }
    assert(out@ =~= player_spots(entities@, n as int));
    out
}

/// Resets the temporary stats of every item.
fn clear_temp_stats(items: &mut Arena<InventoryItem>)
    ensures
        final(items)@.len() == old(items)@.len(),
        forall|j: int| 0 <= j < old(items)@.len() ==> #[trigger] final(items)@[j] == match old(items)@[j] {
            Some(inv) => Some(InventoryItem { temp_stats: ItemStats { damage: None }, ..inv }),
            None => None,
        },
{
    let ghost s1 = items@;
    let m = items.id_bound();
    for i in 0..m
        invariant
            m == s1.len(),
            items@.len() == m,
            forall|j: int| 0 <= j < m ==> #[trigger] items@[j] == if j < i {
                match s1[j] {
                    Some(inv) => Some(InventoryItem { temp_stats: ItemStats { damage: None }, ..inv }),
                    None => None,
                }
            } else {
                s1[j]
            },
    {
        match items.get(i) {
            Some(inv) => {
                items.set(i, InventoryItem { temp_stats: ItemStats::none(), ..inv });
            },
            None => {},
        }
    }
}

/// Marks every board item unused and counts a turn on the board for the item
/// each board item shows.
fn start_day(board: &mut Arena<BoardItem>, inventory: &mut Arena<InventoryItem>)
    requires
        forall|b: int| #[trigger] arena_has(old(board)@, b) ==> arena_has(old(inventory)@, arena_get(old(board)@, b).unwrap().item_id as int),
        forall|j: int| #[trigger] arena_has(old(inventory)@, j)
            ==> arena_get(old(inventory)@, j).unwrap().turns_on_board + board_refs(old(board)@, j, old(board)@.len() as int) <= usize::MAX,
    ensures
        final(board)@.len() == old(board)@.len(),
        forall|c: int| 0 <= c < old(board)@.len() ==> #[trigger] final(board)@[c] == match old(board)@[c] {
            Some(item) => Some(BoardItem { used: false, ..item }),
            None => None,
        },
        final(inventory)@.len() == old(inventory)@.len(),
        forall|j: int| 0 <= j < old(inventory)@.len() ==> #[trigger] final(inventory)@[j] == match old(inventory)@[j] {
            Some(inv) => Some(InventoryItem { turns_on_board: (inv.turns_on_board + board_refs(old(board)@, j, old(board)@.len() as int)) as usize, ..inv }),
            None => None,
        },
{
    let ghost b0 = board@;
    let ghost i0 = inventory@;
    let nb = board.id_bound();
    let m = inventory.id_bound();
    for b in 0..nb
        invariant
            nb == board@.len(),
            nb == b0.len(),
            m == i0.len(),
            inventory@.len() == m,
            forall|c: int| 0 <= c < nb ==> #[trigger] board@[c] == if c < b {
                match b0[c] {
                    Some(item) => Some(BoardItem { used: false, ..item }),
                    None => None,
                }
            } else {
                b0[c]
            },
            forall|j: int| 0 <= j < m ==> #[trigger] inventory@[j] == match i0[j] {
                Some(inv) => Some(InventoryItem { turns_on_board: (inv.turns_on_board + board_refs(b0, j, b as int)) as usize, ..inv }),
                None => None,
            },
            forall|j: int| #[trigger] arena_has(i0, j) ==> arena_get(i0, j).unwrap().turns_on_board + board_refs(b0, j, nb as int) <= usize::MAX,
            forall|c: int| #[trigger] arena_has(b0, c) ==> arena_has(i0, arena_get(b0, c).unwrap().item_id as int),
    {
        match board.get(b) {
            Some(item) => {
                assert(arena_has(b0, b as int));
                board.set(b, BoardItem { used: false, ..item });
                let inv = inventory.get(item.item_id).unwrap();
                proof {
                    lemma_board_refs_mono(b0, item.item_id as int, b + 1, nb as int);
                    assert(arena_has(i0, item.item_id as int));
                }
                inventory.set(item.item_id, InventoryItem { turns_on_board: inv.turns_on_board + 1, ..inv });
            },
            None => {},
        }
    }
}

/// Makes every entity look nowhere.
fn clear_look_dirs(entities: &mut Arena<Entity>)
    ensures
        final(entities)@.len() == old(entities)@.len(),
        forall|e: int| 0 <= e < old(entities)@.len() ==> #[trigger] final(entities)@[e] == match old(entities)@[e] {
            Some(ent) => Some(Entity { look_dir: Pos { x: 0, y: 0 }, ..ent }),
            None => None,
        },
{
    let ghost s0 = entities@;
    let n = entities.id_bound();
    for e in 0..n
        invariant
            n == entities@.len(),
            n == s0.len(),
            forall|j: int| 0 <= j < n ==> #[trigger] entities@[j] == if j < e {
                match s0[j] {
                    Some(ent) => Some(Entity { look_dir: Pos { x: 0, y: 0 }, ..ent }),
                    None => None,
                }
            } else {
                s0[j]
            },
    {
        match entities.get(e) {
            Some(ent) => {
                entities.set(e, Entity { look_dir: Pos::new(0, 0), ..ent });
            },
            None => {},
        }
    }
}

impl ModelState {
    /// Whether board item `a` lies right of `item`, or level with it and below.
    fn placed_after(&self, a: Id, item: BoardItem) -> (r: bool)
        requires
            arena_has(self.items@, a as int),
        ensures
            r == {
                let pa = board_of(self, a as int).position;
                pa.x > item.position.x || (pa.x == item.position.x && pa.y < item.position.y)
            },
    {
        let other = self.items.get(a).unwrap();
        other.position.x > item.position.x || (other.position.x == item.position.x && other.position.y < item.position.y)
    }

    /// The ids of all board items in resolution order.
    pub fn resolution_order_ids(&self) -> (ids: Vec<Id>)
        ensures
            resolution_order(self, ids@),
    {
        let mut ids: Vec<Id> = Vec::new();
        let n = self.items.id_bound();
        for b in 0..n
            invariant
                n == self.items@.len(),
                forall|i: int| 0 <= i < ids.len() ==> arena_has(self.items@, #[trigger] ids[i] as int) && ids[i] < b,
                forall|c: int| 0 <= c < b && #[trigger] arena_has(self.items@, c) ==> ids@.contains(c as Id),
                forall|i: int, j: int| 0 <= i < j < ids.len() ==> resolves_before(self, #[trigger] ids[i] as int, #[trigger] ids[j] as int),
        {
            match self.items.get(b) {
                Some(item) => {
                    let ghost before = ids@;
                    let mut k: usize = 0;
                    while k < ids.len() && !self.placed_after(ids[k], item)
                        invariant
                            0 <= k <= ids.len(),
                            ids@ == before,
                            arena_get(self.items@, b as int) == Some(item),
                            forall|i: int| 0 <= i < ids.len() ==> arena_has(self.items@, #[trigger] ids[i] as int) && ids[i] < b,
                            forall|i: int| 0 <= i < k ==> resolves_before(self, #[trigger] ids[i] as int, b as int),
                        decreases ids.len() - k,
                    {
                        k += 1;
                    }
                    proof {
                        if k < ids.len() {
                            assert forall|i: int| k <= i < ids.len() implies resolves_before(self, b as int, #[trigger] ids[i] as int) by {
                                if i > k {
                                    assert(resolves_before(self, ids[k as int] as int, ids[i] as int));
                                }
                            }
                        }
                    }
                    ids.insert(k, b);
                    assert forall|i: int, j: int| 0 <= i < j < ids.len() implies resolves_before(self, #[trigger] ids[i] as int, #[trigger] ids[j] as int) by {
                        if j < k {
                            assert(ids[i] == before[i] && ids[j] == before[j]);
                        } else if j == k {
                            assert(ids[i] == before[i]);
                        } else if i == k {
                            assert(ids[j] == before[j - 1]);
                        } else if i < k {
                            assert(ids[i] == before[i] && ids[j] == before[j - 1]);
                        } else {
                            assert(ids[i] == before[i - 1] && ids[j] == before[j - 1]);
                        }
                    }
                    assert forall|c: int| 0 <= c < b + 1 && #[trigger] arena_has(self.items@, c) implies ids@.contains(c as Id) by {
                        if c == b {
                            assert(ids[k as int] == b);
                        } else {
                            let i = choose|i: int| 0 <= i < before.len() && before[i] == c as Id;
                            if i < k {
                                assert(ids[i] == c as Id);
                            } else {
                                assert(ids[i + 1] == c as Id);
                            }
                        }
                    }
                    assert forall|i: int| 0 <= i < ids.len() implies arena_has(self.items@, #[trigger] ids[i] as int) && ids[i] < b + 1 by {
                        if i < k {
                            assert(ids[i] == before[i]);
                        } else if i > k {
                            assert(ids[i] == before[i - 1]);
                        }
                    }
                },
                None => {},
            }
        }
        ids
    }
}

impl ModelState {
    /// The number of board items that show owned item `i`.
    fn board_refs_of(&self, i: Id) -> (r: usize)
        ensures
            r == board_refs(self.items@, i as int, self.items@.len() as int),
    {
        let n = self.items.id_bound();
        let mut r: usize = 0;
        for j in 0..n
            invariant
                n == self.items@.len(),
                r == board_refs(self.items@, i as int, j as int),
        {
            proof {
                lemma_board_refs_bound(self.items@, i as int, j as int);
            }
            match self.items.get(j) {
                Some(b) => {
                    if b.item_id == i {
                        r = r + 1;
                    }
                },
                None => {},
            }
        }
        r
    }

    /// Whether every turn counter can take one more turn for each board item
    /// that shows its item.
    pub fn turn_counts_checked(&self) -> (b: bool)
        ensures
            b == turn_counts_fit(self),
    {
        let m = self.player.items.id_bound();
        for i in 0..m
            invariant
                m == self.player.items@.len(),
                forall|j: int| 0 <= j < i && #[trigger] arena_has(self.player.items@, j)
                    ==> inv_of(self, j).turns_on_board + board_refs(self.items@, j, self.items@.len() as int) <= usize::MAX,
        {
            match self.player.items.get(i) {
                Some(inv) => {
                    let refs = self.board_refs_of(i);
                    if inv.turns_on_board as u128 + refs as u128 > usize::MAX as u128 {
                        assert(arena_has(self.player.items@, i as int));
                        return false;
                    }
                },
                None => {},
            }
        }
        assert forall|j: int| #[trigger] arena_has(self.player.items@, j)
            implies inv_of(self, j).turns_on_board + board_refs(self.items@, j, self.items@.len() as int) <= usize::MAX by {
            assert(0 <= j < m);
        }
        true
    }
}

impl Model {
    /// Whether all effects are processed and executed: nothing waits in the
    /// resolution queue, no queue on the effect stack holds an effect, and (as
    /// the caller reports) no animation runs.
    pub fn wait_for_effects(&self, animations_done: bool) -> (b: bool)
        ensures
            b == (self.resolution_queue@.len() == 0 && queues_empty(self) && animations_done),
    {
        if self.resolution_queue.len() != 0 || !animations_done {
            return false;
        }
        let n = self.effect_queue_stack.len();
        for i in 0..n
            invariant
                n == self.effect_queue_stack@.len(),
                forall|j: int| 0 <= j < i ==> #[trigger] self.effect_queue_stack@[j]@.len() == 0,
        {
            if self.effect_queue_stack[i].len() != 0 {
                return false;
            }
        }
        true
    }

    /// Queues every board item, in resolution order, to respond to `trigger`.
    pub fn resolve_all(&mut self, trigger: Trigger)
        ensures
            final(self).config == old(self).config,
            final(self).state == old(self).state,
            final(self).level == old(self).level,
            final(self).turn == old(self).turn,
            final(self).score == old(self).score,
            final(self).phase == old(self).phase,
            final(self).effect_queue_stack == old(self).effect_queue_stack,
            queued_all(&old(self).state, old(self).resolution_queue@, final(self).resolution_queue@, trigger),
    {
        let ids = self.state.resolution_order_ids();
        let ghost q0 = self.resolution_queue@;
        let ghost m0 = *self;
        let n = ids.len();
        for i in 0..n
            invariant
                n == ids.len(),
                self.config == m0.config,
                self.state == m0.state,
                self.level == m0.level,
                self.turn == m0.turn,
                self.score == m0.score,
                self.phase == m0.phase,
                self.effect_queue_stack == m0.effect_queue_stack,
                self.resolution_queue@.len() == q0.len() + i,
                self.resolution_queue@.subrange(0, q0.len() as int) == q0,
                forall|j: int| 0 <= j < i ==> #[trigger] self.resolution_queue@[q0.len() + j] == (ids[j], trigger),
        {
            self.resolution_queue.push_back((ids[i], trigger));
            assert(self.resolution_queue@.subrange(0, q0.len() as int) =~= q0);
        }
        let ghost tail = self.resolution_queue@.skip(q0.len() as int).map_values(|e: (Id, Trigger)| e.0);
        assert(tail =~= ids@) by {
            assert forall|j: int| 0 <= j < n implies tail[j] == ids[j] by {
                assert(self.resolution_queue@[q0.len() + j] == (ids[j], trigger));
            }
        }
        assert forall|i: int| q0.len() <= i < self.resolution_queue@.len() implies #[trigger] self.resolution_queue@[i].1 == trigger by {
            assert(self.resolution_queue@[q0.len() + (i - q0.len())] == (ids[i - q0.len()], trigger));
        }
    }

    /// Night: items respond to the night.
    pub fn night_phase(&mut self)
        ensures
            final(self).phase == Phase::Night,
            final(self).state == old(self).state,
            final(self).config == old(self).config,
            final(self).level == old(self).level,
            final(self).turn == old(self).turn,
            final(self).score == old(self).score,
            final(self).effect_queue_stack == old(self).effect_queue_stack,
            queued_all(&old(self).state, old(self).resolution_queue@, final(self).resolution_queue@, Trigger::Night),
    {
        self.phase = Phase::Night;
        self.resolve_all(Trigger::Night);
    }

    /// Dawn: the fractured tiles heal but under the players, lights burn down,
    /// temporary stats reset, items become unused and count one more turn on
    /// the board.
    pub fn dawn_phase(&mut self)
        requires
            old(self).wf(),
            turn_counts_fit(&old(self).state),
        ensures
            final(self).wf(),
            dawned(old(self), final(self)),
    {
        self.phase = Phase::Dawn;
        self.state.player.extra_items = self.turn % 2;
        let ghost s0 = self.state;
        self.state.grid.fractured = player_positions(&self.state.entities);
        self.state.grid.decay_lights();
        clear_temp_stats(&mut self.state.player.items);
        proof {
            assert forall|j: int| #[trigger] arena_has(self.state.player.items@, j) implies
                arena_get(self.state.player.items@, j).unwrap().turns_on_board + board_refs(self.state.items@, j, self.state.items@.len() as int) <= usize::MAX by {
                assert(arena_has(s0.player.items@, j));
            }
            assert forall|b: int| #[trigger] arena_has(self.state.items@, b) implies
                arena_has(self.state.player.items@, arena_get(self.state.items@, b).unwrap().item_id as int) by {
                assert(arena_has(s0.items@, b));
                assert(arena_has(s0.player.items@, board_of(&s0, b).item_id as int));
            }
        }
        start_day(&mut self.state.items, &mut self.state.player.items);
        proof {
            assert forall|b: int| #[trigger] arena_has(self.state.items@, b)
                implies arena_has(self.state.player.items@, board_of(&self.state, b).item_id as int) by {
                assert(arena_has(s0.items@, b));
                assert(arena_has(s0.player.items@, board_of(&s0, b).item_id as int));
            }
            crate::model::state::lemma_inventory_kept(&s0, &self.state);
        }
    }

    /// The player may move; they get three moves.
    pub fn day_end_phase(&mut self)
        ensures
            final(self).phase == Phase::Player,
            final(self).state.player.moves_left == 3,
            final(self).state.player.items == old(self).state.player.items,
            final(self).state.player.turns_left == old(self).state.player.turns_left,
            final(self).state.player.hearts == old(self).state.player.hearts,
            final(self).state.player.extra_items == old(self).state.player.extra_items,
            final(self).state.player.refreshes == old(self).state.player.refreshes,
            final(self).state.all_items == old(self).state.all_items,
            final(self).state.grid == old(self).state.grid,
            final(self).state.items == old(self).state.items,
            final(self).state.entities == old(self).state.entities,
            final(self).state.visible_tiles == old(self).state.visible_tiles,
            final(self).config == old(self).config,
            final(self).level == old(self).level,
            final(self).turn == old(self).turn,
            final(self).score == old(self).score,
            final(self).effect_queue_stack == old(self).effect_queue_stack,
            final(self).resolution_queue == old(self).resolution_queue,
    {
        self.phase = Phase::Player;
        self.state.player.moves_left = 3;
    }

    /// The player can move again.
    pub fn player_phase(&mut self)
        ensures
            final(self).phase == Phase::Player,
            same_but_phase(old(self), final(self)),
    {
        self.phase = Phase::Player;
    }

    /// The day begins: the items' day bonuses come first; vision is reset.
    pub fn resolution_phase(&mut self)
        requires
            old(self).wf(),
        ensures
            final(self).wf(),
            final(self).phase == (Phase::DayBonus { started: false }),
            final(self).state.visible_tiles@ == Set::<(int, int)>::empty(),
            final(self).state.player == old(self).state.player,
            final(self).state.all_items == old(self).state.all_items,
            final(self).state.grid == old(self).state.grid,
            final(self).state.items == old(self).state.items,
            final(self).state.entities == old(self).state.entities,
            final(self).config == old(self).config,
            final(self).level == old(self).level,
            final(self).turn == old(self).turn,
            final(self).score == old(self).score,
            final(self).effect_queue_stack == old(self).effect_queue_stack,
            final(self).resolution_queue == old(self).resolution_queue,
    {
        self.phase = Phase::DayBonus { started: false };
        self.state.visible_tiles.clear();
    }

    /// The player picks where to look; nobody looks anywhere yet.
    pub fn vision_phase(&mut self)
        requires
            old(self).wf(),
        ensures
            final(self).wf(),
            vision_started(old(self), final(self)),
    {
        self.phase = Phase::Vision;
        let ghost s0 = self.state;
        clear_look_dirs(&mut self.state.entities);
        proof {
            assert forall|e: int| #[trigger] arena_has(self.state.entities@, e) implies entity_of(&self.state, e).health.wf() by {
                assert(arena_has(s0.entities@, e));
            }
        }
        let ghost s1 = self.state;
        self.state.update_vision();
        proof {
            crate::model::vision::lemma_vision_depends(&self.state, &s1);
        }
    }

    /// The game is lost.
    pub fn game_over(&mut self)
        ensures
            final(self).phase == Phase::GameOver,
            same_but_phase(old(self), final(self)),
    {
        self.phase = Phase::GameOver;
    }

    /// The level ends, won or lost; a win waits until every effect is done.
    pub fn finish_level(&mut self, win: bool, animations_done: bool)
        ensures
            same_but_phase(old(self), final(self)),
            final(self).phase == if win && !(old(self).resolution_queue@.len() == 0 && queues_empty(old(self)) && animations_done) {
                old(self).phase
            } else {
                Phase::LevelFinished { win }
            },
    {
        if win && !self.wait_for_effects(animations_done) {
            // Cant win until all effects are done
            return;
        }
        self.phase = Phase::LevelFinished { win };
    }
}

} // verus!

use vstd::prelude::*;
use crate::geom::{Pos, abs_spec, add_spec, fits_coord};
use crate::arena::{Arena, arena_get, arena_has, first_of, first_where, lemma_first_of, lemma_first_none};
use crate::item::{Category, Id, ItemFilter, ItemStats, BoardItem, InventoryItem};
use crate::entity::{Entity, EntityKind};
use crate::player::PlayerInput;
use crate::grid::{Grid, near_spec};
use crate::player::Player;
use crate::model::phases::vision_started;
use crate::model::turn::{in_shop, shop_open, select_started};
use crate::model::vision::vision_spec;
use crate::model::state::{ModelState, board_of, inv_of, entity_of, refs_ok, kinds_ok, health_ok, onboard_ok};
use crate::model::lookup::{item_on, is_player, find_item_at, find_player};
use crate::model::game::{Model, Outcome, Phase};
use crate::model::flow::effects_idle;

verus! {

/// What a map action does: a tile picked next to the map is added, and the
/// phase moves on once no tile is left to pick. Returns whether it happened.
pub open spec fn map_acted(m0: &Model, input: PlayerInput, m1: &Model, done: bool) -> bool {
    let unchanged = !done && *m1 == *m0;
    match input {
        PlayerInput::Tile(pos) => match m0.phase {
            Phase::MapTiles { tiles_left, next_phase } => if near_spec(m0.state.grid.tiles@, pos@) {
                let left: int = if tiles_left > 0 { tiles_left - 1 } else { 0 };
                &&& done
                &&& *m1 == Model {
                    phase: if left == 0 { *next_phase } else { Phase::MapTiles { tiles_left: left as usize, next_phase } },
                    state: ModelState { grid: m1.state.grid, ..m0.state },
                    ..*m0
                }
                &&& m1.state.grid.tiles@ == m0.state.grid.tiles@.insert(pos@)
                &&& m1.state.grid.fractured@ == m0.state.grid.fractured@
                &&& m1.state.grid.lights@ == m0.state.grid.lights@
            } else {
                unchanged
            },
            _ => unchanged,
        },
        _ => unchanged,
    }
}

/// Board item `b` shows a magic item.
pub open spec fn shows_magic(s: &ModelState, b: int) -> bool {
    ItemFilter::Category(Category::Magic).matches(&s.all_items@[inv_of(s, board_of(s, b).item_id as int).kind as int])
}

/// What a portal action does: on a tile that is not fractured, the first
/// board item there, if magic, swaps places with the first player; the tile
/// becomes fractured and the phase moves on. Returns whether it happened.
pub open spec fn portal_acted(m0: &Model, input: PlayerInput, m1: &Model, done: bool) -> bool {
    let s = &m0.state;
    let unchanged = !done && *m1 == *m0;
    match input {
        PlayerInput::Tile(target) => match m0.phase {
            Phase::Portal { next_phase } => if s.grid.tiles@.contains(target@) && !s.grid.fractured@.contains(target@) {
                match first_of(s.items@, item_on(target@)) {
                    Some(b) => if shows_magic(s, b) {
                        match first_of(s.entities@, is_player()) {
                            Some(p) => {
                                &&& done
                                &&& *m1 == Model {
                                    phase: *next_phase,
                                    state: ModelState {
                                        grid: m1.state.grid,
                                        items: m1.state.items,
                                        entities: m1.state.entities,
                                        ..m0.state
                                    },
                                    ..*m0
                                }
                                &&& m1.state.items@ == s.items@.update(b, Some(BoardItem { position: entity_of(s, p).position, ..board_of(s, b) }))
                                &&& m1.state.entities@ == s.entities@.update(p, Some(Entity { position: target, ..entity_of(s, p) }))
                                &&& m1.state.grid.tiles == s.grid.tiles
                                &&& m1.state.grid.lights == s.grid.lights
                                &&& m1.state.grid.fractured@ == s.grid.fractured@.insert(target@)
                            },
                            None => unchanged,
                        }
                    } else {
                        unchanged
                    },
                    None => unchanged,
                }
            } else {
                unchanged
            },
            _ => unchanged,
        },
        _ => unchanged,
    }
}

/// The direction `input` asks entity `e` to look in, before it is cut to
/// one step; `None` when the input gives none.
pub open spec fn raw_look(input: PlayerInput, e: Entity) -> Option<(int, int)> {
    match input {
        PlayerInput::Dir(d) => Some(d@),
        PlayerInput::Tile(p) => Some((p.x - e.position.x, p.y - e.position.y)),
        PlayerInput::Vision { pos, .. } => Some((pos.x - e.position.x, pos.y - e.position.y)),
        _ => None,
    }
}

/// A player that cannot look as `input` asks: no direction, or a diagonal one.
pub open spec fn look_refused(input: PlayerInput) -> spec_fn(Entity) -> bool {
    |e: Entity| e.kind == EntityKind::Player && match raw_look(input, e) {
        Some(d) => d.0 != 0 && d.1 != 0,
        None => true,
    }
}

/// `v` cut to `-1..=1`.
pub open spec fn clamp_unit(v: int) -> int {
    if v > 1 { 1 } else if v < -1 { -1 } else { v }
}

/// The entity looking as `input` asks, one step at most along each axis.
pub open spec fn looked(input: PlayerInput, e: Entity) -> Entity {
    match raw_look(input, e) {
        Some(d) => Entity { look_dir: Pos { x: clamp_unit(d.0) as i64, y: clamp_unit(d.1) as i64 }, ..e },
        None => e,
    }
}

/// The players with ids below `n` look as `input` asks.
pub open spec fn looks_set(es: Seq<Option<Entity>>, input: PlayerInput, n: int) -> Seq<Option<Entity>> {
    Seq::new(es.len(), |j: int| match es[j] {
        Some(e) => if j < n && e.kind == EntityKind::Player { Some(looked(input, e)) } else { Some(e) },
        None => None,
    })
}

/// What a vision action does: the players, in id order, look as asked, up to
/// the first one that cannot; if none refused, the visible tiles are
/// recomputed, and a committed vision moves on to show it. Returns whether
/// it was committed.
pub open spec fn vision_acted(m0: &Model, input: PlayerInput, m1: &Model, committed: bool) -> bool {
    let es = m0.state.entities@;
    match first_of(es, look_refused(input)) {
        Some(k) => {
            &&& !committed
            &&& *m1 == Model { state: ModelState { entities: m1.state.entities, ..m0.state }, ..*m0 }
            &&& m1.state.entities@ == looks_set(es, input, k)
        },
        None => {
            &&& m1.state.entities@ == looks_set(es, input, es.len() as int)
            &&& m1.state.visible_tiles@ == vision_spec(&m1.state)
            &&& *m1 == Model {
                phase: m1.phase,
                state: ModelState { entities: m1.state.entities, visible_tiles: m1.state.visible_tiles, ..m0.state },
                ..*m0
            }
            &&& committed == (input matches PlayerInput::Vision { commit, .. } && commit)
            &&& m1.phase == if committed { Phase::PostVision } else { m0.phase }
        },
    }
}

/// `v` cut to `-1..=1`.
fn clamp_step(v: i128) -> (r: i64)
    ensures
        r == clamp_unit(v as int),
{
    if v > 1 {
        1
    } else if v < -1 {
        -1
    } else {
        v as i64
    }
}

/// The ids below `n` of the board items lying at `q`, in order.
pub open spec fn items_at(items: Seq<Option<BoardItem>>, q: (int, int), n: int) -> Seq<Id>
    decreases n,
{
    if n <= 0 {
        Seq::empty()
    } else {
        let prev = items_at(items, q, n - 1);
        if arena_has(items, n - 1) && arena_get(items, n - 1).unwrap().position@ == q {
            prev.push((n - 1) as Id)
        } else {
            prev
        }
    }
}

/// The step `input` asks player `e` to take; `None` when it gives none.
pub open spec fn raw_step(s: &ModelState, input: PlayerInput, e: Entity) -> Option<(int, int)> {
    match input {
        PlayerInput::Dir(d) => Some(d@),
        PlayerInput::Tile(p) => if s.grid.tiles@.contains(p@) {
            Some((p.x - e.position.x, p.y - e.position.y))
        } else {
            None
        },
        _ => None,
    }
}

/// Going through the players with ids below `n`: whether the input was
/// refused, and otherwise the step the last of them is asked to take.
pub open spec fn move_dir(s: &ModelState, input: PlayerInput, n: int) -> (bool, (int, int))
    decreases n,
{
    if n <= 0 {
        (false, (0, 0))
    } else {
        let prev = move_dir(s, input, n - 1);
        if prev.0 {
            prev
        } else if arena_has(s.entities@, n - 1) && entity_of(s, n - 1).kind == EntityKind::Player {
            match raw_step(s, input, entity_of(s, n - 1)) {
                Some(d) => (false, d),
                None => (true, prev.1),
            }
        } else {
            prev
        }
    }
}

/// Walking the players with ids below `n` one step along `dir`: the
/// fractured tiles, the board items activated on the way, and the last
/// player that moved with its target. A player moves onto a tile that is
/// not fractured yet, and fractures it.
pub open spec fn walk(s: &ModelState, dir: Pos, n: int) -> (Set<(int, int)>, Seq<Id>, Option<(Id, Pos)>)
    decreases n,
{
    if n <= 0 {
        (s.grid.fractured@, Seq::empty(), None)
    } else {
        let prev = walk(s, dir, n - 1);
        let e = entity_of(s, n - 1);
        let t = add_spec(e.position@, dir@);
        if arena_has(s.entities@, n - 1) && e.kind == EntityKind::Player && fits_coord(t.0) && fits_coord(t.1)
            && s.grid.tiles@.contains(t) && !prev.0.contains(t) {
            (
                prev.0.insert(t),
                prev.1 + items_at(s.items@, t, s.items@.len() as int),
                Some(((n - 1) as Id, Pos { x: t.0 as i64, y: t.1 as i64 })),
            )
        } else {
            prev
        }
    }
}

/// What a move does: without moves left, or when skipping, the player is to
/// look around (a skip plays the step); a step of one tile along an axis
/// moves every player that can go, fracturing the tiles it steps on,
/// activates the items there and costs a move; anything else does nothing.
pub open spec fn move_acted(m0: &Model, input: PlayerInput, m1: &Model, step: bool, activated: Seq<Id>) -> bool {
    let s = &m0.state;
    let n = s.entities@.len() as int;
    let d = move_dir(s, input, n);
    if m0.state.player.moves_left == 0 {
        !step && activated.len() == 0 && vision_started(m0, m1)
    } else if input == PlayerInput::Skip {
        step && activated.len() == 0 && vision_started(m0, m1)
    } else if d.0 || abs_spec(d.1.0) + abs_spec(d.1.1) != 1 {
        !step && activated.len() == 0 && *m1 == *m0
    } else {
        let w = walk(s, Pos { x: d.1.0 as i64, y: d.1.1 as i64 }, n);
        &&& activated == w.1
        &&& step == w.2 is Some
        &&& m1.state.grid.fractured@ == w.0
        &&& *m1 == Model {
            phase: match w.2 {
                Some(last) => Phase::Active { entity_id: last.0, position: last.1 },
                None => m0.phase,
            },
            state: ModelState {
                grid: Grid { fractured: m1.state.grid.fractured, ..m0.state.grid },
                player: Player { moves_left: if step { (m0.state.player.moves_left - 1) as usize } else { m0.state.player.moves_left }, ..m0.state.player },
                ..m0.state
            },
            ..*m0
        }
    }
}

/// Walking never unfractures a tile, and the last player that moved stands
/// on a fractured tile that was not fractured before.
pub proof fn law_walk_fractures(s: &ModelState, dir: Pos, n: int)
    ensures
        s.grid.fractured@.subset_of(walk(s, dir, n).0),
        walk(s, dir, n).2 matches Some(last) ==> walk(s, dir, n).0.contains(last.1@) && !s.grid.fractured@.contains(last.1@),
    decreases n,
{
    if n > 0 {
        law_walk_fractures(s, dir, n - 1);
    }
}

/// The items activated on stepping onto `q` are exactly the board items
/// lying at `q`, each once, in id order.
pub proof fn law_items_at(items: Seq<Option<BoardItem>>, q: (int, int), n: int)
    requires
        0 <= n <= items.len(),
        items.len() <= usize::MAX,
    ensures
        forall|b: int| 0 <= b < n ==> (items_at(items, q, n).contains(b as Id)
            <==> (items[b] is Some && items[b].unwrap().position@ == q)),
        forall|i: int, j: int| 0 <= i < j < items_at(items, q, n).len()
            ==> items_at(items, q, n)[i] < items_at(items, q, n)[j],
        forall|i: int| 0 <= i < items_at(items, q, n).len() ==> items_at(items, q, n)[i] < n,
    decreases n,
{
    if n > 0 {
        law_items_at(items, q, n - 1);
        let prev = items_at(items, q, n - 1);
        if arena_has(items, n - 1) && arena_get(items, n - 1).unwrap().position@ == q {
            let cur = prev.push((n - 1) as Id);
            assert(items_at(items, q, n) == cur);
            assert forall|b: int| 0 <= b < n implies (cur.contains(b as Id)
                <==> (items[b] is Some && items[b].unwrap().position@ == q)) by {
                if b < n - 1 {
                    if cur.contains(b as Id) {
                        let k = choose|k: int| 0 <= k < cur.len() && cur[k] == b as Id;
                        if k < prev.len() {
                            assert(prev.contains(b as Id));
                        }
                    }
                    if prev.contains(b as Id) {
                        let k = choose|k: int| 0 <= k < prev.len() && prev[k] == b as Id;
                        assert(cur[k] == b as Id);
                    }
                } else {
                    assert(cur[cur.len() - 1] == b as Id);
                }
            }
        } else {
            assert forall|b: int| 0 <= b < n implies (prev.contains(b as Id)
                <==> (items[b] is Some && items[b].unwrap().position@ == q)) by {
                if b == n - 1 && prev.contains(b as Id) {
                    let k = choose|k: int| 0 <= k < prev.len() && prev[k] == b as Id;
                    assert(prev[k] < n - 1);
                }
            }
        }
    }
}

/// Once a player refused the input, it stays refused.
proof fn lemma_move_dir_refused(s: &ModelState, input: PlayerInput, a: int, b: int)
    requires
        move_dir(s, input, a).0,
        a <= b,
    ensures
        move_dir(s, input, b).0,
    decreases b - a,
{
    if a < b {
        lemma_move_dir_refused(s, input, a, b - 1);
    }
}

/// A fresh inventory item of kind `kind`.
pub open spec fn fresh_item(s: &ModelState, kind: usize) -> InventoryItem {
    InventoryItem {
        on_board: None,
        kind,
        turns_on_board: 0,
        base_stats: s.all_items@[kind as int].config.base_stats,
        perm_stats: ItemStats { damage: None },
        temp_stats: ItemStats { damage: None },
    }
}

/// The extra items still to choose in the select phase.
pub open spec fn extra_left(m: &Model) -> usize {
    match m.phase {
        Phase::Select { extra_items, .. } => extra_items,
        _ => 0,
    }
}

/// What picking kind `kind` does: a fresh item of that kind joins the
/// inventory under `id`, and the select phase goes on with the extra items.
pub open spec fn item_selected(m0: &Model, kind: usize, m1: &Model, id: Id) -> bool {
    &&& id == m0.state.player.items@.len()
    &&& exists|items: Arena<InventoryItem>| items@ == m0.state.player.items@.push(Some(fresh_item(&m0.state, kind)))
        && #[trigger] select_started(&Model { state: ModelState { player: Player { items, ..m0.state.player }, ..m0.state }, ..*m0 }, extra_left(m0), m1)
}

/// A reroll: one refresh less, and a new offer with one more item to choose.
pub open spec fn rerolled(m0: &Model, m1: &Model) -> bool {
    select_started(
        &Model { state: ModelState { player: Player { refreshes: (m0.state.player.refreshes - 1) as usize, ..m0.state.player }, ..m0.state }, ..*m0 },
        (extra_left(m0) + 1) as usize,
        m1,
    )
}

/// What an action needs: a picked offer exists, and what the select phase
/// goes on with can be had.
pub open spec fn action_ready(m: &Model, input: PlayerInput) -> bool {
    match m.phase {
        Phase::Select { options, extra_items } => match input {
            PlayerInput::SelectItem(i) => {
                &&& i < options@.len()
                &&& extra_items > 0 ==> shop_open(&m.state)
                &&& extra_items == 0 ==> m.turn < usize::MAX
            },
            PlayerInput::Skip => m.turn < usize::MAX,
            PlayerInput::Reroll => m.state.player.refreshes > 0 ==> extra_items < usize::MAX && shop_open(&m.state),
            _ => true,
        },
        _ => true,
    }
}

/// The outcome asks for nothing.
pub open spec fn quiet(o: &Outcome) -> bool {
    &&& !o.step_sound
    &&& o.activated@.len() == 0
    &&& o.new_items@.len() == 0
    &&& !o.retry
}

/// What an action of the player does in each phase; anything not listed
/// does nothing.
pub open spec fn action_done(m0: &Model, input: PlayerInput, animations_done: bool, m1: &Model, o: &Outcome) -> bool {
    let unchanged = quiet(o) && *m1 == *m0;
    let plain = o.activated@.len() == 0 && o.new_items@.len() == 0 && !o.retry;
    match m0.phase {
        Phase::Player => if effects_idle(m0, animations_done) {
            &&& move_acted(m0, input, m1, o.step_sound, o.activated@)
            &&& o.new_items@.len() == 0
            &&& !o.retry
        } else {
            unchanged
        },
        Phase::Vision => plain && vision_acted(m0, input, m1, o.step_sound),
        Phase::MapTiles { .. } => plain && map_acted(m0, input, m1, o.step_sound),
        Phase::Portal { .. } => plain && portal_acted(m0, input, m1, o.step_sound),
        Phase::Select { options, .. } => match input {
            PlayerInput::SelectItem(i) => {
                &&& o.step_sound
                &&& o.activated@.len() == 0
                &&& !o.retry
                &&& o.new_items@.len() == 1
                &&& item_selected(m0, options@[i as int], m1, o.new_items@[0])
            },
            PlayerInput::Skip => o.step_sound && plain && select_started(m0, 0, m1),
            PlayerInput::Reroll => if m0.state.player.refreshes > 0 {
                o.step_sound && plain && rerolled(m0, m1)
            } else {
                unchanged
            },
            _ => unchanged,
        },
        Phase::GameOver => if input == PlayerInput::Retry {
            o.retry && o.step_sound && o.activated@.len() == 0 && o.new_items@.len() == 0 && *m1 == *m0
        } else {
            unchanged
        },
        _ => unchanged,
    }
}

impl Model {
    /// Uncovers a tile: it has to be empty and next to the map.
    pub fn map_action(&mut self, input: PlayerInput) -> (done: bool)
        requires
            old(self).wf(),
        ensures
            final(self).wf(),
            map_acted(old(self), input, final(self), done),
    {
        let pos = match input {
            PlayerInput::Tile(p) => p,
            _ => return false,
        };
        if !self.state.grid.check_pos_near(pos) {
            return false;
        }
        if !matches!(self.phase, Phase::MapTiles { .. }) {
            return false;
        }
        let ghost m0 = *self;
        let mut phase = Phase::Vision;
        std::mem::swap(&mut phase, &mut self.phase);
        match phase {
            Phase::MapTiles { tiles_left, next_phase } => {
                self.state.grid.expand(pos);
                let left = if tiles_left > 0 { tiles_left - 1 } else { 0 };
                if left == 0 {
                    self.phase = *next_phase;
                } else {
                    self.phase = Phase::MapTiles { tiles_left: left, next_phase };
                }
                true
            },
            other => {
                self.phase = other;
                false
            },
        }
    }
    /// Swaps the player with a magic item: the tile has to be a tile, not
    /// fractured, and hold a magic item.
    pub fn portal_action(&mut self, input: PlayerInput) -> (done: bool)
        requires
            old(self).wf(),
        ensures
            final(self).wf(),
            portal_acted(old(self), input, final(self), done),
    {
        let target = match input {
            PlayerInput::Tile(p) => p,
            _ => return false,
        };
        if !self.state.grid.check_pos(target) || self.state.grid.fractured.contains(target) {
            return false;
        }
        if !matches!(self.phase, Phase::Portal { .. }) {
            return false;
        }
        let ghost m0 = *self;
        let b = match find_item_at(&self.state.items, target) {
            Some(b) => b,
            None => return false,
        };
        let item = self.state.items.get(b).unwrap();
        proof {
            assert(arena_has(self.state.items@, b as int));
        }
        let inv = self.state.player.items.get(item.item_id).unwrap();
        proof {
            assert(arena_has(self.state.player.items@, item.item_id as int));
        }
        let magic = ItemFilter::Category(Category::Magic);
        if !magic.check(&self.state.all_items[inv.kind]) {
            return false;
        }
        let p = match find_player(&self.state.entities) {
            Some(p) => p,
            None => return false,
        };
        let player = self.state.entities.get(p).unwrap();
        let ghost s0 = self.state;
        self.state.items.set(b, BoardItem { position: player.position, ..item });
        self.state.entities.set(p, Entity { position: target, ..player });
        self.state.grid.fractured.insert(target);
        proof {
            assert forall|c: int| #[trigger] arena_has(self.state.items@, c)
                implies arena_has(self.state.player.items@, board_of(&self.state, c).item_id as int) by {
                assert(arena_has(s0.items@, c));
            }
            assert forall|e: int| #[trigger] arena_has(self.state.entities@, e) implies entity_of(&self.state, e).health.wf() by {
                assert(arena_has(s0.entities@, e));
            }
        }
        let mut phase = Phase::Vision;
        std::mem::swap(&mut phase, &mut self.phase);
        match phase {
            Phase::Portal { next_phase } => {
                self.phase = *next_phase;
            },
            other => {
                self.phase = other;
            },
        }
        true
    }
    /// Sets where the players look; a committed vision moves on to show it.
    pub fn player_vision(&mut self, input: PlayerInput) -> (committed: bool)
        requires
            old(self).wf(),
        ensures
            final(self).wf(),
            vision_acted(old(self), input, final(self), committed),
    {
        let ghost m0 = *self;
        let ghost es0 = self.state.entities@;
        let n = self.state.entities.id_bound();
        for i in 0..n
            invariant
                n == es0.len(),
                es0 == m0.state.entities@,
                self.state.entities@ == looks_set(es0, input, i as int),
                *self == (Model { state: ModelState { entities: self.state.entities, ..m0.state }, ..m0 }),
                forall|j: int| 0 <= j < i && #[trigger] arena_has(es0, j) ==> !look_refused(input)(arena_get(es0, j).unwrap()),
                m0 == *old(self),
                m0.wf(),
                self.wf(),
        {
            assert(self.state.entities@[i as int] == es0[i as int]);
            match self.state.entities.get(i) {
                Some(e) => {
                    if e.kind == EntityKind::Player {
                        let d: (i128, i128) = match input {
                            PlayerInput::Dir(d) => (d.x as i128, d.y as i128),
                            PlayerInput::Tile(p) => (p.x as i128 - e.position.x as i128, p.y as i128 - e.position.y as i128),
                            PlayerInput::Vision { pos, .. } => (pos.x as i128 - e.position.x as i128, pos.y as i128 - e.position.y as i128),
                            _ => {
                                proof {
                                    lemma_first_of(es0, look_refused(input), i as int);
                                }
                                return false;
                            },
                        };
                        if d.0 != 0 && d.1 != 0 {
                            proof {
                                lemma_first_of(es0, look_refused(input), i as int);
                            }
                            return false;
                        }
                        let look = Pos { x: clamp_step(d.0), y: clamp_step(d.1) };
                        let ghost before = self.state;
                        self.state.entities.set(i, Entity { look_dir: look, ..e });
                        proof {
                            assert forall|c: int| #[trigger] arena_has(self.state.entities@, c)
                                implies entity_of(&self.state, c).health.wf() by {
                                assert(arena_has(before.entities@, c));
                            }
                        }
                    }
                },
                None => {},
            }
            assert(self.state.entities@ =~= looks_set(es0, input, i + 1));
        }
        proof {
            lemma_first_none(es0, look_refused(input));
        }
        let ghost s1 = self.state;
        self.state.update_vision();
        proof {
            crate::model::vision::lemma_vision_depends(&self.state, &s1);
        }
        match input {
            PlayerInput::Vision { commit, .. } => {
                if commit {
                    self.phase = Phase::PostVision;
                    return true;
                }
                false
            },
            _ => false,
        }
    }
    /// Starts moving entity `entity_id` onto `target`, which has to be a
    /// tile: the phase becomes an activation, and the ids of the board items
    /// at `target` are returned, for their activation to be resolved in this
    /// order. Nothing happens for a missing entity or a position off the map.
    pub fn move_entity_swap(&mut self, entity_id: Id, target: Pos) -> (r: Option<Vec<Id>>)
        ensures
            arena_has(old(self).state.entities@, entity_id as int) && old(self).state.grid.tiles@.contains(target@) ==> {
                &&& r matches Some(ids) && ids@ == items_at(old(self).state.items@, target@, old(self).state.items@.len() as int)
                &&& *final(self) == (Model { phase: Phase::Active { entity_id, position: target }, ..*old(self) })
            },
            !(arena_has(old(self).state.entities@, entity_id as int) && old(self).state.grid.tiles@.contains(target@)) ==> {
                r is None && *final(self) == *old(self)
            },
    {
        if !self.state.entities.contains(entity_id) || !self.state.grid.check_pos(target) {
            return None;
        }
        let mut ids: Vec<Id> = Vec::new();
        let n = self.state.items.id_bound();
        for i in 0..n
            invariant
                n == self.state.items@.len(),
                ids@ == items_at(self.state.items@, target@, i as int),
        {
            match self.state.items.get(i) {
                Some(b) => {
                    if b.position == target {
                        ids.push(i);
                    }
                },
                None => {},
            }
        }
        self.phase = Phase::Active { entity_id, position: target };
        Some(ids)
    }

    /// A move of the players; see `move_acted`. Returns whether the step is
    /// to be played and the board items activated, in order.
    pub fn player_move(&mut self, input: PlayerInput) -> (r: (bool, Vec<Id>))
        requires
            old(self).wf(),
        ensures
            final(self).wf(),
            move_acted(old(self), input, final(self), r.0, r.1@),
    {
        if self.state.player.moves_left == 0 {
            self.vision_phase();
            return (false, Vec::new());
        }
        if input == PlayerInput::Skip {
            self.vision_phase();
            return (true, Vec::new());
        }
        let ghost m0 = *self;
        let ghost s0 = self.state;
        let n = self.state.entities.id_bound();
        let mut dir: (i128, i128) = (0, 0);
        for i in 0..n
            invariant
                n == s0.entities@.len(),
                self.state == s0,
                s0 == m0.state,
                *self == m0,
                m0 == *old(self),
                m0.wf(),
                m0.state.player.moves_left > 0,
                input != PlayerInput::Skip,
                move_dir(&s0, input, i as int) == (false, (dir.0 as int, dir.1 as int)),
                -0x1_0000_0000_0000_0000 <= dir.0 <= 0x1_0000_0000_0000_0000,
                -0x1_0000_0000_0000_0000 <= dir.1 <= 0x1_0000_0000_0000_0000,
        {
            match self.state.entities.get(i) {
                Some(e) => {
                    if e.kind == EntityKind::Player {
                        match input {
                            PlayerInput::Dir(d) => {
                                dir = (d.x as i128, d.y as i128);
                            },
                            PlayerInput::Tile(p) => {
                                if !self.state.grid.check_pos(p) {
                                    proof {
                                        lemma_move_dir_refused(&s0, input, i as int + 1, n as int);
                                    }
                                    return (false, Vec::new());
                                }
                                dir = (p.x as i128 - e.position.x as i128, p.y as i128 - e.position.y as i128);
                            },
                            _ => {
                                proof {
                                    lemma_move_dir_refused(&s0, input, i as int + 1, n as int);
                                }
                                return (false, Vec::new());
                            },
                        }
                    }
                },
                None => {},
            }
        }
        let ax = if dir.0 < 0 { -dir.0 } else { dir.0 };
        let ay = if dir.1 < 0 { -dir.1 } else { dir.1 };
        if ax + ay != 1 {
            return (false, Vec::new());
        }
        let d = Pos { x: dir.0 as i64, y: dir.1 as i64 };
        let mut activated: Vec<Id> = Vec::new();
        let mut moved = false;
        for i in 0..n
            invariant
                n == s0.entities@.len(),
                s0 == m0.state,
                m0 == *old(self),
                m0.wf(),
                m0.state.player.moves_left > 0,
                activated@ == walk(&s0, d, i as int).1,
                self.state.grid.fractured@ == walk(&s0, d, i as int).0,
                self.state.grid.fractured.wf(),
                moved == walk(&s0, d, i as int).2 is Some,
                *self == (Model {
                    phase: match walk(&s0, d, i as int).2 {
                        Some(last) => Phase::Active { entity_id: last.0, position: last.1 },
                        None => m0.phase,
                    },
                    state: ModelState { grid: Grid { fractured: self.state.grid.fractured, ..s0.grid }, ..s0 },
                    ..m0
                }),
        {
            match self.state.entities.get(i) {
                Some(e) => {
                    if e.kind == EntityKind::Player {
                        match e.position.checked_add(d) {
                            Some(target) => {
                                if self.state.grid.check_pos(target) && self.state.grid.fractured.insert(target) {
                                    let ids = self.move_entity_swap(i, target).unwrap();
                                    let mut ids = ids;
                                    activated.append(&mut ids);
                                    moved = true;
                                }
                            },
                            None => {},
                        }
                    }
                },
                None => {},
            }
        }
        if moved {
            self.state.player.moves_left = self.state.player.moves_left - 1;
        }
        (moved, activated)
    }
    /// Adds a fresh item of kind `kind` to the inventory and goes on with the
    /// select phase. Returns the new item's id.
    pub fn select_item(&mut self, kind: usize) -> (id: Id)
        requires
            old(self).wf(),
            kind < old(self).state.all_items@.len(),
            extra_left(old(self)) > 0 ==> shop_open(&old(self).state),
            extra_left(old(self)) == 0 ==> old(self).turn < usize::MAX,
        ensures
            final(self).wf(),
            item_selected(old(self), kind, final(self), id),
    {
        let ghost m0 = *self;
        let extra = match self.phase {
            Phase::Select { extra_items, .. } => extra_items,
            _ => 0,
        };
        let base = self.state.all_items[kind].config.base_stats;
        let id = self.state.player.items.insert(InventoryItem::new(kind, base));
        let ghost mid = *self;
        proof {
            assert(mid.state.player.items@ == m0.state.player.items@.push(Some(fresh_item(&m0.state, kind))));
            assert(mid == Model { state: ModelState { player: Player { items: mid.state.player.items, ..m0.state.player }, ..m0.state }, ..m0 });
            assert forall|i: int| #[trigger] arena_has(mid.state.player.items@, i) implies
                inv_of(&mid.state, i).kind < mid.state.all_items.len()
                && (inv_of(&mid.state, i).on_board matches Some(b) ==> b < mid.state.items@.len()) by {
                if i < m0.state.player.items@.len() {
                    assert(arena_has(m0.state.player.items@, i));
                }
            }
            assert forall|b: int| #[trigger] arena_has(mid.state.items@, b)
                implies arena_has(mid.state.player.items@, board_of(&mid.state, b).item_id as int) by {
                assert(arena_has(m0.state.player.items@, board_of(&m0.state, b).item_id as int));
            }
            if extra > 0 {
                let k = choose|k: int| #[trigger] in_shop(&m0.state, k);
                assert(in_shop(&mid.state, k));
            }
        }
        self.select_phase(extra);
        id
    }
    /// Carries out an action of the player according to the phase; see
    /// `action_done`. Returns what the caller is to carry out.
    pub fn player_action(&mut self, input: PlayerInput, animations_done: bool) -> (o: Outcome)
        requires
            old(self).wf(),
            action_ready(old(self), input),
        ensures
            final(self).wf(),
            action_done(old(self), input, animations_done, final(self), &o),
    {
        let ghost m0 = *self;
        match self.phase {
            Phase::Player => {
                if self.wait_for_effects(animations_done) {
                    let (step, activated) = self.player_move(input);
                    return Outcome { step_sound: step, activated, new_items: Vec::new(), retry: false };
                }
                Outcome::none()
            },
            Phase::Vision => {
                let step = self.player_vision(input);
                Outcome { step_sound: step, activated: Vec::new(), new_items: Vec::new(), retry: false }
            },
            Phase::MapTiles { .. } => {
                let step = self.map_action(input);
                Outcome { step_sound: step, activated: Vec::new(), new_items: Vec::new(), retry: false }
            },
            Phase::Portal { .. } => {
                let step = self.portal_action(input);
                Outcome { step_sound: step, activated: Vec::new(), new_items: Vec::new(), retry: false }
            },
            Phase::Select { .. } => {
                match input {
                    PlayerInput::SelectItem(i) => {
                        let kind = match &self.phase {
                            Phase::Select { options, .. } => options[i],
                            _ => 0,
                        };
                        let id = self.select_item(kind);
                        let mut new_items: Vec<Id> = Vec::new();
                        new_items.push(id);
                        Outcome { step_sound: true, activated: Vec::new(), new_items, retry: false }
                    },
                    PlayerInput::Skip => {
                        self.select_phase(0);
                        Outcome::step()
                    },
                    PlayerInput::Reroll => {
                        if self.state.player.refreshes > 0 {
                            let extra = match &self.phase {
                                Phase::Select { extra_items, .. } => *extra_items,
                                _ => 0,
                            };
                            self.state.player.refreshes = self.state.player.refreshes - 1;
                            let ghost mid = *self;
                            proof {
                                assert(mid == Model { state: ModelState { player: Player { refreshes: (m0.state.player.refreshes - 1) as usize, ..m0.state.player }, ..m0.state }, ..m0 });
                                let k = choose|k: int| #[trigger] in_shop(&m0.state, k);
                                assert(in_shop(&mid.state, k));
                            }
                            self.select_phase(extra + 1);
                            return Outcome::step();
                        }
                        Outcome::none()
                    },
                    _ => Outcome::none(),
                }
            },
            Phase::GameOver => {
                if input == PlayerInput::Retry {
                    return Outcome { step_sound: true, activated: Vec::new(), new_items: Vec::new(), retry: true };
                }
                Outcome::none()
            },
            _ => Outcome::none(),
        }
    }
}

} // verus!

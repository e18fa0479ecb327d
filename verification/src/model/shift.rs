use vstd::prelude::*;
use crate::geom::Pos;
use crate::posset::PosSet;
use crate::arena::{Arena, arena_get, arena_has};
use crate::item::{BoardItem, Id};
use crate::entity::Entity;
use crate::random::pick_one;
use crate::model::state::{ModelState, board_of, entity_of, refs_ok, kinds_ok, health_ok, onboard_ok};
use crate::model::game::Model;

verus! {

/// Something on the board that can be shifted.
#[derive(Clone, Copy, PartialEq, Eq, Structural, Debug)]
pub enum Thing {
    Entity(Id),
    Item(Id),
}

/// The board items and the entities, as seen by a shift.
pub type Layout = (Seq<Option<BoardItem>>, Seq<Option<Entity>>);

/// Where `t` stands in `v`.
pub open spec fn thing_pos(v: Layout, t: Thing) -> Pos {
    match t {
        Thing::Entity(i) => v.1[i as int].unwrap().position,
        Thing::Item(i) => v.0[i as int].unwrap().position,
    }
}

/// The board items at `target` moved to `from`.
pub open spec fn relocated_items(items: Seq<Option<BoardItem>>, target: Pos, from: Pos) -> Seq<Option<BoardItem>> {
    Seq::new(items.len(), |j: int| match items[j] {
        Some(b) => if b.position == target { Some(BoardItem { position: from, ..b }) } else { Some(b) },
        None => None,
    })
}

/// The entities at `target` moved to `from`.
pub open spec fn relocated_entities(entities: Seq<Option<Entity>>, target: Pos, from: Pos) -> Seq<Option<Entity>> {
    Seq::new(entities.len(), |j: int| match entities[j] {
        Some(e) => if e.position == target { Some(Entity { position: from, ..e }) } else { Some(e) },
        None => None,
    })
}

/// Moves the board items at `target` to `from`.
fn relocate_items(items: &mut Arena<BoardItem>, target: Pos, from: Pos)
    ensures
        final(items)@ == relocated_items(old(items)@, target, from),
{
    let ghost v0 = items@;
    let n = items.id_bound();
    for j in 0..n
        invariant
            n == items@.len(),
            n == v0.len(),
            forall|c: int| 0 <= c < n ==> #[trigger] items@[c] == if c < j {
                relocated_items(v0, target, from)[c]
            } else {
                v0[c]
            },
    {
        match items.get(j) {
            Some(b) => {
                if b.position == target {
                    items.set(j, BoardItem { position: from, ..b });
                }
            },
            None => {},
        }
    }
    assert(items@ =~= relocated_items(v0, target, from));
}

/// Moves the entities at `target` to `from`.
fn relocate_entities(entities: &mut Arena<Entity>, target: Pos, from: Pos)
    ensures
        final(entities)@ == relocated_entities(old(entities)@, target, from),
{
    let ghost v0 = entities@;
    let n = entities.id_bound();
    for j in 0..n
        invariant
            n == entities@.len(),
            n == v0.len(),
            forall|c: int| 0 <= c < n ==> #[trigger] entities@[c] == if c < j {
                relocated_entities(v0, target, from)[c]
            } else {
                v0[c]
            },
    {
        match entities.get(j) {
            Some(e) => {
                if e.position == target {
                    entities.set(j, Entity { position: from, ..e });
                }
            },
            None => {},
        }
    }
    assert(entities@ =~= relocated_entities(v0, target, from));
}

/// `t` moves to `target`; whatever stood at `target` moves to where `t` was.
pub open spec fn swap_step(v: Layout, t: Thing, target: Pos) -> Layout {
    let from = thing_pos(v, t);
    let items = relocated_items(v.0, target, from);
    let entities = relocated_entities(v.1, target, from);
    match t {
        Thing::Entity(i) => (items, entities.update(i as int, Some(Entity { position: target, ..entities[i as int].unwrap() }))),
        Thing::Item(i) => (items.update(i as int, Some(BoardItem { position: target, ..items[i as int].unwrap() })), entities),
    }
}

/// The layout after carrying out `moves` in order.
pub open spec fn shifted(v: Layout, moves: Seq<(Thing, Pos)>) -> Layout
    decreases moves.len(),
{
    if moves.len() == 0 {
        v
    } else {
        let prev = shifted(v, moves.drop_last());
        swap_step(prev, moves.last().0, moves.last().1)
    }
}

/// The board items among the ids below `n` that nobody sees.
pub open spec fn hidden_items(s: &ModelState, n: int) -> Seq<Thing>
    decreases n,
{
    if n <= 0 {
        Seq::empty()
    } else {
        let prev = hidden_items(s, n - 1);
        if arena_has(s.items@, n - 1) && !s.visible_tiles@.contains(board_of(s, n - 1).position@) {
            prev.push(Thing::Item((n - 1) as Id))
        } else {
            prev
        }
    }
}

/// The entities among the ids below `n` that nobody sees.
pub open spec fn hidden_entities(s: &ModelState, n: int) -> Seq<Thing>
    decreases n,
{
    if n <= 0 {
        Seq::empty()
    } else {
        let prev = hidden_entities(s, n - 1);
        if arena_has(s.entities@, n - 1) && !s.visible_tiles@.contains(entity_of(s, n - 1).position@) {
            prev.push(Thing::Entity((n - 1) as Id))
        } else {
            prev
        }
    }
}

/// The things a shift moves: the unseen items, then the unseen entities.
pub open spec fn things_to_shift(s: &ModelState) -> Seq<Thing> {
    hidden_items(s, s.items@.len() as int) + hidden_entities(s, s.entities@.len() as int)
}

/// Each thing in `hidden_items` is a board item.
proof fn lemma_hidden_items_exist(s: &ModelState, n: int, k: int)
    requires
        n <= s.items@.len(),
        s.items@.len() <= usize::MAX,
        0 <= k < hidden_items(s, n).len(),
    ensures
        hidden_items(s, n)[k] matches Thing::Item(i) && arena_has(s.items@, i as int),
    decreases n,
{
    if n > 0 {
        let prev = hidden_items(s, n - 1);
        if k < prev.len() {
            lemma_hidden_items_exist(s, n - 1, k);
        } else {
            assert(hidden_items(s, n) == prev.push(Thing::Item((n - 1) as Id)));
        }
    }
}

/// Each thing in `hidden_entities` is an entity.
proof fn lemma_hidden_entities_exist(s: &ModelState, n: int, k: int)
    requires
        n <= s.entities@.len(),
        s.entities@.len() <= usize::MAX,
        0 <= k < hidden_entities(s, n).len(),
    ensures
        hidden_entities(s, n)[k] matches Thing::Entity(i) && arena_has(s.entities@, i as int),
    decreases n,
{
    if n > 0 {
        let prev = hidden_entities(s, n - 1);
        if k < prev.len() {
            lemma_hidden_entities_exist(s, n - 1, k);
        } else {
            assert(hidden_entities(s, n) == prev.push(Thing::Entity((n - 1) as Id)));
        }
    }
}

/// Each thing to shift exists.
proof fn lemma_things_exist(s: &ModelState, k: int)
    requires
        s.items@.len() <= usize::MAX,
        s.entities@.len() <= usize::MAX,
        0 <= k < things_to_shift(s).len(),
    ensures
        thing_in((s.items@, s.entities@), things_to_shift(s)[k]),
{
    let a = hidden_items(s, s.items@.len() as int);
    if k < a.len() {
        lemma_hidden_items_exist(s, s.items@.len() as int, k);
    } else {
        lemma_hidden_entities_exist(s, s.entities@.len() as int, k - a.len());
    }
}

/// The layout has the same things as `v0`, each with its other fields kept.
pub open spec fn same_things(v0: Layout, v: Layout) -> bool {
    &&& v.0.len() == v0.0.len()
    &&& v.1.len() == v0.1.len()
    &&& forall|j: int| 0 <= j < v0.0.len() ==> (#[trigger] v.0[j] is Some) == (v0.0[j] is Some)
        && (v0.0[j] is Some ==> v.0[j].unwrap().item_id == v0.0[j].unwrap().item_id && v.0[j].unwrap().used == v0.0[j].unwrap().used)
    &&& forall|j: int| 0 <= j < v0.1.len() ==> (#[trigger] v.1[j] is Some) == (v0.1[j] is Some)
        && (v0.1[j] is Some ==> v.1[j].unwrap() == Entity { position: v.1[j].unwrap().position, ..v0.1[j].unwrap() })
}

/// A thing that exists in the layout.
pub open spec fn thing_in(v: Layout, t: Thing) -> bool {
    match t {
        Thing::Entity(i) => 0 <= i < v.1.len() && v.1[i as int] is Some,
        Thing::Item(i) => 0 <= i < v.0.len() && v.0[i as int] is Some,
    }
}

/// The things that nobody sees were shifted, in order, each to a random tile
/// that nobody sees.
pub open spec fn shift_post(s0: &ModelState, s1: &ModelState) -> bool {
    let available = s0.grid.tiles@.difference(s0.visible_tiles@);
    &&& s1.all_items == s0.all_items
    &&& s1.grid == s0.grid
    &&& s1.player == s0.player
    &&& s1.visible_tiles == s0.visible_tiles
    &&& if available == Set::<(int, int)>::empty() {
        s1.items == s0.items && s1.entities == s0.entities
    } else {
        exists|moves: Seq<(Thing, Pos)>| {
            &&& moves.len() == things_to_shift(s0).len()
            &&& forall|k: int| 0 <= k < moves.len() ==> #[trigger] moves[k].0 == things_to_shift(s0)[k]
                && available.contains(moves[k].1@)
            &&& (s1.items@, s1.entities@) == shifted((s0.items@, s0.entities@), moves)
        }
    }
}

proof fn lemma_swap_keeps_things(v0: Layout, v: Layout, t: Thing, target: Pos)
    requires
        same_things(v0, v),
        thing_in(v, t),
    ensures
        same_things(v0, swap_step(v, t, target)),
{
    let w = swap_step(v, t, target);
    assert forall|j: int| 0 <= j < v0.0.len() implies (#[trigger] w.0[j] is Some) == (v0.0[j] is Some)
        && (v0.0[j] is Some ==> w.0[j].unwrap().item_id == v0.0[j].unwrap().item_id && w.0[j].unwrap().used == v0.0[j].unwrap().used) by {
        assert(v.0[j] is Some == v0.0[j] is Some);
    }
    assert forall|j: int| 0 <= j < v0.1.len() implies (#[trigger] w.1[j] is Some) == (v0.1[j] is Some)
        && (v0.1[j] is Some ==> w.1[j].unwrap() == Entity { position: w.1[j].unwrap().position, ..v0.1[j].unwrap() }) by {
        assert(v.1[j] is Some == v0.1[j] is Some);
    }
}

proof fn lemma_same_things_wf(s0: &ModelState, s1: &ModelState)
    requires
        s0.wf(),
        same_things((s0.items@, s0.entities@), (s1.items@, s1.entities@)),
        s1.all_items == s0.all_items,
        s1.grid == s0.grid,
        s1.player == s0.player,
        s1.visible_tiles == s0.visible_tiles,
    ensures
        s1.wf(),
{
    assert forall|b: int| #[trigger] arena_has(s1.items@, b)
        implies arena_has(s1.player.items@, board_of(s1, b).item_id as int) by {
        assert(s1.items@[b] is Some == s0.items@[b] is Some);
        assert(arena_has(s0.items@, b));
    }
    assert forall|e: int| #[trigger] arena_has(s1.entities@, e) implies entity_of(s1, e).health.wf() by {
        assert(s1.entities@[e] is Some == s0.entities@[e] is Some);
        assert(arena_has(s0.entities@, e));
    }
    assert forall|i: int| #[trigger] arena_has(s1.player.items@, i)
        implies (crate::model::state::inv_of(s1, i).on_board matches Some(b) ==> b < s1.items@.len()) by {
        assert(arena_has(s0.player.items@, i));
    }
}

proof fn lemma_shifted_step(v: Layout, moves: Seq<(Thing, Pos)>, k: int)
    requires
        0 <= k < moves.len(),
    ensures
        shifted(v, moves.take(k + 1)) == swap_step(shifted(v, moves.take(k)), moves[k].0, moves[k].1),
{
    assert(moves.take(k + 1).drop_last() =~= moves.take(k));
}

/// The things of `v0` seen on `vis` are where they were in `v0`, and the
/// unseen ones are still unseen.
pub open spec fn hidden_kept(vis: Set<(int, int)>, v0: Layout, v: Layout) -> bool {
    &&& same_things(v0, v)
    &&& forall|j: int| 0 <= j < v0.0.len() && #[trigger] v0.0[j] is Some ==> {
        let p0 = v0.0[j].unwrap().position;
        let p = v.0[j].unwrap().position;
        &&& vis.contains(p0@) ==> p == p0
        &&& !vis.contains(p0@) ==> !vis.contains(p@)
    }
    &&& forall|j: int| 0 <= j < v0.1.len() && #[trigger] v0.1[j] is Some ==> {
        let p0 = v0.1[j].unwrap().position;
        let p = v.1[j].unwrap().position;
        &&& vis.contains(p0@) ==> p == p0
        &&& !vis.contains(p0@) ==> !vis.contains(p@)
    }
}

/// `t` exists in `v0` and stood where nobody sees.
pub open spec fn hidden_thing(vis: Set<(int, int)>, v0: Layout, t: Thing) -> bool {
    thing_in(v0, t) && !vis.contains(thing_pos(v0, t)@)
}

proof fn lemma_hidden_step(vis: Set<(int, int)>, v0: Layout, v: Layout, t: Thing, target: Pos)
    requires
        hidden_kept(vis, v0, v),
        hidden_thing(vis, v0, t),
        !vis.contains(target@),
    ensures
        hidden_kept(vis, v0, swap_step(v, t, target)),
{
    let w = swap_step(v, t, target);
    assert(thing_in(v, t)) by {
        match t {
            Thing::Entity(i) => assert(v0.1[i as int] is Some),
            Thing::Item(i) => assert(v0.0[i as int] is Some),
        }
    }
    match t {
        Thing::Entity(i) => assert(v0.1[i as int] is Some),
        Thing::Item(i) => assert(v0.0[i as int] is Some),
    }
    lemma_swap_keeps_things(v0, v, t, target);
    assert forall|j: int| 0 <= j < v0.0.len() && #[trigger] v0.0[j] is Some implies {
        let p0 = v0.0[j].unwrap().position;
        let p = w.0[j].unwrap().position;
        &&& vis.contains(p0@) ==> p == p0
        &&& !vis.contains(p0@) ==> !vis.contains(p@)
    } by {
        assert(v.0[j] is Some);
    }
    assert forall|j: int| 0 <= j < v0.1.len() && #[trigger] v0.1[j] is Some implies {
        let p0 = v0.1[j].unwrap().position;
        let p = w.1[j].unwrap().position;
        &&& vis.contains(p0@) ==> p == p0
        &&& !vis.contains(p0@) ==> !vis.contains(p@)
    } by {
        assert(v.1[j] is Some);
    }
}

proof fn lemma_hidden_moves(vis: Set<(int, int)>, v0: Layout, moves: Seq<(Thing, Pos)>, k: int)
    requires
        0 <= k <= moves.len(),
        forall|c: int| 0 <= c < moves.len() ==> hidden_thing(vis, v0, #[trigger] moves[c].0) && !vis.contains(moves[c].1@),
    ensures
        hidden_kept(vis, v0, shifted(v0, moves.take(k))),
    decreases k,
{
    if k == 0 {
        assert(moves.take(0).len() == 0);
        assert forall|j: int| 0 <= j < v0.0.len() implies (#[trigger] v0.0[j] is Some) == (v0.0[j] is Some) by {}
    } else {
        lemma_hidden_moves(vis, v0, moves, k - 1);
        lemma_shifted_step(v0, moves, k - 1);
        assert(hidden_thing(vis, v0, moves[k - 1].0));
        lemma_hidden_step(vis, v0, shifted(v0, moves.take(k - 1)), moves[k - 1].0, moves[k - 1].1);
    }
}

/// A thing listed to shift stood where nobody sees.
proof fn lemma_things_hidden(s: &ModelState, k: int)
    requires
        s.items@.len() <= usize::MAX,
        s.entities@.len() <= usize::MAX,
        0 <= k < things_to_shift(s).len(),
    ensures
        hidden_thing(s.visible_tiles@, (s.items@, s.entities@), things_to_shift(s)[k]),
{
    lemma_things_exist(s, k);
    let a = hidden_items(s, s.items@.len() as int);
    if k < a.len() {
        lemma_hidden_items_unseen(s, s.items@.len() as int, k);
    } else {
        lemma_hidden_entities_unseen(s, s.entities@.len() as int, k - a.len());
    }
}

proof fn lemma_hidden_items_unseen(s: &ModelState, n: int, k: int)
    requires
        n <= s.items@.len(),
        s.items@.len() <= usize::MAX,
        0 <= k < hidden_items(s, n).len(),
    ensures
        hidden_items(s, n)[k] matches Thing::Item(i) && !s.visible_tiles@.contains(board_of(s, i as int).position@),
    decreases n,
{
    if n > 0 {
        let prev = hidden_items(s, n - 1);
        if k < prev.len() {
            lemma_hidden_items_unseen(s, n - 1, k);
        } else {
            assert(hidden_items(s, n) == prev.push(Thing::Item((n - 1) as Id)));
        }
    }
}

proof fn lemma_hidden_entities_unseen(s: &ModelState, n: int, k: int)
    requires
        n <= s.entities@.len(),
        s.entities@.len() <= usize::MAX,
        0 <= k < hidden_entities(s, n).len(),
    ensures
        hidden_entities(s, n)[k] matches Thing::Entity(i) && !s.visible_tiles@.contains(entity_of(s, i as int).position@),
    decreases n,
{
    if n > 0 {
        let prev = hidden_entities(s, n - 1);
        if k < prev.len() {
            lemma_hidden_entities_unseen(s, n - 1, k);
        } else {
            assert(hidden_entities(s, n) == prev.push(Thing::Entity((n - 1) as Id)));
        }
    }
}

/// A shift never moves what the player sees: every board item and entity on
/// a visible tile stays where it is, and whatever stood unseen stays unseen.
pub proof fn law_shift_keeps_seen(s0: &ModelState, s1: &ModelState)
    requires
        shift_post(s0, s1),
        s0.items@.len() <= usize::MAX,
        s0.entities@.len() <= usize::MAX,
    ensures
        hidden_kept(s0.visible_tiles@, (s0.items@, s0.entities@), (s1.items@, s1.entities@)),
{
    let vis = s0.visible_tiles@;
    let v0 = (s0.items@, s0.entities@);
    let available = s0.grid.tiles@.difference(vis);
    if available == Set::<(int, int)>::empty() {
        assert forall|j: int| 0 <= j < v0.0.len() implies (#[trigger] v0.0[j] is Some) == (v0.0[j] is Some) by {}
    } else {
        let moves = choose|moves: Seq<(Thing, Pos)>| {
            &&& moves.len() == things_to_shift(s0).len()
            &&& forall|k: int| 0 <= k < moves.len() ==> #[trigger] moves[k].0 == things_to_shift(s0)[k]
                && available.contains(moves[k].1@)
            &&& (s1.items@, s1.entities@) == shifted((s0.items@, s0.entities@), moves)
        };
        assert forall|c: int| 0 <= c < moves.len() implies hidden_thing(vis, v0, #[trigger] moves[c].0) && !vis.contains(moves[c].1@) by {
            assert(moves[c].0 == things_to_shift(s0)[c]);
            lemma_things_hidden(s0, c);
        }
        lemma_hidden_moves(vis, v0, moves, moves.len() as int);
        assert(moves.take(moves.len() as int) =~= moves);
    }
}

/// No two things of the layout share a tile.
pub open spec fn apart(v: Layout) -> bool {
    &&& forall|a: int, b: int| 0 <= a < v.0.len() && 0 <= b < v.0.len() && a != b
        && #[trigger] v.0[a] is Some && #[trigger] v.0[b] is Some
        ==> v.0[a].unwrap().position != v.0[b].unwrap().position
    &&& forall|a: int, b: int| 0 <= a < v.1.len() && 0 <= b < v.1.len() && a != b
        && #[trigger] v.1[a] is Some && #[trigger] v.1[b] is Some
        ==> v.1[a].unwrap().position != v.1[b].unwrap().position
    &&& forall|a: int, b: int| 0 <= a < v.0.len() && 0 <= b < v.1.len()
        && #[trigger] v.0[a] is Some && #[trigger] v.1[b] is Some
        ==> v.0[a].unwrap().position != v.1[b].unwrap().position
}

proof fn lemma_swap_apart(v: Layout, t: Thing, target: Pos)
    requires
        apart(v),
        thing_in(v, t),
    ensures
        apart(swap_step(v, t, target)),
{
    let w = swap_step(v, t, target);
    assert forall|a: int, b: int| 0 <= a < w.0.len() && 0 <= b < w.0.len() && a != b
        && #[trigger] w.0[a] is Some && #[trigger] w.0[b] is Some
        implies w.0[a].unwrap().position != w.0[b].unwrap().position by {
        assert(v.0[a] is Some && v.0[b] is Some);
    }
    assert forall|a: int, b: int| 0 <= a < w.1.len() && 0 <= b < w.1.len() && a != b
        && #[trigger] w.1[a] is Some && #[trigger] w.1[b] is Some
        implies w.1[a].unwrap().position != w.1[b].unwrap().position by {
        assert(v.1[a] is Some && v.1[b] is Some);
    }
    assert forall|a: int, b: int| 0 <= a < w.0.len() && 0 <= b < w.1.len()
        && #[trigger] w.0[a] is Some && #[trigger] w.1[b] is Some
        implies w.0[a].unwrap().position != w.1[b].unwrap().position by {
        assert(v.0[a] is Some && v.1[b] is Some);
    }
}

proof fn lemma_apart_moves(v0: Layout, moves: Seq<(Thing, Pos)>, k: int)
    requires
        0 <= k <= moves.len(),
        apart(v0),
        forall|c: int| 0 <= c < moves.len() ==> thing_in(v0, #[trigger] moves[c].0),
    ensures
        apart(shifted(v0, moves.take(k))),
        same_things(v0, shifted(v0, moves.take(k))),
    decreases k,
{
    if k == 0 {
        assert(moves.take(0).len() == 0);
        assert forall|j: int| 0 <= j < v0.0.len() implies (#[trigger] v0.0[j] is Some) == (v0.0[j] is Some) by {}
    } else {
        lemma_apart_moves(v0, moves, k - 1);
        lemma_shifted_step(v0, moves, k - 1);
        let v = shifted(v0, moves.take(k - 1));
        let t = moves[k - 1].0;
        assert(thing_in(v0, t));
        assert(thing_in(v, t)) by {
            match t {
                Thing::Entity(i) => assert(v0.1[i as int] is Some),
                Thing::Item(i) => assert(v0.0[i as int] is Some),
            }
        }
        lemma_swap_apart(v, t, moves[k - 1].1);
        lemma_swap_keeps_things(v0, v, t, moves[k - 1].1);
    }
}

/// A shift swaps things: when no two things shared a tile before, no two
/// share one after.
pub proof fn law_shift_keeps_apart(s0: &ModelState, s1: &ModelState)
    requires
        shift_post(s0, s1),
        s0.items@.len() <= usize::MAX,
        s0.entities@.len() <= usize::MAX,
        apart((s0.items@, s0.entities@)),
    ensures
        apart((s1.items@, s1.entities@)),
{
    let v0 = (s0.items@, s0.entities@);
    let available = s0.grid.tiles@.difference(s0.visible_tiles@);
    if available != Set::<(int, int)>::empty() {
        let moves = choose|moves: Seq<(Thing, Pos)>| {
            &&& moves.len() == things_to_shift(s0).len()
            &&& forall|k: int| 0 <= k < moves.len() ==> #[trigger] moves[k].0 == things_to_shift(s0)[k]
                && available.contains(moves[k].1@)
            &&& (s1.items@, s1.entities@) == shifted((s0.items@, s0.entities@), moves)
        };
        assert forall|c: int| 0 <= c < moves.len() implies thing_in(v0, #[trigger] moves[c].0) by {
            assert(moves[c].0 == things_to_shift(s0)[c]);
            lemma_things_exist(s0, c);
        }
        lemma_apart_moves(v0, moves, moves.len() as int);
        assert(moves.take(moves.len() as int) =~= moves);
    }
}

impl ModelState {
    /// Shifts every thing that nobody sees to a random tile that nobody sees,
    /// one after the other, swapping it with whatever stands there.
    pub fn shift_everything(&mut self)
        requires
            old(self).wf(),
        ensures
            final(self).wf(),
            shift_post(old(self), final(self)),
            same_things((old(self).items@, old(self).entities@), (final(self).items@, final(self).entities@)),
    {
        let ghost s0 = *self;
        let available = self.grid.tiles.difference(&self.visible_tiles);
        if available.is_empty() {
            return;
        }
        proof {
            available.lemma_view();
        }
        let mut moves: Vec<(Thing, Pos)> = Vec::new();
        let n = self.items.id_bound();
        for i in 0..n
            invariant
                n == s0.items@.len(),
                *self == s0,
                available@ == s0.grid.tiles@.difference(s0.visible_tiles@),
                available.elems().len() > 0,
                moves@.len() == hidden_items(&s0, i as int).len(),
                forall|k: int| 0 <= k < moves@.len() ==> #[trigger] moves@[k].0 == hidden_items(&s0, i as int)[k],
                forall|k: int| 0 <= k < moves@.len() ==> available@.contains(#[trigger] moves@[k].1@),
        {
            match self.items.get(i) {
                Some(b) => {
                    if !self.visible_tiles.contains(b.position) {
                        let target = pick_one(available.as_slice()).unwrap();
                        proof {
                            available.lemma_view();
                            let j = choose|j: int| 0 <= j < available.elems().len() && available.elems()[j] == target;
                            assert(available@.contains(available.elems()[j]@));
                        }
                        moves.push((Thing::Item(i), target));
                        assert(hidden_items(&s0, i + 1) == hidden_items(&s0, i as int).push(Thing::Item(i)));
                    } else {
                        assert(hidden_items(&s0, i + 1) == hidden_items(&s0, i as int));
                    }
                },
                None => {
                    assert(hidden_items(&s0, i + 1) == hidden_items(&s0, i as int));
                },
            }
        }
        let m = self.entities.id_bound();
        assert(hidden_items(&s0, n as int) + hidden_entities(&s0, 0) =~= hidden_items(&s0, n as int));
        for i in 0..m
            invariant
                n == s0.items@.len(),
                m == s0.entities@.len(),
                *self == s0,
                available@ == s0.grid.tiles@.difference(s0.visible_tiles@),
                available.elems().len() > 0,
                moves@.len() == hidden_items(&s0, n as int).len() + hidden_entities(&s0, i as int).len(),
                forall|k: int| 0 <= k < moves@.len() ==> #[trigger] moves@[k].0 == (hidden_items(&s0, n as int) + hidden_entities(&s0, i as int))[k],
                forall|k: int| 0 <= k < moves@.len() ==> available@.contains(#[trigger] moves@[k].1@),
        {
            match self.entities.get(i) {
                Some(e) => {
                    if !self.visible_tiles.contains(e.position) {
                        let target = pick_one(available.as_slice()).unwrap();
                        proof {
                            available.lemma_view();
                            let j = choose|j: int| 0 <= j < available.elems().len() && available.elems()[j] == target;
                            assert(available@.contains(available.elems()[j]@));
                        }
                        moves.push((Thing::Entity(i), target));
                        assert(hidden_entities(&s0, i + 1) == hidden_entities(&s0, i as int).push(Thing::Entity(i)));
                        assert(hidden_items(&s0, n as int) + hidden_entities(&s0, i + 1)
                            == (hidden_items(&s0, n as int) + hidden_entities(&s0, i as int)).push(Thing::Entity(i)));
                    } else {
                        assert(hidden_entities(&s0, i + 1) == hidden_entities(&s0, i as int));
                    }
                },
                None => {
                    assert(hidden_entities(&s0, i + 1) == hidden_entities(&s0, i as int));
                },
            }
        }
        let ghost v0 = (s0.items@, s0.entities@);
        let count = moves.len();
        for k in 0..count
            invariant
                n == s0.items@.len(),
                m == s0.entities@.len(),
                count == moves@.len(),
                count == things_to_shift(&s0).len(),
                forall|c: int| 0 <= c < count ==> #[trigger] moves@[c].0 == things_to_shift(&s0)[c],
                v0 == (s0.items@, s0.entities@),
                (self.items@, self.entities@) == shifted(v0, moves@.take(k as int)),
                same_things(v0, (self.items@, self.entities@)),
                self.all_items == s0.all_items,
                self.grid == s0.grid,
                self.player == s0.player,
                self.visible_tiles == s0.visible_tiles,
        {
            let (t, target) = moves[k];
            proof {
                assert(moves@[k as int].0 == things_to_shift(&s0)[k as int]);
                lemma_things_exist(&s0, k as int);
                lemma_shifted_step(v0, moves@, k as int);
                lemma_swap_keeps_things(v0, (self.items@, self.entities@), t, target);
            }
            self.swap_thing(t, target);
        }
        proof {
            assert(moves@.take(count as int) =~= moves@);
            lemma_same_things_wf(&s0, self);
        }
    }
}

impl ModelState {
    /// Where thing `t` stands now.
    fn thing_position(&self, t: Thing) -> (p: Pos)
        requires
            thing_in((self.items@, self.entities@), t),
        ensures
            p == thing_pos((self.items@, self.entities@), t),
    {
        match t {
            Thing::Entity(i) => self.entities.get(i).unwrap().position,
            Thing::Item(i) => self.items.get(i).unwrap().position,
        }
    }

    /// Moves `t` to `target` and whatever stood at `target` to where `t` was.
    fn swap_thing(&mut self, t: Thing, target: Pos)
        requires
            thing_in((old(self).items@, old(self).entities@), t),
        ensures
            (final(self).items@, final(self).entities@) == swap_step((old(self).items@, old(self).entities@), t, target),
            final(self).all_items == old(self).all_items,
            final(self).grid == old(self).grid,
            final(self).player == old(self).player,
            final(self).visible_tiles == old(self).visible_tiles,
    {
        let ghost v0 = (self.items@, self.entities@);
        let from = self.thing_position(t);
        relocate_items(&mut self.items, target, from);
        relocate_entities(&mut self.entities, target, from);
        match t {
            Thing::Entity(i) => {
                let e = self.entities.get(i).unwrap();
                self.entities.set(i, Entity { position: target, ..e });
            },
            Thing::Item(i) => {
                let b = self.items.get(i).unwrap();
                self.items.set(i, BoardItem { position: target, ..b });
            },
        }
        assert(self.items@ =~= swap_step(v0, t, target).0);
        assert(self.entities@ =~= swap_step(v0, t, target).1);
    }
}

} // verus!

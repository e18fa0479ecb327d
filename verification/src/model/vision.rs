use vstd::prelude::*;
use crate::geom::{Pos, ray_point};
use crate::posset::PosSet;
use crate::arena::{arena_get, arena_has};
use crate::entity::EntityKind;
use crate::model::state::{ModelState, entity_of};

verus! {

/// `q` is `start`, or lies on the ray from `start` in steps of `dir` with a
/// tile at every step up to it.
pub open spec fn seen_along(tiles: Set<(int, int)>, start: (int, int), dir: (int, int), q: (int, int)) -> bool {
    exists|k: int| 0 <= k && #[trigger] ray_point(start, dir, k) == q
        && forall|j: int| 1 <= j <= k ==> tiles.contains(#[trigger] ray_point(start, dir, j))
}

/// Entity `e` is a player looking somewhere.
pub open spec fn looking_player(s: &ModelState, e: int) -> bool {
    &&& arena_has(s.entities@, e)
    &&& entity_of(s, e).kind == EntityKind::Player
    &&& entity_of(s, e).look_dir@ != (0int, 0int)
}

/// Some looking player among the entities with id below `n` sees `q`.
pub open spec fn seen_by_players(s: &ModelState, n: int, q: (int, int)) -> bool {
    exists|e: int| 0 <= e < n && #[trigger] looking_player(s, e)
        && seen_along(s.grid.tiles@, entity_of(s, e).position@, entity_of(s, e).look_dir@, q)
}

/// The visible tiles: the lit ones, and what every player sees along its look direction.
pub open spec fn vision_spec(s: &ModelState) -> Set<(int, int)> {
    Set::new(|q: (int, int)| s.grid.lights@.contains_key(q) || seen_by_players(s, s.entities@.len() as int, q))
}

/// The visible tiles depend on the grid and the entities alone.
pub proof fn lemma_vision_depends(s1: &ModelState, s2: &ModelState)
    requires
        s1.grid == s2.grid,
        s1.entities == s2.entities,
    ensures
        vision_spec(s1) == vision_spec(s2),
{
    assert forall|q: (int, int)| vision_spec(s1).contains(q) == vision_spec(s2).contains(q) by {
        let n = s1.entities@.len() as int;
        if seen_by_players(s1, n, q) {
            let e = choose|e: int| 0 <= e < n && #[trigger] looking_player(s1, e)
                && seen_along(s1.grid.tiles@, entity_of(s1, e).position@, entity_of(s1, e).look_dir@, q);
            assert(looking_player(s2, e));
        }
        if seen_by_players(s2, n, q) {
            let e = choose|e: int| 0 <= e < n && #[trigger] looking_player(s2, e)
                && seen_along(s2.grid.tiles@, entity_of(s2, e).position@, entity_of(s2, e).look_dir@, q);
            assert(looking_player(s1, e));
        }
    }
    assert(vision_spec(s1) =~= vision_spec(s2));
}

/// The points of the ray from `start` at steps `0..=k`.
pub open spec fn ray_prefix(start: (int, int), dir: (int, int), k: int, q: (int, int)) -> bool {
    exists|j: int| 0 <= j <= k && #[trigger] ray_point(start, dir, j) == q
}

proof fn lemma_ray_step(start: (int, int), dir: (int, int), k: int)
    ensures
        ray_point(start, dir, k + 1) == (ray_point(start, dir, k).0 + dir.0, ray_point(start, dir, k).1 + dir.1),
        ray_point(start, dir, 0) == start,
{
    assert((k + 1) * dir.0 == k * dir.0 + dir.0) by (nonlinear_arith);
    assert((k + 1) * dir.1 == k * dir.1 + dir.1) by (nonlinear_arith);
    assert(0 * dir.0 == 0) by (nonlinear_arith);
    assert(0 * dir.1 == 0) by (nonlinear_arith);
}

/// How far `pos` is from the edge of the coordinate range in the direction of `dir`.
spec fn room_ahead(pos: Pos, dir: Pos) -> int {
    if dir.x > 0 {
        i64::MAX - pos.x
    } else if dir.x < 0 {
        pos.x - i64::MIN
    } else if dir.y > 0 {
        i64::MAX - pos.y
    } else {
        pos.y - i64::MIN
    }
}

impl ModelState {
    /// Recomputes the visible tiles: every lit position, and for each player
    /// looking somewhere, its position and the tiles in a straight line ahead
    /// up to the first gap.
    pub fn update_vision(&mut self)
        requires
            old(self).wf(),
        ensures
            final(self).wf(),
            final(self).visible_tiles@ == vision_spec(old(self)),
            final(self).grid == old(self).grid,
            final(self).items == old(self).items,
            final(self).entities == old(self).entities,
            final(self).player == old(self).player,
            final(self).all_items == old(self).all_items,
    {
        let lit = self.grid.lights.positions();
        let mut visible = PosSet::new();
        let nl = lit.len();
        for i in 0..nl
            invariant
                nl == lit.len(),
                visible.wf(),
                forall|q: (int, int)| #[trigger] visible@.contains(q) <==> exists|j: int| 0 <= j < i && #[trigger] lit[j]@ == q,
        {
            let ghost before = visible@;
            visible.insert(lit[i]);
            assert forall|q: (int, int)| #[trigger] visible@.contains(q) <==> exists|j: int| 0 <= j < i + 1 && #[trigger] lit[j]@ == q by {
                if visible@.contains(q) && q != lit[i as int]@ {
                    assert(before.contains(q));
                }
                if exists|j: int| 0 <= j < i + 1 && #[trigger] lit[j]@ == q {
                    let j = choose|j: int| 0 <= j < i + 1 && #[trigger] lit[j]@ == q;
                    if j < i {
                        assert(before.contains(q));
                    }
                }
            }
        }
        let n = self.entities.id_bound();
        for e in 0..n
            invariant
                n == self.entities@.len(),
                self.wf(),
                visible.wf(),
                forall|q: (int, int)| #[trigger] visible@.contains(q) <==> (self.grid.lights@.contains_key(q)
                    || seen_by_players(self, e as int, q)),
        {
            let ghost before = visible@;
            match self.entities.get(e) {
                Some(ent) => {
                    let dir = ent.look_dir;
                    if ent.kind == EntityKind::Player && !(dir.x == 0 && dir.y == 0) {
                        assert(looking_player(self, e as int));
                        let start = ent.position;
                        let mut pos = start;
                        visible.insert(pos);
                        let ghost mut k: int = 0;
                        proof {
                            lemma_ray_step(start@, dir@, 0);
                        }
                        loop
                            invariant
                                self.wf(),
                                visible.wf(),
                                dir.x != 0 || dir.y != 0,
                                k >= 0,
                                pos@ == ray_point(start@, dir@, k),
                                forall|j: int| 1 <= j <= k ==> self.grid.tiles@.contains(#[trigger] ray_point(start@, dir@, j)),
                                forall|q: (int, int)| #[trigger] visible@.contains(q) <==> (before.contains(q) || ray_prefix(start@, dir@, k, q)),
                            ensures
                                k >= 0,
                                forall|j: int| 1 <= j <= k ==> self.grid.tiles@.contains(#[trigger] ray_point(start@, dir@, j)),
                                !self.grid.tiles@.contains(ray_point(start@, dir@, k + 1)),
                                forall|q: (int, int)| #[trigger] visible@.contains(q) <==> (before.contains(q) || ray_prefix(start@, dir@, k, q)),
                            decreases room_ahead(pos, dir),
                        {
                            proof {
                                lemma_ray_step(start@, dir@, k);
                            }
                            match pos.checked_add(dir) {
                                None => {
                                    proof {
                                        let t = ray_point(start@, dir@, k + 1);
                                        if self.grid.tiles@.contains(t) {
                                            self.grid.tiles.lemma_view();
                                            let i = choose|i: int| 0 <= i < self.grid.tiles.elems().len() && #[trigger] self.grid.tiles.elems()[i]@ == t;
                                            assert(self.grid.tiles.elems()[i]@ == t);
                                        }
                                    }
                                    break;
                                },
                                Some(target) => {
                                    if !self.grid.check_pos(target) {
                                        break;
                                    }
                                    let ghost before_step = visible@;
                                    visible.insert(target);
                                    pos = target;
                                    proof {
                                        k = k + 1;
                                    }
                                    assert forall|q: (int, int)| #[trigger] visible@.contains(q) <==> (before.contains(q) || ray_prefix(start@, dir@, k, q)) by {
                                        if ray_prefix(start@, dir@, k, q) {
                                            let j = choose|j: int| 0 <= j <= k && #[trigger] ray_point(start@, dir@, j) == q;
                                            if j < k {
                                                assert(ray_prefix(start@, dir@, k - 1, q));
                                            }
                                        }
                                        if visible@.contains(q) && !before.contains(q) {
                                            if q == target@ {
                                                assert(ray_point(start@, dir@, k) == q);
                                            } else {
                                                assert(before_step.contains(q));
                                                let j = choose|j: int| 0 <= j <= k - 1 && #[trigger] ray_point(start@, dir@, j) == q;
                                                assert(ray_point(start@, dir@, j) == q);
                                            }
                                        }
                                    }
                                },
                            }
                        }
                        assert forall|q: (int, int)| #[trigger] visible@.contains(q) <==> (self.grid.lights@.contains_key(q)
                            || seen_by_players(self, e + 1, q)) by {
                            let tiles = self.grid.tiles@;
                            if seen_along(tiles, start@, dir@, q) {
                                let k2 = choose|k2: int| 0 <= k2 && #[trigger] ray_point(start@, dir@, k2) == q
                                    && forall|j: int| 1 <= j <= k2 ==> tiles.contains(#[trigger] ray_point(start@, dir@, j));
                                if k2 > k {
                                    assert(tiles.contains(ray_point(start@, dir@, k + 1)));
                                }
                                assert(ray_prefix(start@, dir@, k, q));
                            }
                            if ray_prefix(start@, dir@, k, q) {
                                let j = choose|j: int| 0 <= j <= k && #[trigger] ray_point(start@, dir@, j) == q;
                                assert(forall|i: int| 1 <= i <= j ==> tiles.contains(#[trigger] ray_point(start@, dir@, i)));
                                assert(seen_along(tiles, start@, dir@, q));
                                assert(looking_player(self, e as int));
                            }
                            if seen_by_players(self, e + 1, q) {
                                let e2 = choose|e2: int| 0 <= e2 < e + 1 && #[trigger] looking_player(self, e2)
                                    && seen_along(tiles, entity_of(self, e2).position@, entity_of(self, e2).look_dir@, q);
                                if e2 < e {
                                    assert(seen_by_players(self, e as int, q));
                                }
                            }
                            if seen_by_players(self, e as int, q) {
                                let e2 = choose|e2: int| 0 <= e2 < e && #[trigger] looking_player(self, e2)
                                    && seen_along(tiles, entity_of(self, e2).position@, entity_of(self, e2).look_dir@, q);
                                assert(seen_by_players(self, e + 1, q));
                            }
                        }
                    } else {
                        assert(!looking_player(self, e as int));
                        assert forall|q: (int, int)| #[trigger] visible@.contains(q) <==> (self.grid.lights@.contains_key(q)
                            || seen_by_players(self, e + 1, q)) by {
                            if seen_by_players(self, e + 1, q) {
                                let e2 = choose|e2: int| 0 <= e2 < e + 1 && #[trigger] looking_player(self, e2)
                                    && seen_along(self.grid.tiles@, entity_of(self, e2).position@, entity_of(self, e2).look_dir@, q);
                                assert(seen_by_players(self, e as int, q));
                            }
                            if seen_by_players(self, e as int, q) {
                                let e2 = choose|e2: int| 0 <= e2 < e && #[trigger] looking_player(self, e2)
                                    && seen_along(self.grid.tiles@, entity_of(self, e2).position@, entity_of(self, e2).look_dir@, q);
                                assert(seen_by_players(self, e + 1, q));
                            }
                        }
                    }
                },
                None => {
                    assert(!looking_player(self, e as int));
                    assert forall|q: (int, int)| #[trigger] visible@.contains(q) <==> (self.grid.lights@.contains_key(q)
                        || seen_by_players(self, e + 1, q)) by {
                        if seen_by_players(self, e + 1, q) {
                            let e2 = choose|e2: int| 0 <= e2 < e + 1 && #[trigger] looking_player(self, e2)
                                && seen_along(self.grid.tiles@, entity_of(self, e2).position@, entity_of(self, e2).look_dir@, q);
                            assert(seen_by_players(self, e as int, q));
                        }
                        if seen_by_players(self, e as int, q) {
                            let e2 = choose|e2: int| 0 <= e2 < e && #[trigger] looking_player(self, e2)
                                && seen_along(self.grid.tiles@, entity_of(self, e2).position@, entity_of(self, e2).look_dir@, q);
                            assert(seen_by_players(self, e + 1, q));
                        }
                    }
                },
            }
        }
        assert(visible@ =~= vision_spec(self));
        self.visible_tiles = visible;
    }
}

/// Every lit tile is visible, and a player looking somewhere sees its own tile.
pub proof fn law_vision_sees_lights_and_players(s: &ModelState, e: int, q: (int, int))
    ensures
        s.grid.lights@.contains_key(q) ==> vision_spec(s).contains(q),
        0 <= e < s.entities@.len() && looking_player(s, e) ==> vision_spec(s).contains(entity_of(s, e).position@),
{
    if 0 <= e < s.entities@.len() && looking_player(s, e) {
        let p = entity_of(s, e).position@;
        let d = entity_of(s, e).look_dir@;
        assert(ray_point(p, d, 0) == p);
        assert(seen_along(s.grid.tiles@, p, d, p));
        assert(seen_by_players(s, s.entities@.len() as int, p));
    }
}

} // verus!

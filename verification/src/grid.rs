use vstd::prelude::*;
use crate::geom::{Coord, Pos};
use crate::posset::PosSet;
use crate::lights::{Lights, tick_spec};

verus! {

/// The map: which positions hold tiles, which tiles the player has fractured
/// by walking on them, and which tiles are lit.
pub struct Grid {
    pub tiles: PosSet,
    pub fractured: PosSet,
    /// Positions that are lit up, and the duration (in turns).
    pub lights: Lights,
}

/// The tiles can extend to a 5x5 square around the origin.
pub open spec fn in_limits_spec(q: (int, int)) -> bool {
    -3 < q.0 < 3 && -3 < q.1 < 3
}

/// One of the four orthogonal neighbours of `q` is in `tiles`.
pub open spec fn touches(tiles: Set<(int, int)>, q: (int, int)) -> bool {
    ||| tiles.contains((q.0, q.1 - 1))
    ||| tiles.contains((q.0 + 1, q.1))
    ||| tiles.contains((q.0, q.1 + 1))
    ||| tiles.contains((q.0 - 1, q.1))
}

/// An empty position inside the limits, next to a tile: where the map can grow.
pub open spec fn near_spec(tiles: Set<(int, int)>, q: (int, int)) -> bool {
    &&& !tiles.contains(q)
    &&& in_limits_spec(q)
    &&& touches(tiles, q)
}

/// The `size` by `size` square whose lower corner is `-(size / 2)` on both axes.
pub open spec fn square_spec(size: int) -> Set<(int, int)> {
    let offset = -(size / 2);
    Set::new(|q: (int, int)| 0 <= q.0 - offset < size && 0 <= q.1 - offset < size)
}

/// Within `radius` of `center` on both axes.
pub open spec fn in_square_around(center: (int, int), radius: int, q: (int, int)) -> bool {
    -radius <= q.0 - center.0 <= radius && -radius <= q.1 - center.1 <= radius
}

/// The lights after lighting every tile within `radius` of `center` for `duration` turns.
pub open spec fn light_up_spec(
    lights: Map<(int, int), int>,
    tiles: Set<(int, int)>,
    center: (int, int),
    radius: int,
    duration: int,
) -> Map<(int, int), int> {
    Map::new(
        |q: (int, int)| lights.contains_key(q) || (tiles.contains(q) && in_square_around(center, radius, q)),
        |q: (int, int)| if tiles.contains(q) && in_square_around(center, radius, q) { duration } else { lights[q] },
    )
}

/// The bounds of a grid: the smallest box that holds every tile and the origin.
pub struct GridBounds {
    pub min: Pos,
    pub max: Pos,
}

/// `v` is the least of 0 and of the coordinate `axis` (0 for x, 1 for y) over `tiles`.
pub open spec fn is_low_bound(tiles: Set<(int, int)>, v: int, axis: int) -> bool {
    &&& v <= 0
    &&& forall|q: (int, int)| tiles.contains(q) ==> v <= #[trigger] coord_of(q, axis)
    &&& (v == 0 || exists|q: (int, int)| tiles.contains(q) && #[trigger] coord_of(q, axis) == v)
}

/// `v` is the greatest of 0 and of the coordinate `axis` over `tiles`.
pub open spec fn is_high_bound(tiles: Set<(int, int)>, v: int, axis: int) -> bool {
    &&& v >= 0
    &&& forall|q: (int, int)| tiles.contains(q) ==> #[trigger] coord_of(q, axis) <= v
    &&& (v == 0 || exists|q: (int, int)| tiles.contains(q) && #[trigger] coord_of(q, axis) == v)
}

pub open spec fn coord_of(q: (int, int), axis: int) -> int {
    if axis == 0 { q.0 } else { q.1 }
}

/// Some of the first `i` elements of `s` is at `q`.
pub open spec fn prefix_has(s: Seq<Pos>, i: int, q: (int, int)) -> bool {
    exists|j: int| 0 <= j < i && #[trigger] s[j]@ == q
}


const DIRS: [(Coord, Coord); 4] = [(0, -1), (1, 0), (0, 1), (-1, 0)];

impl Grid {
    pub open spec fn wf(&self) -> bool {
        &&& self.tiles.wf()
        &&& self.fractured.wf()
        &&& self.lights.wf()
    }

    /// A `size` by `size` square of tiles centred on the origin.
    pub fn new(size: Coord) -> (g: Grid)
        requires
            size > i64::MIN,
        ensures
            g.wf(),
            g.tiles@ == square_spec(size as int),
            g.fractured@ == Set::<(int, int)>::empty(),
            g.lights@ == Map::<(int, int), int>::empty(),
    {
        if size <= 0 {
            let g = Grid { tiles: PosSet::new(), fractured: PosSet::new(), lights: Lights::new() };
            assert(g.tiles@ =~= square_spec(size as int));
            return g;
        }
        let offset = -(size / 2);
        let mut tiles = PosSet::new();
        let mut x: Coord = 0;
        while x < size
            invariant
                tiles.wf(),
                0 <= x <= size,
                offset == -(size / 2),
                forall|q: (int, int)| #[trigger] tiles@.contains(q) <==>
                    (0 <= q.0 - offset < x && 0 <= q.1 - offset < size),
            decreases size - x,
        {
            let mut y: Coord = 0;
            while y < size
                invariant
                    tiles.wf(),
                    0 <= x < size,
                    0 <= y <= size,
                    offset == -(size / 2),
                    forall|q: (int, int)| #[trigger] tiles@.contains(q) <==>
                        ((0 <= q.0 - offset < x && 0 <= q.1 - offset < size)
                        || (q.0 - offset == x && 0 <= q.1 - offset < y)),
                decreases size - y,
            {
                tiles.insert(Pos::new(x + offset, y + offset));
                y += 1;
            }
            x += 1;
        }
        let g = Grid { tiles, fractured: PosSet::new(), lights: Lights::new() };
        assert(g.tiles@ =~= square_spec(size as int));
        g
    }

    /// Whether no empty position is left where the map can grow.
    pub fn is_max(&self) -> (b: bool)
        requires
            self.wf(),
        ensures
            b <==> forall|q: (int, int)| !near_spec(self.tiles@, q),
    {
        let outside = self.outside_tiles();
        let b = outside.is_empty();
        if !b {
            proof {
                outside.lemma_view();
                let q = outside.elems()[0]@;
                assert(outside@.contains(q));
                assert(near_spec(self.tiles@, q));
            }
        } else {
            assert forall|q: (int, int)| !near_spec(self.tiles@, q) by {
                assert(!outside@.contains(q));
            }
        }
        b
    }

    /// The box spanned by the origin and every tile.
    pub fn bounds(&self) -> (b: GridBounds)
        requires
            self.wf(),
        ensures
            is_low_bound(self.tiles@, b.min.x as int, 0),
            is_low_bound(self.tiles@, b.min.y as int, 1),
            is_high_bound(self.tiles@, b.max.x as int, 0),
            is_high_bound(self.tiles@, b.max.y as int, 1),
    {
        let mut lo = Pos::new(0, 0);
        let mut hi = Pos::new(0, 0);
        let n = self.tiles.len();
        proof {
            self.tiles.lemma_view();
        }
        for i in 0..n
            invariant
                n == self.tiles.elems().len(),
                self.wf(),
                lo.x <= 0 && lo.y <= 0 && hi.x >= 0 && hi.y >= 0,
                forall|j: int| 0 <= j < i ==> lo.x <= #[trigger] self.tiles.elems()[j].x,
                forall|j: int| 0 <= j < i ==> lo.y <= #[trigger] self.tiles.elems()[j].y,
                forall|j: int| 0 <= j < i ==> #[trigger] self.tiles.elems()[j].x <= hi.x,
                forall|j: int| 0 <= j < i ==> #[trigger] self.tiles.elems()[j].y <= hi.y,
                lo.x == 0 || exists|j: int| 0 <= j < i && #[trigger] self.tiles.elems()[j].x == lo.x,
                lo.y == 0 || exists|j: int| 0 <= j < i && #[trigger] self.tiles.elems()[j].y == lo.y,
                hi.x == 0 || exists|j: int| 0 <= j < i && #[trigger] self.tiles.elems()[j].x == hi.x,
                hi.y == 0 || exists|j: int| 0 <= j < i && #[trigger] self.tiles.elems()[j].y == hi.y,
        {
            let p = self.tiles.get(i);
            if p.x < lo.x {
                lo.x = p.x;
            }
            if p.y < lo.y {
                lo.y = p.y;
            }
            if p.x > hi.x {
                hi.x = p.x;
            }
            if p.y > hi.y {
                hi.y = p.y;
            }
        }
        proof {
            self.tiles.lemma_view();
            let e = self.tiles.elems();
            assert forall|q: (int, int)| self.tiles@.contains(q) implies lo.x <= #[trigger] coord_of(q, 0) && coord_of(q, 0) <= hi.x
                && lo.y <= coord_of(q, 1) && coord_of(q, 1) <= hi.y by {
                let j = choose|j: int| 0 <= j < e.len() && #[trigger] e[j]@ == q;
                assert(lo.x <= e[j].x && e[j].x <= hi.x);
            }
            assert forall|q: (int, int)| self.tiles@.contains(q) implies lo.y <= #[trigger] coord_of(q, 1) && coord_of(q, 1) <= hi.y by {
                let j = choose|j: int| 0 <= j < e.len() && #[trigger] e[j]@ == q;
                assert(lo.y <= e[j].y && e[j].y <= hi.y);
            }
            if lo.x != 0 {
                let j = choose|j: int| 0 <= j < n && #[trigger] e[j].x == lo.x;
                assert(self.tiles@.contains(e[j]@) && coord_of(e[j]@, 0) == lo.x);
            }
            if lo.y != 0 {
                let j = choose|j: int| 0 <= j < n && #[trigger] e[j].y == lo.y;
                assert(self.tiles@.contains(e[j]@) && coord_of(e[j]@, 1) == lo.y);
            }
            if hi.x != 0 {
                let j = choose|j: int| 0 <= j < n && #[trigger] e[j].x == hi.x;
                assert(self.tiles@.contains(e[j]@) && coord_of(e[j]@, 0) == hi.x);
            }
            if hi.y != 0 {
                let j = choose|j: int| 0 <= j < n && #[trigger] e[j].y == hi.y;
                assert(self.tiles@.contains(e[j]@) && coord_of(e[j]@, 1) == hi.y);
            }
        }
        GridBounds { min: lo, max: hi }
    }

    /// Whether there is a tile at `pos`.
    pub fn check_pos(&self, pos: Pos) -> (b: bool)
        ensures
            b == self.tiles@.contains(pos@),
    {
        self.tiles.contains(pos)
    }

    /// Whether the position is inside the possible extension limits.
    pub fn check_in_limits(&self, pos: Pos) -> (b: bool)
        ensures
            b == in_limits_spec(pos@),
    {
        -3 < pos.x && pos.x < 3 && -3 < pos.y && pos.y < 3
    }

    /// Whether the position is empty, but there is a tile right next to it.
    pub fn check_pos_near(&self, pos: Pos) -> (b: bool)
        ensures
            b == near_spec(self.tiles@, pos@),
    {
        if self.check_pos(pos) {
            return false;
        }
        if !self.check_in_limits(pos) {
            return false;
        }
        // Inside the limits, so the neighbours fit in a coordinate.
        self.check_pos(Pos::new(pos.x, pos.y - 1))
            || self.check_pos(Pos::new(pos.x + 1, pos.y))
            || self.check_pos(Pos::new(pos.x, pos.y + 1))
            || self.check_pos(Pos::new(pos.x - 1, pos.y))
    }

    /// Adds a tile at `pos`.
    pub fn expand(&mut self, pos: Pos)
        requires
            old(self).wf(),
        ensures
            final(self).wf(),
            final(self).tiles@ == old(self).tiles@.insert(pos@),
            final(self).fractured@ == old(self).fractured@,
            final(self).lights@ == old(self).lights@,
    {
        self.tiles.insert(pos);
    }

    /// The outside empty tiles that can be turned into proper tiles.
    pub fn outside_tiles(&self) -> (outside: PosSet)
        requires
            self.wf(),
        ensures
            outside.wf(),
            forall|q: (int, int)| #[trigger] outside@.contains(q) <==> near_spec(self.tiles@, q),
    {
        let mut outside = PosSet::new();
        let n = self.tiles.len();
        proof {
            self.tiles.lemma_view();
        }
        for i in 0..n
            invariant
                n == self.tiles.elems().len(),
                self.wf(),
                outside.wf(),
                forall|q: (int, int)| #[trigger] outside@.contains(q) <==> (near_spec(self.tiles@, q)
                    && exists|j: int| 0 <= j < i && Self::neighbour_of(self.tiles.elems()[j]@, q)),
        {
            let p = self.tiles.get(i);
            proof {
                self.tiles.lemma_view();
                assert(self.tiles@.contains(p@));
            }
            let ghost before = outside@;
            let mut k: usize = 0;
            while k < 4
                invariant
                    0 <= k <= 4,
                    self.wf(),
                    outside.wf(),
                    self.tiles@.contains(p@),
                    p == self.tiles.elems()[i as int],
                    i < n,
                    n == self.tiles.elems().len(),
                    forall|q: (int, int)| #[trigger] outside@.contains(q) <==> (before.contains(q)
                        || (near_spec(self.tiles@, q) && Self::neighbour_within(p@, q, k as int))),
                    forall|q: (int, int)| #[trigger] before.contains(q) <==> (near_spec(self.tiles@, q)
                        && exists|j: int| 0 <= j < i && Self::neighbour_of(self.tiles.elems()[j]@, q)),
                decreases 4 - k,
            {
                let (dx, dy) = DIRS[k];
                match p.checked_add(Pos::new(dx, dy)) {
                    Some(q) => {
                        if !self.check_pos(q) && self.check_in_limits(q) {
                            outside.insert(q);
                        }
                    },
                    None => {},
                }
                k += 1;
            }
            assert forall|q: (int, int)| #[trigger] outside@.contains(q) <==> (near_spec(self.tiles@, q)
                && exists|j: int| 0 <= j < i + 1 && Self::neighbour_of(self.tiles.elems()[j]@, q)) by {
                if near_spec(self.tiles@, q) && Self::neighbour_of(p@, q) {
                    assert(Self::neighbour_within(p@, q, 4));
                }
                if near_spec(self.tiles@, q) && (exists|j: int| 0 <= j < i + 1 && Self::neighbour_of(self.tiles.elems()[j]@, q)) {
                    let j = choose|j: int| 0 <= j < i + 1 && Self::neighbour_of(self.tiles.elems()[j]@, q);
                    if j == i {
                        assert(Self::neighbour_within(p@, q, 4));
                    } else {
                        assert(before.contains(q));
                    }
                }
                if outside@.contains(q) && !before.contains(q) {
                    assert(Self::neighbour_of(self.tiles.elems()[i as int]@, q));
                }
            }
        }
        assert forall|q: (int, int)| #[trigger] outside@.contains(q) <==> near_spec(self.tiles@, q) by {
            if near_spec(self.tiles@, q) {
                let t = if self.tiles@.contains((q.0, q.1 - 1)) {
                    (q.0, q.1 - 1)
                } else if self.tiles@.contains((q.0 + 1, q.1)) {
                    (q.0 + 1, q.1)
                } else if self.tiles@.contains((q.0, q.1 + 1)) {
                    (q.0, q.1 + 1)
                } else {
                    (q.0 - 1, q.1)
                };
                let j = choose|j: int| 0 <= j < self.tiles.elems().len() && #[trigger] self.tiles.elems()[j]@ == t;
                assert(Self::neighbour_of(self.tiles.elems()[j]@, q));
            }
        }
        outside
    }

    /// `q` is `p` moved by one of the first `k` directions.
    pub open spec fn neighbour_within(p: (int, int), q: (int, int), k: int) -> bool {
        ||| (k > 0 && q == (p.0, p.1 - 1))
        ||| (k > 1 && q == (p.0 + 1, p.1))
        ||| (k > 2 && q == (p.0, p.1 + 1))
        ||| (k > 3 && q == (p.0 - 1, p.1))
    }

    pub open spec fn neighbour_of(p: (int, int), q: (int, int)) -> bool {
        Self::neighbour_within(p, q, 4)
    }

    /// Lights every tile within `radius` of `position` for `duration` turns.
    pub fn light_up(&mut self, position: Pos, radius: Coord, duration: usize)
        requires
            old(self).wf(),
        ensures
            final(self).wf(),
            final(self).tiles == old(self).tiles,
            final(self).fractured == old(self).fractured,
            final(self).lights@ == light_up_spec(old(self).lights@, old(self).tiles@, position@, radius as int, duration as int),
    {
        let ghost old_lights = self.lights@;
        let n = self.tiles.len();
        proof {
            self.tiles.lemma_view();
        }
        for i in 0..n
            invariant
                n == self.tiles.elems().len(),
                self.wf(),
                self.tiles == old(self).tiles,
                self.fractured == old(self).fractured,
                old_lights == old(self).lights@,
                forall|q: (int, int)| #[trigger] self.lights@.contains_key(q) <==> (old_lights.contains_key(q)
                    || (in_square_around(position@, radius as int, q) && prefix_has(self.tiles.elems(), i as int, q))),
                forall|q: (int, int)| #[trigger] self.lights@.contains_key(q) ==> self.lights@[q] == (if in_square_around(position@, radius as int, q)
                    && prefix_has(self.tiles.elems(), i as int, q) { duration as int } else { old_lights[q] }),
        {
            let p = self.tiles.get(i);
            let dx = p.x as i128 - position.x as i128;
            let dy = p.y as i128 - position.y as i128;
            let r = radius as i128;
            let ghost before = self.lights@;
            if -r <= dx && dx <= r && -r <= dy && dy <= r {
                self.lights.insert(p, duration);
            }
            assert forall|q: (int, int)| #[trigger] prefix_has(self.tiles.elems(), i + 1, q)
                <==> (prefix_has(self.tiles.elems(), i as int, q) || q == p@) by {
                if prefix_has(self.tiles.elems(), i + 1, q) {
                    let j = choose|j: int| 0 <= j < i + 1 && #[trigger] self.tiles.elems()[j]@ == q;
                    if j < i {
                        assert(prefix_has(self.tiles.elems(), i as int, q));
                    }
                }
                if prefix_has(self.tiles.elems(), i as int, q) {
                    let j = choose|j: int| 0 <= j < i && #[trigger] self.tiles.elems()[j]@ == q;
                    assert(self.tiles.elems()[j]@ == q);
                }
                if q == p@ {
                    assert(self.tiles.elems()[i as int]@ == q);
                }
            }
        }
        proof {
            self.tiles.lemma_view();
        }
        assert(self.lights@ =~= light_up_spec(old_lights, self.tiles@, position@, radius as int, duration as int));
    }

    /// Shortens every light by a turn; lights that run out go off.
    pub fn decay_lights(&mut self)
        requires
            old(self).wf(),
        ensures
            final(self).wf(),
            final(self).tiles == old(self).tiles,
            final(self).fractured == old(self).fractured,
            final(self).lights@ == tick_spec(old(self).lights@),
    {
        self.lights.tick();
    }
}

/// The map can grow within the 5x5 square centred on the origin, and only there.
pub proof fn law_limits_are_five_by_five(q: (int, int))
    ensures
        in_limits_spec(q) <==> (-2 <= q.0 <= 2 && -2 <= q.1 <= 2),
{
}

/// Lighting up gives every tile within `radius` on both axes of `center` a
/// light of `duration` turns, and leaves every other light as it was.
pub proof fn law_light_up(lights: Map<(int, int), int>, tiles: Set<(int, int)>, center: (int, int), radius: int,
    duration: int, q: (int, int))
    ensures
        ({
            let lit = light_up_spec(lights, tiles, center, radius, duration);
            let near = tiles.contains(q) && -radius <= q.0 - center.0 <= radius && -radius <= q.1 - center.1 <= radius;
            &&& near ==> lit.contains_key(q) && lit[q] == duration
            &&& !near ==> (lit.contains_key(q) == lights.contains_key(q) && (lights.contains_key(q) ==> lit[q] == lights[q]))
        }),
{
}

} // verus!

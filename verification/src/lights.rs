use vstd::prelude::*;
use crate::geom::Pos;

verus! {

/// Lit positions and the number of turns each light lasts.
pub struct Lights {
    entries: Vec<(Pos, usize)>,
}

impl View for Lights {
    type V = Map<(int, int), int>;

    closed spec fn view(&self) -> Map<(int, int), int> {
        Map::new(|q: (int, int)| self.has(q), |q: (int, int)| self.value_of(q))
    }
}

impl Lights {
    closed spec fn has(&self, q: (int, int)) -> bool {
        exists|i: int| 0 <= i < self.entries.len() && #[trigger] self.entries[i].0@ == q
    }

    closed spec fn index_of(&self, q: (int, int)) -> int {
        choose|i: int| 0 <= i < self.entries.len() && #[trigger] self.entries[i].0@ == q
    }

    closed spec fn value_of(&self, q: (int, int)) -> int {
        self.entries[self.index_of(q)].1 as int
    }

    /// No position occurs twice.
    pub closed spec fn wf(&self) -> bool {
        forall|i: int, j: int|
            0 <= i < self.entries.len() && 0 <= j < self.entries.len() && i != j
                ==> self.entries[i].0 != self.entries[j].0
    }

    proof fn lemma_entry(&self, i: int)
        requires
            self.wf(),
            0 <= i < self.entries.len(),
        ensures
            self@.contains_key(self.entries[i].0@),
            self@[self.entries[i].0@] == self.entries[i].1 as int,
    {
        let q = self.entries[i].0@;
        assert(self.has(q));
        let k = self.index_of(q);
        assert(self.entries[k].0@ == q);
        assert(self.entries[k].0 == self.entries[i].0);
    }

    pub fn new() -> (l: Lights)
        ensures
            l.wf(),
            l@ == Map::<(int, int), int>::empty(),
    {
        let l = Lights { entries: Vec::new() };
        assert(l@ =~= Map::<(int, int), int>::empty());
        l
    }

    pub fn contains(&self, p: Pos) -> (b: bool)
        ensures
            b == self@.contains_key(p@),
    {
        let n = self.entries.len();
        for i in 0..n
            invariant
                n == self.entries.len(),
                forall|j: int| 0 <= j < i ==> self.entries[j].0 != p,
        {
            if self.entries[i].0 == p {
                assert(self.has(p@));
                return true;
            }
        }
        assert(!self.has(p@)) by {
            if self.has(p@) {
                let j = choose|j: int| 0 <= j < self.entries.len() && #[trigger] self.entries[j].0@ == p@;
                assert(self.entries[j].0 == p);
            }
        }
        false
    }

    /// The lit positions, in the order they were first lit.
    pub fn positions(&self) -> (v: Vec<Pos>)
        requires
            self.wf(),
        ensures
            forall|q: (int, int)| self@.contains_key(q) <==> exists|i: int| 0 <= i < v.len() && #[trigger] v[i]@ == q,
            forall|i: int, j: int| 0 <= i < v.len() && 0 <= j < v.len() && i != j ==> v[i] != v[j],
    {
        let mut v: Vec<Pos> = Vec::new();
        let n = self.entries.len();
        for i in 0..n
            invariant
                n == self.entries.len(),
                self.wf(),
                v.len() == i,
                forall|j: int| 0 <= j < i ==> v[j] == #[trigger] self.entries[j].0,
        {
            v.push(self.entries[i].0);
        }
        assert forall|a: int, b: int| 0 <= a < v.len() && 0 <= b < v.len() && a != b implies v[a] != v[b] by {
            assert(v[a] == self.entries[a].0);
            assert(v[b] == self.entries[b].0);
        }
        assert forall|q: (int, int)| self@.contains_key(q) <==> exists|i: int| 0 <= i < v.len() && #[trigger] v[i]@ == q by {
            if self@.contains_key(q) {
                let k = choose|i: int| 0 <= i < self.entries.len() && #[trigger] self.entries[i].0@ == q;
                assert(v[k]@ == q);
            }
            if exists|i: int| 0 <= i < v.len() && #[trigger] v[i]@ == q {
                let k = choose|i: int| 0 <= i < v.len() && #[trigger] v[i]@ == q;
                assert(self.entries[k].0@ == q);
            }
        }
        v
    }

    /// Lights `p` for `duration` turns, replacing any earlier duration there.
    pub fn insert(&mut self, p: Pos, duration: usize)
        requires
            old(self).wf(),
        ensures
            final(self).wf(),
            final(self)@ == old(self)@.insert(p@, duration as int),
    {
        let ghost old_self = *self;
        let n = self.entries.len();
        for i in 0..n
            invariant
                n == self.entries.len(),
                *self == old_self,
                old_self == *old(self),
                old_self.wf(),
                forall|j: int| 0 <= j < i ==> self.entries[j].0 != p,
        {
            if self.entries[i].0 == p {
                self.entries.set(i, (p, duration));
                assert forall|a: int, b: int|
                    0 <= a < self.entries.len() && 0 <= b < self.entries.len() && a != b
                        implies self.entries[a].0 != self.entries[b].0 by {
                    assert(self.entries[a].0 == old_self.entries[a].0);
                    assert(self.entries[b].0 == old_self.entries[b].0);
                }
                assert forall|q: (int, int)| self.has(q) <==> old_self.has(q) by {
                    if self.has(q) {
                        let k = choose|k: int| 0 <= k < self.entries.len() && #[trigger] self.entries[k].0@ == q;
                        assert(old_self.entries[k].0@ == q);
                    }
                    if old_self.has(q) {
                        let k = choose|k: int| 0 <= k < old_self.entries.len() && #[trigger] old_self.entries[k].0@ == q;
                        assert(self.entries[k].0@ == q);
                    }
                }
                assert forall|q: (int, int)| #[trigger] self.has(q) implies self.value_of(q)
                    == (if q == p@ { duration as int } else { old_self.value_of(q) }) by {
                    let k = choose|k: int| 0 <= k < self.entries.len() && #[trigger] self.entries[k].0@ == q;
                    self.lemma_entry(k);
                    old_self.lemma_entry(k);
                }
                assert(old_self.has(p@)) by {
                    assert(old_self.entries[i as int].0@ == p@);
                }
                assert(self@ =~= old_self@.insert(p@, duration as int));
                return;
            }
        }
        self.entries.push((p, duration));
        assert(!old_self.has(p@)) by {
            if old_self.has(p@) {
                let k = choose|k: int| 0 <= k < old_self.entries.len() && #[trigger] old_self.entries[k].0@ == p@;
                assert(old_self.entries[k].0 == p);
            }
        }
        assert forall|a: int, b: int|
            0 <= a < self.entries.len() && 0 <= b < self.entries.len() && a != b
                implies self.entries[a].0 != self.entries[b].0 by {
            if a < n && b < n {
                assert(self.entries[a].0 == old_self.entries[a].0);
                assert(self.entries[b].0 == old_self.entries[b].0);
            }
        }
        assert forall|q: (int, int)| self.has(q) <==> (old_self.has(q) || q == p@) by {
            if self.has(q) {
                let k = choose|k: int| 0 <= k < self.entries.len() && #[trigger] self.entries[k].0@ == q;
                if k < n {
                    assert(old_self.entries[k].0@ == q);
                }
            }
            if old_self.has(q) {
                let k = choose|k: int| 0 <= k < old_self.entries.len() && #[trigger] old_self.entries[k].0@ == q;
                assert(self.entries[k].0@ == q);
            }
            if q == p@ {
                assert(self.entries[n as int].0@ == q);
            }
        }
        assert forall|q: (int, int)| #[trigger] self.has(q) implies self.value_of(q)
            == (if q == p@ { duration as int } else { old_self.value_of(q) }) by {
            let k = choose|k: int| 0 <= k < self.entries.len() && #[trigger] self.entries[k].0@ == q;
            self.lemma_entry(k);
            if k < n {
                old_self.lemma_entry(k);
            }
        }
        assert(self@ =~= old_self@.insert(p@, duration as int));
    }

    /// Shortens every light by one turn and drops those that run out.
    pub fn tick(&mut self)
        requires
            old(self).wf(),
        ensures
            final(self).wf(),
            final(self)@ == tick_spec(old(self)@),
    {
        let ghost old_self = *self;
        let mut out: Vec<(Pos, usize)> = Vec::new();
        let ghost mut src: Seq<int> = Seq::empty();
        let ghost mut dst: Seq<int> = Seq::empty();
        let n = self.entries.len();
        for i in 0..n
            invariant
                n == self.entries.len(),
                *self == old_self,
                old_self.wf(),
                src.len() == out.len(),
                dst.len() == i,
                forall|j: int| #![trigger out[j]] #![trigger src[j]] 0 <= j < out.len() ==> 0 <= src[j] < i
                    && old_self.entries[src[j]].0 == out[j].0 && out[j].1 == old_self.entries[src[j]].1 - 1,
                forall|k: int| #![trigger old_self.entries[k]] #![trigger dst[k]] 0 <= k < i && old_self.entries[k].1 > 1
                    ==> 0 <= dst[k] < out.len() && out[dst[k]].0 == old_self.entries[k].0,
                forall|a: int, b: int| 0 <= a < out.len() && 0 <= b < out.len() && a != b ==> out[a].0 != out[b].0,
                forall|j: int| 0 <= j < out.len() ==> #[trigger] out[j].1 > 0,
        {
            let (p, d) = self.entries[i];
            if d > 1 {
                let d2 = d - 1;
                let ghost before = out@;
                out.push((p, d2));
                proof {
                    src = src.push(i as int);
                    dst = dst.push((out.len() - 1) as int);
                }
                assert forall|a: int, b: int| 0 <= a < out.len() && 0 <= b < out.len() && a != b implies out[a].0 != out[b].0 by {
                    if a == out.len() - 1 && b < before.len() {
                        assert(out[b] == before[b]);
                        assert(src[b] != i);
                    }
                    if b == out.len() - 1 && a < before.len() {
                        assert(out[a] == before[a]);
                        assert(src[a] != i);
                    }
                }
                assert forall|j: int| #![trigger out[j]] #![trigger src[j]] 0 <= j < out.len() implies 0 <= src[j] < i + 1
                    && old_self.entries[src[j]].0 == out[j].0 && out[j].1 == old_self.entries[src[j]].1 - 1 by {
                    if j < before.len() {
                        assert(out[j] == before[j]);
                    }
                }
            } else {
                proof {
                    dst = dst.push(0);
                }
            }
        }
        self.entries = out;
        assert forall|q: (int, int)| #[trigger] self.has(q) <==> (old_self.has(q) && old_self.value_of(q) > 1) by {
            if self.has(q) {
                let j = choose|j: int| 0 <= j < self.entries.len() && #[trigger] self.entries[j].0@ == q;
                let k = src[j];
                assert(self.entries[j] == out[j]);
                old_self.lemma_entry(k);
            }
            if old_self.has(q) && old_self.value_of(q) > 1 {
                let k = choose|k: int| 0 <= k < old_self.entries.len() && #[trigger] old_self.entries[k].0@ == q;
                old_self.lemma_entry(k);
                let j = dst[k];
                assert(self.entries[j].0@ == q);
            }
        }
        assert forall|q: (int, int)| #[trigger] self.has(q) implies self.value_of(q) == old_self.value_of(q) - 1 by {
            let j = choose|j: int| 0 <= j < self.entries.len() && #[trigger] self.entries[j].0@ == q;
            self.lemma_entry(j);
            let k = src[j];
            assert(self.entries[j] == out[j]);
            old_self.lemma_entry(k);
        }
        assert(self@ =~= tick_spec(old_self@));
    }
}

/// Every light one turn shorter; lights that reach zero go out.
pub open spec fn tick_spec(m: Map<(int, int), int>) -> Map<(int, int), int> {
    Map::new(|q: (int, int)| m.contains_key(q) && m[q] > 1, |q: (int, int)| m[q] - 1)
}

/// A tick shortens every light by one turn: a light with more than one turn
/// left stays one turn shorter, a light with one turn left or less goes out,
/// and no light appears.
pub proof fn law_tick(m: Map<(int, int), int>, q: (int, int))
    ensures
        m.contains_key(q) && m[q] > 1 ==> tick_spec(m).contains_key(q) && tick_spec(m)[q] == m[q] - 1,
        m.contains_key(q) && m[q] <= 1 ==> !tick_spec(m).contains_key(q),
        !m.contains_key(q) ==> !tick_spec(m).contains_key(q),
{
}

} // verus!

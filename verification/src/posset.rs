use vstd::prelude::*;
use crate::geom::Pos;

verus! {

/// A finite set of grid positions, kept in insertion order without repeats.
pub struct PosSet {
    v: Vec<Pos>,
}

impl View for PosSet {
    type V = Set<(int, int)>;

    closed spec fn view(&self) -> Set<(int, int)> {
        Set::new(|q: (int, int)| self.has(q))
    }
}

impl PosSet {
    pub closed spec fn has(&self, q: (int, int)) -> bool {
        exists|i: int| 0 <= i < self.v.len() && #[trigger] self.v[i]@ == q
    }

    /// The elements in their order of insertion.
    pub closed spec fn elems(&self) -> Seq<Pos> {
        self.v@
    }

    /// No position occurs twice.
    pub closed spec fn wf(&self) -> bool {
        forall|i: int, j: int|
            0 <= i < self.v.len() && 0 <= j < self.v.len() && i != j ==> self.v[i] != self.v[j]
    }

    pub proof fn lemma_view(&self)
        ensures
            forall|q: (int, int)| #[trigger] self@.contains(q) <==> self.has(q),
            forall|i: int| 0 <= i < self.elems().len() ==> self@.contains(#[trigger] self.elems()[i]@),
            forall|q: (int, int)| self@.contains(q) ==> exists|i: int| 0 <= i < self.elems().len() && #[trigger] self.elems()[i]@ == q,
            self.elems().len() == 0 <==> self@ =~= Set::<(int, int)>::empty(),
    {
        assert forall|i: int| 0 <= i < self.elems().len() implies self@.contains(#[trigger] self.elems()[i]@) by {
            assert(self.v[i]@ == self.elems()[i]@);
        }
        if self.elems().len() != 0 {
            assert(self@.contains(self.v[0]@));
        }
    }

    pub fn new() -> (s: PosSet)
        ensures
            s.wf(),
            s@ == Set::<(int, int)>::empty(),
            s.elems().len() == 0,
    {
        let s = PosSet { v: Vec::new() };
        assert(s@ =~= Set::<(int, int)>::empty());
        s
    }

    pub fn len(&self) -> (n: usize)
        ensures
            n == self.elems().len(),
    {
        self.v.len()
    }

    pub fn is_empty(&self) -> (b: bool)
        ensures
            b <==> self@ == Set::<(int, int)>::empty(),
    {
        proof {
            self.lemma_view();
        }
        self.v.len() == 0
    }

    /// The `i`-th element in insertion order.
    pub fn get(&self, i: usize) -> (p: Pos)
        requires
            i < self.elems().len(),
        ensures
            p == self.elems()[i as int],
    {
        self.v[i]
    }

    pub fn as_slice(&self) -> (s: &[Pos])
        ensures
            s@ == self.elems(),
    {
        self.v.as_slice()
    }

    pub fn contains(&self, p: Pos) -> (b: bool)
        ensures
            b == self@.contains(p@),
    {
        let n = self.v.len();
        for i in 0..n
            invariant
                n == self.v.len(),
                forall|j: int| 0 <= j < i ==> self.v[j] != p,
        {
            if self.v[i] == p {
                assert(self.has(p@));
                return true;
            }
        }
        assert(!self.has(p@)) by {
            if self.has(p@) {
                let j = choose|j: int| 0 <= j < self.v.len() && #[trigger] self.v[j]@ == p@;
                assert(self.v[j] == p);
            }
        }
        false
    }

    /// Adds `p`; returns whether it was new.
    pub fn insert(&mut self, p: Pos) -> (added: bool)
        requires
            old(self).wf(),
        ensures
            final(self).wf(),
            final(self)@ == old(self)@.insert(p@),
            added == !old(self)@.contains(p@),
            added ==> final(self).elems() == old(self).elems().push(p),
            !added ==> final(self).elems() == old(self).elems(),
    {
        if self.contains(p) {
            assert(self@.insert(p@) =~= self@);
            false
        } else {
            let ghost old_self = *self;
            self.v.push(p);
            assert forall|q: (int, int)| self.has(q) <==> (old_self.has(q) || q == p@) by {
                if self.has(q) {
                    let j = choose|j: int| 0 <= j < self.v.len() && #[trigger] self.v[j]@ == q;
                    if j < old_self.v.len() {
                        assert(old_self.v[j]@ == q);
                    }
                }
                if old_self.has(q) {
                    let j = choose|j: int| 0 <= j < old_self.v.len() && #[trigger] old_self.v[j]@ == q;
                    assert(self.v[j]@ == q);
                }
                if q == p@ {
                    assert(self.v[self.v.len() - 1]@ == q);
                }
            }
            assert(self@ =~= old_self@.insert(p@));
            assert forall|i: int, j: int|
                0 <= i < self.v.len() && 0 <= j < self.v.len() && i != j implies self.v[i] != self.v[j] by {
                if i == self.v.len() - 1 && j < old_self.v.len() {
                    assert(old_self.v[j]@ == self.v[j]@);
                    assert(old_self.has(self.v[j]@));
                }
                if j == self.v.len() - 1 && i < old_self.v.len() {
                    assert(old_self.v[i]@ == self.v[i]@);
                    assert(old_self.has(self.v[i]@));
                }
            }
            true
        }
    }

    /// Removes `p`; returns whether it was present.
    pub fn remove(&mut self, p: Pos) -> (removed: bool)
        requires
            old(self).wf(),
        ensures
            final(self).wf(),
            final(self)@ == old(self)@.remove(p@),
            removed == old(self)@.contains(p@),
    {
        let ghost old_self = *self;
        let n = self.v.len();
        let mut i: usize = 0;
        while i < n
            invariant
                n == self.v.len(),
                *self == old_self,
                old_self == *old(self),
                old_self.wf(),
                i <= n,
                forall|j: int| 0 <= j < i ==> self.v[j] != p,
            decreases n - i,
        {
            if self.v[i] == p {
                self.v.remove(i);
                assert forall|q: (int, int)| self.has(q) <==> (old_self.has(q) && q != p@) by {
                    if self.has(q) {
                        let j = choose|j: int| 0 <= j < self.v.len() && #[trigger] self.v[j]@ == q;
                        if j < i {
                            assert(old_self.v[j]@ == q);
                            assert(old_self.v[j] != old_self.v[i as int]);
                        } else {
                            assert(old_self.v[j + 1]@ == q);
                            assert(old_self.v[j + 1] != old_self.v[i as int]);
                        }
                    }
                    if old_self.has(q) && q != p@ {
                        let j = choose|j: int| 0 <= j < old_self.v.len() && #[trigger] old_self.v[j]@ == q;
                        if j < i {
                            assert(self.v[j]@ == q);
                        } else {
                            assert(j != i);
                            assert(self.v[j - 1]@ == q);
                        }
                    }
                }
                assert(self@ =~= old_self@.remove(p@));
                assert(old_self.has(p@)) by {
                    assert(old_self.v[i as int]@ == p@);
                }
                assert forall|a: int, b: int|
                    0 <= a < self.v.len() && 0 <= b < self.v.len() && a != b implies self.v[a] != self.v[b] by {
                    let a2 = if a < i { a } else { a + 1 };
                    let b2 = if b < i { b } else { b + 1 };
                    assert(self.v[a] == old_self.v[a2]);
                    assert(self.v[b] == old_self.v[b2]);
                }
                return true;
            }
            i += 1;
        }
        assert(!old_self.has(p@)) by {
            if old_self.has(p@) {
                let j = choose|j: int| 0 <= j < old_self.v.len() && #[trigger] old_self.v[j]@ == p@;
                assert(old_self.v[j] == p);
            }
        }
        assert(self@ =~= old_self@.remove(p@));
        false
    }

    /// Removes every position.
    pub fn clear(&mut self)
        ensures
            final(self).wf(),
            final(self)@ == Set::<(int, int)>::empty(),
            final(self).elems().len() == 0,
    {
        self.v.clear();
        assert(self@ =~= Set::<(int, int)>::empty());
    }

    /// A copy of the set.
    pub fn copy(&self) -> (s: PosSet)
        requires
            self.wf(),
        ensures
            s.wf(),
            s@ == self@,
            s.elems() == self.elems(),
    {
        let mut v: Vec<Pos> = Vec::new();
        let n = self.v.len();
        for i in 0..n
            invariant
                n == self.v.len(),
                v@ == self.v@.take(i as int),
        {
            v.push(self.v[i]);
            assert(v@ =~= self.v@.take(i + 1));
        }
        assert(v@ =~= self.v@);
        let s = PosSet { v };
        assert(s.v@ == self.v@);
        assert forall|q: (int, int)| s.has(q) <==> self.has(q) by {
            if s.has(q) {
                let j = choose|j: int| 0 <= j < s.v.len() && #[trigger] s.v[j]@ == q;
                assert(self.v[j]@ == q);
            }
            if self.has(q) {
                let j = choose|j: int| 0 <= j < self.v.len() && #[trigger] self.v[j]@ == q;
                assert(s.v[j]@ == q);
            }
        }
        assert(s@ =~= self@);
        s
    }

    /// The positions of `self` that are not in `other`, in the order of `self`.
    pub fn difference(&self, other: &PosSet) -> (s: PosSet)
        requires
            self.wf(),
        ensures
            s.wf(),
            s@ == self@.difference(other@),
    {
        let mut out = PosSet::new();
        let n = self.v.len();
        for i in 0..n
            invariant
                n == self.v.len(),
                self.wf(),
                out.wf(),
                forall|q: (int, int)| #[trigger] out@.contains(q) <==>
                    (exists|j: int| 0 <= j < i && #[trigger] self.v[j]@ == q) && !other@.contains(q),
        {
            let p = self.v[i];
            let ghost before = out@;
            if !other.contains(p) {
                out.insert(p);
            }
            assert forall|q: (int, int)| #[trigger] out@.contains(q) <==>
                (exists|j: int| 0 <= j < i + 1 && #[trigger] self.v[j]@ == q) && !other@.contains(q) by {
                if out@.contains(q) && q != p@ {
                    assert(before.contains(q));
                }
                if q == p@ && !other@.contains(q) {
                    assert(self.v[i as int]@ == q);
                }
                if (exists|j: int| 0 <= j < i + 1 && #[trigger] self.v[j]@ == q) && !other@.contains(q) && q != p@ {
                    let j = choose|j: int| 0 <= j < i + 1 && #[trigger] self.v[j]@ == q;
                    assert(j < i);
                    assert(before.contains(q));
                }
            }
        }
        assert forall|q: (int, int)| out@.contains(q) <==> self@.difference(other@).contains(q) by {
            self.lemma_view();
        }
        assert(out@ =~= self@.difference(other@));
        out
    }
}

} // verus!

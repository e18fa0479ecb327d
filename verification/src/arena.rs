use vstd::prelude::*;

verus! {

/// Values kept under the ids they were given when inserted. An id is never
/// handed out twice, and ids grow in the order of insertion.
pub struct Arena<T> {
    slots: Vec<Option<T>>,
}

impl<T> View for Arena<T> {
    type V = Seq<Option<T>>;

    closed spec fn view(&self) -> Seq<Option<T>> {
        self.slots@
    }
}

/// The value under `id`, if any.
pub open spec fn arena_get<T>(s: Seq<Option<T>>, id: int) -> Option<T> {
    if 0 <= id < s.len() { s[id] } else { None }
}

pub open spec fn arena_has<T>(s: Seq<Option<T>>, id: int) -> bool {
    arena_get(s, id) is Some
}

impl<T: Copy> Arena<T> {
    pub fn new() -> (a: Arena<T>)
        ensures
            a@ == Seq::<Option<T>>::empty(),
    {
        Arena { slots: Vec::new() }
    }

    /// The number of ids handed out so far.
    pub fn id_bound(&self) -> (n: usize)
        ensures
            n == self@.len(),
    {
        self.slots.len()
    }

    /// Stores `value` under a fresh id.
    pub fn insert(&mut self, value: T) -> (id: usize)
        ensures
            id == old(self)@.len(),
            final(self)@ == old(self)@.push(Some(value)),
    {
        self.slots.push(Some(value));
        self.slots.len() - 1
    }

    pub fn contains(&self, id: usize) -> (b: bool)
        ensures
            b == arena_has(self@, id as int),
    {
        id < self.slots.len() && self.slots[id].is_some()
    }

    pub fn get(&self, id: usize) -> (r: Option<T>)
        ensures
            r == arena_get(self@, id as int),
    {
        if id < self.slots.len() {
            self.slots[id]
        } else {
            None
        }
    }

    /// Replaces the value under an existing id.
    pub fn set(&mut self, id: usize, value: T)
        requires
            arena_has(old(self)@, id as int),
        ensures
            final(self)@ == old(self)@.update(id as int, Some(value)),
    {
        self.slots.set(id, Some(value));
    }

    /// Takes out the value under `id`, if any.
    pub fn remove(&mut self, id: usize) -> (r: Option<T>)
        ensures
            r == arena_get(old(self)@, id as int),
            final(self)@ == if arena_has(old(self)@, id as int) {
                old(self)@.update(id as int, None)
            } else {
                old(self)@
            },
            !arena_has(old(self)@, id as int) ==> *final(self) == *old(self),
    {
        if id < self.slots.len() {
            let r = self.slots[id];
            if r.is_some() {
                self.slots.set(id, None);
            }
            r
        } else {
            None
        }
    }

    /// Whether no value is stored.
    pub fn is_empty(&self) -> (b: bool)
        ensures
            b <==> forall|i: int| 0 <= i < self@.len() ==> self@[i] is None,
    {
        let n = self.slots.len();
        for i in 0..n
            invariant
                n == self.slots.len(),
                forall|j: int| 0 <= j < i ==> self@[j] is None,
        {
            if self.slots[i].is_some() {
                return false;
            }
        }
        true
    }

    /// The number of values stored.
    pub fn count(&self) -> (c: usize)
        ensures
            c == count_some(self@, self@.len() as int),
    {
        let n = self.slots.len();
        let mut c: usize = 0;
        for i in 0..n
            invariant
                n == self.slots.len(),
                c == count_some(self@, i as int),
                c <= i,
        {
            if self.slots[i].is_some() {
                c += 1;
            }
        }
        c
    }
}

/// How many of the first `n` slots hold a value.
pub open spec fn count_some<T>(s: Seq<Option<T>>, n: int) -> nat
    decreases n,
{
    if n <= 0 {
        0
    } else {
        count_some(s, n - 1) + if s[n - 1] is Some { 1nat } else { 0nat }
    }
}

/// `k` is the lowest id whose value satisfies `p`.
pub open spec fn first_where<T>(s: Seq<Option<T>>, p: spec_fn(T) -> bool, k: int) -> bool {
    &&& arena_has(s, k)
    &&& p(arena_get(s, k).unwrap())
    &&& forall|j: int| 0 <= j < k && #[trigger] arena_has(s, j) ==> !p(arena_get(s, j).unwrap())
}

/// The lowest id whose value satisfies `p`, if any.
pub open spec fn first_of<T>(s: Seq<Option<T>>, p: spec_fn(T) -> bool) -> Option<int> {
    if exists|k: int| first_where(s, p, k) {
        Some(choose|k: int| first_where(s, p, k))
    } else {
        None
    }
}

/// There is one lowest id.
pub proof fn lemma_first_of<T>(s: Seq<Option<T>>, p: spec_fn(T) -> bool, k: int)
    requires
        first_where(s, p, k),
    ensures
        first_of(s, p) == Some(k),
{
    let c = choose|c: int| first_where(s, p, c);
    assert(first_where(s, p, c));
    if c < k {
        assert(arena_has(s, c));
    } else if k < c {
        assert(arena_has(s, k));
    }
}

/// Without a value satisfying `p` there is no lowest id.
pub proof fn lemma_first_none<T>(s: Seq<Option<T>>, p: spec_fn(T) -> bool)
    requires
        forall|j: int| #[trigger] arena_has(s, j) ==> !p(arena_get(s, j).unwrap()),
    ensures
        first_of(s, p) is None,
{
}

/// What an insert stores, a read under the handed-out id gives back, and
/// every other id keeps its value.
pub proof fn law_insert_then_get<T>(s: Seq<Option<T>>, v: T, id: int)
    ensures
        arena_get(s.push(Some(v)), s.len() as int) == Some(v),
        id != s.len() ==> arena_get(s.push(Some(v)), id) == arena_get(s, id),
{
}

/// After a removal the id holds nothing, and the other ids keep their values.
pub proof fn law_remove_then_absent<T>(s: Seq<Option<T>>, id: int, other: int)
    requires
        arena_has(s, id),
        other != id,
    ensures
        !arena_has(s.update(id, None), id),
        arena_get(s.update(id, None), other) == arena_get(s, other),
{
}

} // verus!

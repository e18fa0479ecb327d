use vstd::prelude::*;
use crate::geom::Pos;
use crate::item::Hp;

verus! {

/// Health between zero and a maximum.
#[derive(Clone, Copy, PartialEq, Eq, Structural, Debug)]
pub struct Health {
    value: Hp,
    max: Hp,
}

impl Health {
    pub closed spec fn value_spec(&self) -> int {
        self.value as int
    }

    pub closed spec fn max_spec(&self) -> int {
        self.max as int
    }

    pub closed spec fn wf(&self) -> bool {
        0 <= self.value <= self.max
    }

    /// Full health out of `max`.
    pub fn new_max(max: Hp) -> (h: Health)
        requires
            max >= 0,
        ensures
            h.wf(),
            h.value_spec() == max,
            h.max_spec() == max,
    {
        Health { value: max, max }
    }

    pub fn value(&self) -> (v: Hp)
        ensures
            v == self.value_spec(),
    {
        self.value
    }

    pub fn max(&self) -> (v: Hp)
        ensures
            v == self.max_spec(),
    {
        self.max
    }

    /// Whether the health ran out.
    pub fn is_min(&self) -> (b: bool)
        ensures
            b == (self.value_spec() == 0),
    {
        self.value == 0
    }

    /// Adds `delta`, keeping the value between zero and the maximum.
    pub fn change(&mut self, delta: i128)
        requires
            old(self).wf(),
            -0x1_0000_0000_0000_0000 <= delta <= 0x1_0000_0000_0000_0000,
        ensures
            final(self).wf(),
            final(self).max_spec() == old(self).max_spec(),
            final(self).value_spec() == clamp_spec(old(self).value_spec() + delta, old(self).max_spec()),
    {
        let v = self.value as i128 + delta;
        if v < 0 {
            self.value = 0;
        } else if v > self.max as i128 {
            self.value = self.max;
        } else {
            self.value = v as i64;
        }
    }
}

/// `v` kept between zero and `max`.
pub open spec fn clamp_spec(v: int, max: int) -> int {
    if v < 0 { 0 } else if v > max { max } else { v }
}

/// The side an entity fights for.
#[derive(Clone, Copy, PartialEq, Eq, Structural, Debug)]
pub enum Fraction {
    Player,
    Enemy,
}

#[derive(Clone, Copy, PartialEq, Eq, Structural, Debug)]
pub enum EntityKind {
    Player,
    Dummy,
}

/// A creature on the board.
#[derive(Clone, Copy, PartialEq, Eq, Structural, Debug)]
pub struct Entity {
    pub position: Pos,
    pub fraction: Fraction,
    pub health: Health,
    pub look_dir: Pos,
    pub kind: EntityKind,
}

} // verus!

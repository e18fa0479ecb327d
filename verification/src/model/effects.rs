use vstd::prelude::*;
use std::collections::VecDeque;
use crate::arena::{arena_get, arena_has};
use crate::item::Id;
use crate::effect::{Effect, QueuedEffect, Trigger};
use crate::model::state::{ModelState, board_of};
use crate::model::resolve_effect::{EffectAction, effect_ready, effect_resolved, destroy_safe};
use crate::model::game::Model;

verus! {

/// The effect queues, bottom first, each front first.
pub open spec fn queues(m: &Model) -> Seq<Seq<QueuedEffect>> {
    m.effect_queue_stack@.map_values(|q: VecDeque<QueuedEffect>| q@)
}

/// The stack without the empty queues on its top.
pub open spec fn cleared(st: Seq<Seq<QueuedEffect>>) -> Seq<Seq<QueuedEffect>>
    decreases st.len(),
{
    if st.len() == 0 {
        st
    } else if st.last().len() == 0 {
        cleared(st.drop_last())
    } else {
        st
    }
}

/// The effect to resolve next: the front of the topmost queue that is not empty.
pub open spec fn next_effect(m: &Model) -> Option<QueuedEffect> {
    let c = cleared(queues(m));
    if c.len() == 0 { None } else { Some(c.last()[0]) }
}

/// Each effect, as produced by board item `id` responding to `trigger`.
pub open spec fn queued_effects(trigger: Trigger, id: Id, effects: Seq<Effect>) -> Seq<QueuedEffect> {
    Seq::new(effects.len(), |j: int| QueuedEffect { trigger, proc_item: id, effect: effects[j] })
}

/// The effects an item produced, with the item marked used after an
/// activation that did something and destroyed nothing.
pub open spec fn with_used_mark(trigger: Trigger, id: Id, effects: Seq<Effect>) -> Seq<Effect> {
    if effects.len() > 0 && trigger == Trigger::Active
        && !(exists|j: int| 0 <= j < effects.len() && #[trigger] effects[j] matches Effect::Destroy { .. }) {
        effects.push(Effect::SetUsed { item_id: id })
    } else {
        effects
    }
}

proof fn lemma_cleared_top(st: Seq<Seq<QueuedEffect>>)
    ensures
        cleared(st).len() <= st.len(),
        cleared(st) == st.subrange(0, cleared(st).len() as int),
        cleared(st).len() > 0 ==> cleared(st).last().len() > 0,
    decreases st.len(),
{
    if st.len() > 0 && st.last().len() == 0 {
        lemma_cleared_top(st.drop_last());
    } else {
        assert(st == st.subrange(0, st.len() as int));
    }
}

/// The effects `effects` marked used where due, as `with_used_mark` says.
pub fn finish_item_trigger(trigger: Trigger, id: Id, effects: Vec<Effect>) -> (r: Vec<Effect>)
    ensures
        r@ == with_used_mark(trigger, id, effects@),
{
    let mut out = effects;
    if out.len() == 0 || trigger != Trigger::Active {
        return out;
    }
    let n = out.len();
    for j in 0..n
        invariant
            n == out@.len(),
            out@ == effects@,
            forall|k: int| 0 <= k < j ==> !(#[trigger] out@[k] matches Effect::Destroy { .. }),
    {
        if let Effect::Destroy { .. } = out[j] {
            assert(out@[j as int] matches Effect::Destroy { .. });
            assert(with_used_mark(trigger, id, effects@) == effects@);
            return out;
        }
    }
    out.push(Effect::SetUsed { item_id: id });
    out
}

impl ModelState {
    /// Whether board item `id` can respond to `trigger`: it is on the board,
    /// and an activation needs it unused.
    pub fn item_can_trigger(&self, id: Id, trigger: Trigger) -> (b: bool)
        ensures
            b == (arena_has(self.items@, id as int) && !(trigger == Trigger::Active && board_of(self, id as int).used)),
    {
        match self.items.get(id) {
            Some(item) => !(trigger == Trigger::Active && item.used),
            None => false,
        }
    }
}

impl Model {
    /// Queues the effects that board item `id` produced in response to
    /// `trigger`, on top of the stack.
    pub fn push_item_effects(&mut self, trigger: Trigger, id: Id, effects: Vec<Effect>)
        ensures
            *final(self) == (Model { effect_queue_stack: final(self).effect_queue_stack, ..*old(self) }),
            queues(final(self)) == queues(old(self)).push(queued_effects(trigger, id, effects@)),
    {
        let ghost e0 = effects@;
        let ghost st0 = queues(self);
        let mut effects = effects;
        let mut queue: VecDeque<QueuedEffect> = VecDeque::new();
        while effects.len() > 0
            invariant
                effects@.len() <= e0.len(),
                effects@ == e0.subrange(0, effects@.len() as int),
                queue@ == queued_effects(trigger, id, e0).subrange(effects@.len() as int, e0.len() as int),
            decreases effects@.len(),
        {
            let e = effects.pop().unwrap();
            queue.push_front(QueuedEffect { trigger, proc_item: id, effect: e });
            assert(queue@ =~= queued_effects(trigger, id, e0).subrange(effects@.len() as int, e0.len() as int));
        }
        assert(queue@ =~= queued_effects(trigger, id, e0));
        self.effect_queue_stack.push(queue);
        assert(queues(self) =~= st0.push(queued_effects(trigger, id, e0)));
    }

    /// Whether the next effect can be resolved: when the item that produced
    /// it is on the board, its stats can be combined and gained moves fit.
    pub fn next_effect_ready(&self) -> (b: bool)
        requires
            self.wf(),
        ensures
            b == (next_effect(self) matches Some(e) ==> effect_ready(self, &e)),
    {
        let ghost st = queues(self);
        let n = self.effect_queue_stack.len();
        let mut k = n;
        let mut found = false;
        assert(st.subrange(0, n as int) =~= st);
        while !found && k > 0
            invariant
                st == queues(self),
                k <= n,
                n == st.len(),
                cleared(st) == cleared(st.subrange(0, k as int)),
                found ==> k > 0 && st[k - 1].len() > 0,
            decreases k + if found { 0int } else { 1int },
        {
            if self.effect_queue_stack[k - 1].len() > 0 {
                found = true;
            } else {
                assert(st.subrange(0, k as int).drop_last() =~= st.subrange(0, k - 1));
                k = k - 1;
            }
        }
        if k == 0 {
            assert(st.subrange(0, 0).len() == 0);
            return true;
        }
        assert(cleared(st.subrange(0, k as int)) == st.subrange(0, k as int));
        let e = &self.effect_queue_stack[k - 1][0];
        assert(next_effect(self) == Some(*e));
        match self.state.items.get(e.proc_item) {
            Some(b) => {
                assert(arena_has(self.state.items@, e.proc_item as int));
                let inv = self.state.player.items.get(b.item_id).unwrap();
                if !inv.stats_fit() {
                    return false;
                }
                match &e.effect {
                    Effect::GainMoves { moves } => self.state.player.moves_left as u128 + *moves as u128 <= usize::MAX as u128,
                    _ => true,
                }
            },
            None => true,
        }
    }

    /// Takes the next board item waiting to respond to a trigger, once no
    /// effect queue is left.
    pub fn next_resolution(&mut self) -> (r: Option<(Id, Trigger)>)
        ensures
            old(self).effect_queue_stack@.len() > 0 || old(self).resolution_queue@.len() == 0 ==> r is None && *final(self) == *old(self),
            old(self).effect_queue_stack@.len() == 0 && old(self).resolution_queue@.len() > 0 ==> {
                &&& r == Some(old(self).resolution_queue@[0])
                &&& *final(self) == (Model { resolution_queue: final(self).resolution_queue, ..*old(self) })
                &&& final(self).resolution_queue@ == old(self).resolution_queue@.drop_first()
            },
    {
        if self.effect_queue_stack.len() > 0 || self.resolution_queue.len() == 0 {
            return None;
        }
        self.resolution_queue.pop_front()
    }

    /// Drops the empty queues on top of the stack; then, when no animation
    /// runs, resolves the next effect. Returns what the caller is to carry
    /// out for it, as `resolve_effect` says.
    pub fn update_effects(&mut self, animations_empty: bool) -> (r: Option<Vec<EffectAction>>)
        requires
            old(self).wf(),
            animations_empty && next_effect(old(self)) is Some ==> effect_ready(old(self), &next_effect(old(self))->0),
        ensures
            !animations_empty || next_effect(old(self)) is None ==> {
                &&& r is None
                &&& *final(self) == (Model { effect_queue_stack: final(self).effect_queue_stack, ..*old(self) })
                &&& queues(final(self)) == cleared(queues(old(self)))
                &&& final(self).wf()
            },
            animations_empty && next_effect(old(self)) is Some ==> {
                let c = cleared(queues(old(self)));
                let e = next_effect(old(self))->0;
                exists|mid: Model| {
                    &&& mid == (Model { effect_queue_stack: mid.effect_queue_stack, ..*old(self) })
                    &&& queues(&mid) == c.update(c.len() - 1, c.last().drop_first())
                    &&& effect_resolved(&mid, &e, final(self), r)
                    &&& destroy_safe(&mid, &e) ==> final(self).wf()
                }
            },
    {
        let ghost m0 = *self;
        let ghost st0 = queues(self);
        proof {
            lemma_cleared_top(st0);
        }
        let mut done = false;
        while !done && self.effect_queue_stack.len() > 0
            invariant
                *self == (Model { effect_queue_stack: self.effect_queue_stack, ..m0 }),
                st0 == queues(&m0),
                cleared(st0) == cleared(queues(self)),
                queues(self).len() <= st0.len(),
                done ==> queues(self).len() > 0 && queues(self).last().len() > 0,
            decreases self.effect_queue_stack@.len() + if done { 0int } else { 1int },
        {
            let ghost before = queues(self);
            let top = self.effect_queue_stack.pop().unwrap();
            if top.len() > 0 {
                self.effect_queue_stack.push(top);
                assert(queues(self) =~= before);
                done = true;
            } else {
                assert(queues(self) =~= before.drop_last());
                assert(before.last() == top@);
            }
        }
        assert(queues(self) == cleared(st0));
        if !animations_empty || self.effect_queue_stack.len() == 0 {
            return None;
        }
        let mut top = self.effect_queue_stack.pop().unwrap();
        let effect = top.pop_front().unwrap();
        self.effect_queue_stack.push(top);
        let ghost mid = *self;
        assert(queues(&mid) =~= cleared(st0).update(cleared(st0).len() - 1, cleared(st0).last().drop_first()));
        self.resolve_effect(effect)
    }
}

/// The effects an item just queued are resolved first, starting with the
/// first of them.
pub proof fn law_pushed_effects_come_next(m0: &Model, m1: &Model, q: Seq<QueuedEffect>)
    requires
        queues(m1) == queues(m0).push(q),
        q.len() > 0,
    ensures
        next_effect(m1) == Some(q[0]),
{
    assert(cleared(queues(m1)) == queues(m1));
}

/// Only an activation marks an item used: any other trigger leaves the
/// effects as they are, and an activation that did something and destroyed
/// nothing adds exactly one mark, for the item itself, at the end.
pub proof fn law_only_activation_marks_used(trigger: Trigger, id: Id, effects: Seq<Effect>)
    ensures
        trigger != Trigger::Active ==> with_used_mark(trigger, id, effects) == effects,
        effects.len() == 0 ==> with_used_mark(trigger, id, effects) == effects,
        with_used_mark(trigger, id, effects).len() == effects.len()
            || with_used_mark(trigger, id, effects) == effects.push(Effect::SetUsed { item_id: id }),
        with_used_mark(trigger, id, effects).len() == effects.len() + 1 ==> {
            &&& trigger == Trigger::Active
            &&& effects.len() > 0
            &&& forall|j: int| 0 <= j < effects.len() ==> !(#[trigger] effects[j] matches Effect::Destroy { .. })
        },
{
}

} // verus!

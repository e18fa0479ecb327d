use vstd::prelude::*;
use crate::geom::Pos;
use crate::arena::{arena_get, arena_has, first_of};
use crate::item::Id;
use crate::effect::Trigger;
use crate::animation::AnimationKind;
use crate::player::Player;
use crate::model::state::{ModelState, inv_of, entity_of};
use crate::model::vision::vision_spec;
use crate::entity::Entity;
use crate::model::lookup::{entity_on, item_on, find_entity_at, find_item_at};
use crate::model::phases::{vision_started, queues_empty, queued_all, dawned, turn_counts_fit, board_refs, lemma_board_refs_bound, same_but_phase};
use crate::model::shift::{shift_post, same_things};
use crate::model::gen::{items_spawned, needs_place, next_level_post, level_score_fits};
use crate::model::turn::{enemy_left, in_shop, shop_open, select_started};
use crate::model::game::{Model, Phase};

verus! {

/// Nothing waits to be resolved and, as the caller reports, no animation runs.
pub open spec fn effects_idle(m: &Model, animations_done: bool) -> bool {
    &&& m.resolution_queue@.len() == 0
    &&& queues_empty(m)
    &&& animations_done
}

/// The turn counters can take a turn for every board item there may be after
/// the owned items are spawned.
pub open spec fn night_counts_fit(s: &ModelState) -> bool {
    forall|i: int| #[trigger] arena_has(s.player.items@, i)
        ==> inv_of(s, i).turns_on_board + s.items@.len() + s.player.items@.len() <= usize::MAX
}

/// After a finished level: everything unseen is shifted, then the next level begins.
pub open spec fn level_finished_ended(m0: &Model, m1: &Model) -> bool {
    exists|sa: ModelState| shift_post(&m0.state, &sa) && next_level_post(&Model { state: sa, ..*m0 }, m1)
}

/// After the vision has been shown: two refreshes, and the extra items are offered.
pub open spec fn vision_ended(m0: &Model, m1: &Model) -> bool {
    select_started(
        &Model { state: ModelState { player: Player { refreshes: 2, ..m0.state.player }, ..m0.state }, ..*m0 },
        m0.state.player.extra_items,
        m1,
    )
}

/// After the night: without enemies the level is won, once no effect waits;
/// otherwise everything unseen is shifted, the owned items are spawned, and
/// dawn comes.
pub open spec fn night_ended(m0: &Model, animations_done: bool, m1: &Model) -> bool {
    if !enemy_left(&m0.state) {
        *m1 == Model {
            phase: if effects_idle(m0, animations_done) { Phase::LevelFinished { win: true } } else { m0.phase },
            ..*m0
        }
    } else {
        exists|sa: ModelState, sb: ModelState|
            shift_post(&m0.state, &sa) && #[trigger] items_spawned(&sa, &sb) && dawned(&Model { state: sb, ..*m0 }, m1)
    }
}

/// The day begins: vision is reset and the bonuses are next.
pub open spec fn day_began(m0: &Model, m1: &Model) -> bool {
    &&& *m1 == Model {
        phase: Phase::DayBonus { started: false },
        state: ModelState { visible_tiles: m1.state.visible_tiles, ..m0.state },
        ..*m0
    }
    &&& m1.state.visible_tiles@ == Set::<(int, int)>::empty()
}

/// Every board item is queued to respond to `trigger`, and the phase becomes `phase`.
pub open spec fn all_queued(m0: &Model, trigger: Trigger, phase: Phase, m1: &Model) -> bool {
    &&& *m1 == Model { phase, resolution_queue: m1.resolution_queue, ..*m0 }
    &&& queued_all(&m0.state, m0.resolution_queue@, m1.resolution_queue@, trigger)
}

/// The day ends: the player moves, with three moves.
pub open spec fn day_ended(m0: &Model, m1: &Model) -> bool {
    *m1 == Model {
        phase: Phase::Player,
        state: ModelState { player: Player { moves_left: 3, ..m0.state.player }, ..m0.state },
        ..*m0
    }
}

/// The moves that end an activation: the entity moves to `target`, and the
/// first entity and the first board item at `target` move to where it stood.
pub open spec fn active_moves(s: &ModelState, entity_id: Id, target: Pos) -> Seq<AnimationKind> {
    let back = entity_of(s, entity_id as int).position;
    let first = seq![AnimationKind::MoveEntity { entity_id, target_pos: target }];
    let entity = match first_of(s.entities@, entity_on(target@)) {
        Some(k) => seq![AnimationKind::MoveEntity { entity_id: k as Id, target_pos: back }],
        None => Seq::<AnimationKind>::empty(),
    };
    let item = match first_of(s.items@, item_on(target@)) {
        Some(k) => seq![AnimationKind::MoveItem { item_id: k as Id, target_pos: back }],
        None => Seq::<AnimationKind>::empty(),
    };
    first + entity + item
}

/// The current phase may end: what each phase's ending needs holds.
pub open spec fn phase_ready(m: &Model, timer_done: bool, animations_done: bool, resolved_done: bool) -> bool {
    match m.phase {
        Phase::LevelStarting => timer_done ==> turn_counts_fit(&m.state),
        Phase::LevelFinished { .. } => timer_done ==> m.level < 243 && level_score_fits(m),
        Phase::PostVision => timer_done ==> {
            &&& m.state.player.extra_items > 0 ==> shop_open(&m.state)
            &&& m.state.player.extra_items == 0 ==> m.turn < usize::MAX
        },
        Phase::Night => timer_done && effects_idle(m, animations_done) && resolved_done && enemy_left(&m.state)
            ==> night_counts_fit(&m.state),
        Phase::Active { entity_id, .. } => effects_idle(m, animations_done) && resolved_done
            ==> arena_has(m.state.entities@, entity_id as int),
        _ => true,
    }
}

/// What the phase's ending does, given whether its timer ran out, whether the
/// animations are done and whether the resolved items have faded.
pub open spec fn phase_resolved(
    m0: &Model,
    timer_done: bool,
    animations_done: bool,
    resolved_done: bool,
    m1: &Model,
    anims: Seq<AnimationKind>,
) -> bool {
    let idle = effects_idle(m0, animations_done);
    &&& anims == match m0.phase {
        Phase::Active { entity_id, position } => if idle && resolved_done {
            active_moves(&m0.state, entity_id, position)
        } else {
            Seq::<AnimationKind>::empty()
        },
        _ => Seq::<AnimationKind>::empty(),
    }
    &&& match m0.phase {
        Phase::LevelStarting => if timer_done { dawned(m0, m1) } else { *m1 == *m0 },
        Phase::LevelFinished { .. } => if timer_done { level_finished_ended(m0, m1) } else { *m1 == *m0 },
        Phase::PostVision => if timer_done { vision_ended(m0, m1) } else { *m1 == *m0 },
        Phase::Night => if timer_done && idle && resolved_done {
            night_ended(m0, animations_done, m1)
        } else {
            *m1 == *m0
        },
        Phase::Dawn => if timer_done { day_began(m0, m1) } else { *m1 == *m0 },
        Phase::DayBonus { started } => if !started {
            if timer_done { all_queued(m0, Trigger::DayBonus, Phase::DayBonus { started: true }, m1) } else { *m1 == *m0 }
        } else {
            if idle { all_queued(m0, Trigger::DayAction, Phase::DayAction, m1) } else { *m1 == *m0 }
        },
        Phase::DayAction => if idle && timer_done { day_ended(m0, m1) } else { *m1 == *m0 },
        Phase::Active { .. } => if idle && resolved_done {
            *m1 == Model { phase: Phase::Player, ..*m0 }
        } else {
            *m1 == *m0
        },
        _ => *m1 == *m0,
    }
}

/// Board ids handed out to spawned items show distinct owned items in
/// increasing order.
proof fn lemma_ids_grow(s0: &ModelState, s1: &ModelState, t: int)
    requires
        items_spawned(s0, s1),
        0 <= t < s1.items@.len() - s0.items@.len(),
    ensures
        s1.items@[s0.items@.len() + t].unwrap().item_id >= t,
    decreases t,
{
    if t > 0 {
        lemma_ids_grow(s0, s1, t - 1);
        let m0 = s0.items@.len() as int;
        assert(s1.items@[m0 + t - 1].unwrap().position != s1.items@[m0 + t].unwrap().position
            && s1.items@[m0 + t - 1].unwrap().item_id < s1.items@[m0 + t].unwrap().item_id);
    }
}

/// Spawning adds at most one board item per owned item, and keeps the
/// owned items and their turn counters.
proof fn lemma_spawn_bounds(s0: &ModelState, s1: &ModelState)
    requires
        items_spawned(s0, s1),
    ensures
        s1.items@.len() <= s0.items@.len() + s0.player.items@.len(),
        forall|i: int| #[trigger] arena_has(s1.player.items@, i) ==> arena_has(s0.player.items@, i)
            && inv_of(s1, i).turns_on_board == inv_of(s0, i).turns_on_board,
{
    let m0 = s0.items@.len() as int;
    let m1 = s1.items@.len() as int;
    if m1 > m0 {
        lemma_ids_grow(s0, s1, m1 - m0 - 1);
        assert(s1.items@[m1 - 1] is Some);
        assert(needs_place(s0, s1.items@[m1 - 1].unwrap().item_id as int));
    }
    assert forall|i: int| #[trigger] arena_has(s1.player.items@, i) implies arena_has(s0.player.items@, i)
        && inv_of(s1, i).turns_on_board == inv_of(s0, i).turns_on_board by {
        if exists|j: int| m0 <= j < m1 && #[trigger] s1.items@[j].unwrap().item_id == i {
            let j = choose|j: int| m0 <= j < m1 && #[trigger] s1.items@[j].unwrap().item_id == i;
            assert(s1.items@[j] is Some);
            assert(needs_place(s0, i));
        } else {
            assert(s1.player.items@[i] == s0.player.items@[i]);
        }
    }
}

/// The entities with ids below `n` whose health ran out, with their
/// positions, in id order.
pub open spec fn dead_below(es: Seq<Option<Entity>>, n: int) -> Seq<(Id, Pos)>
    decreases n,
{
    if n <= 0 {
        Seq::empty()
    } else {
        let prev = dead_below(es, n - 1);
        match arena_get(es, n - 1) {
            Some(e) => if e.health.value_spec() == 0 { prev.push(((n - 1) as Id, e.position)) } else { prev },
            None => prev,
        }
    }
}

/// The ids in `ids` among the first `n` that are still in `running`, in order.
pub open spec fn still_running(ids: Seq<Id>, running: Seq<Id>, n: int) -> Seq<Id>
    decreases n,
{
    if n <= 0 {
        Seq::empty()
    } else {
        let prev = still_running(ids, running, n - 1);
        if running.contains(ids[n - 1]) { prev.push(ids[n - 1]) } else { prev }
    }
}

/// The end of a frame: unless the level is finished, the entities whose
/// health ran out are to die, and when none does, no animation runs and the
/// player has no move left, the player is to look around.
pub open spec fn frame_finished(m0: &Model, animations_done: bool, m1: &Model, deaths: Seq<(Id, Pos)>) -> bool {
    if m0.phase is LevelFinished {
        deaths.len() == 0 && *m1 == *m0
    } else {
        &&& deaths == dead_below(m0.state.entities@, m0.state.entities@.len() as int)
        &&& if deaths.len() == 0 && animations_done && m0.phase is Player && m0.state.player.moves_left == 0 {
            vision_started(m0, m1)
        } else {
            *m1 == *m0
        }
    }
}

/// Board items whose effects are being shown, with the animations that are
/// still to end.
pub struct ItemResolving {
    pub board_item: Id,
    pub animations: Vec<Id>,
}

impl ItemResolving {
    /// Keeps the animations that still run; returns whether none is left.
    pub fn drop_finished(&mut self, running: &Vec<Id>) -> (done: bool)
        ensures
            final(self).board_item == old(self).board_item,
            final(self).animations@ == still_running(old(self).animations@, running@, old(self).animations@.len() as int),
            done == (final(self).animations@.len() == 0),
    {
        let ghost ids = self.animations@;
        let mut kept: Vec<Id> = Vec::new();
        let n = self.animations.len();
        for i in 0..n
            invariant
                n == ids.len(),
                self.animations@ == ids,
                kept@ == still_running(ids, running@, i as int),
        {
            let id = self.animations[i];
            let mut found = false;
            let m = running.len();
            for j in 0..m
                invariant
                    m == running@.len(),
                    found == (exists|k: int| 0 <= k < j && running@[k] == id),
            {
                if running[j] == id {
                    found = true;
                }
            }
            if found {
                kept.push(id);
            }
        }
        self.animations = kept;
        self.animations.len() == 0
    }
}

impl ModelState {
    /// The entities whose health ran out, with their positions, in id order.
    pub fn dead_entities(&self) -> (deaths: Vec<(Id, Pos)>)
        ensures
            deaths@ == dead_below(self.entities@, self.entities@.len() as int),
    {
        let mut deaths: Vec<(Id, Pos)> = Vec::new();
        let n = self.entities.id_bound();
        for i in 0..n
            invariant
                n == self.entities@.len(),
                deaths@ == dead_below(self.entities@, i as int),
        {
            match self.entities.get(i) {
                Some(e) => {
                    if e.health.is_min() {
                        deaths.push((i, e.position));
                    }
                },
                None => {},
            }
        }
        deaths
    }
}

impl ModelState {
    /// Whether the turn counters fit for every board item there may be after
    /// the owned items are spawned.
    pub fn night_counts_checked(&self) -> (b: bool)
        ensures
            b == night_counts_fit(self),
    {
        let m = self.player.items.id_bound();
        let n = self.items.id_bound();
        for i in 0..m
            invariant
                m == self.player.items@.len(),
                n == self.items@.len(),
                forall|j: int| 0 <= j < i && #[trigger] arena_has(self.player.items@, j)
                    ==> inv_of(self, j).turns_on_board + self.items@.len() + self.player.items@.len() <= usize::MAX,
        {
            match self.player.items.get(i) {
                Some(inv) => {
                    if inv.turns_on_board as u128 + n as u128 + m as u128 > usize::MAX as u128 {
                        assert(arena_has(self.player.items@, i as int));
                        return false;
                    }
                },
                None => {},
            }
        }
        assert forall|j: int| #[trigger] arena_has(self.player.items@, j)
            implies inv_of(self, j).turns_on_board + self.items@.len() + self.player.items@.len() <= usize::MAX by {
            assert(0 <= j < m);
        }
        true
    }
}

impl Model {
    /// Whether the score after this level fits in a score.
    pub fn level_score_checked(&self) -> (b: bool)
        ensures
            b == level_score_fits(self),
    {
        if self.level == 0 {
            return true;
        }
        let a = self.config.score_per_turn_left as u128;
        let t = self.state.player.turns_left as u128;
        proof {
            assert(a * t <= 0xffff_ffff_ffff_ffffu128 * 0xffff_ffff_ffff_ffffu128) by (nonlinear_arith)
                requires
                    a <= 0xffff_ffff_ffff_ffffu128,
                    t <= 0xffff_ffff_ffff_ffffu128,
            ;
        }
        let total = self.score as u128 + self.config.score_per_level as u128 + a * t;
        total <= u64::MAX as u128
    }
}

impl Model {
    /// A finished level gives way to the next: everything unseen is shifted
    /// and the next level begins.
    pub fn level_finished_end(&mut self)
        requires
            old(self).wf(),
            old(self).level < 243,
            level_score_fits(old(self)),
        ensures
            final(self).wf(),
            level_finished_ended(old(self), final(self)),
    {
        let ghost m0 = *self;
        self.state.shift_everything();
        let ghost sa = self.state;
        assert(*self == Model { state: sa, ..m0 });
        self.next_level();
    }

    /// After the vision was shown the player gets two refreshes and picks the
    /// extra items.
    pub fn post_vision_end(&mut self)
        requires
            old(self).wf(),
            old(self).state.player.extra_items > 0 ==> shop_open(&old(self).state),
            old(self).state.player.extra_items == 0 ==> old(self).turn < usize::MAX,
        ensures
            final(self).wf(),
            vision_ended(old(self), final(self)),
    {
        let ghost m0 = *self;
        self.state.player.refreshes = 2;
        let extra = self.state.player.extra_items;
        assert(*self == Model { state: ModelState { player: Player { refreshes: 2, ..m0.state.player }, ..m0.state }, ..m0 });
        if extra > 0 {
            let ghost k = choose|k: int| #[trigger] in_shop(&m0.state, k);
            assert(in_shop(&self.state, k));
        }
        self.select_phase(extra);
    }

    /// The night is over: without enemies the level is won once no effect
    /// waits; otherwise everything unseen is shifted, the owned items are
    /// spawned, and dawn comes.
    pub fn night_end(&mut self, animations_done: bool)
        requires
            old(self).wf(),
            enemy_left(&old(self).state) ==> night_counts_fit(&old(self).state),
        ensures
            final(self).wf(),
            night_ended(old(self), animations_done, final(self)),
    {
        let ghost m0 = *self;
        if !self.state.has_enemies() {
            self.finish_level(true, animations_done);
            return;
        }
        self.state.shift_everything();
        let ghost sa = self.state;
        self.state.spawn_items();
        let ghost sb = self.state;
        proof {
            lemma_spawn_bounds(&sa, &sb);
            assert forall|i: int| #[trigger] arena_has(sb.player.items@, i) implies
                inv_of(&sb, i).turns_on_board + board_refs(sb.items@, i, sb.items@.len() as int) <= usize::MAX by {
                lemma_board_refs_bound(sb.items@, i, sb.items@.len() as int);
                assert(arena_has(m0.state.player.items@, i));
            }
            assert(turn_counts_fit(&sb));
        }
        assert(*self == Model { state: sb, ..m0 });
        self.dawn_phase();
        assert(items_spawned(&sa, &sb));
    }

    /// The start delay of the day is over: the bonuses are queued.
    pub fn day_bonus_start(&mut self)
        ensures
            all_queued(old(self), Trigger::DayBonus, (Phase::DayBonus { started: true }), final(self)),
    {
        self.resolve_all(Trigger::DayBonus);
        self.phase = Phase::DayBonus { started: true };
    }

    /// The bonuses are done: the day actions are queued.
    pub fn day_bonus_end(&mut self)
        ensures
            all_queued(old(self), Trigger::DayAction, Phase::DayAction, final(self)),
    {
        self.resolve_all(Trigger::DayAction);
        self.phase = Phase::DayAction;
    }

    /// The activation is over: the moves to animate are returned, and the
    /// player may move again.
    pub fn resolve_active_phase(&mut self, entity_id: Id, target_pos: Pos) -> (anims: Vec<AnimationKind>)
        requires
            arena_has(old(self).state.entities@, entity_id as int),
        ensures
            anims@ == active_moves(&old(self).state, entity_id, target_pos),
            *final(self) == (Model { phase: Phase::Player, ..*old(self) }),
    {
        let mut anims: Vec<AnimationKind> = Vec::new();
        anims.push(AnimationKind::MoveEntity { entity_id, target_pos });
        let back = self.state.entities.get(entity_id).unwrap().position;
        let ghost a1 = anims@;
        match find_entity_at(&self.state.entities, target_pos) {
            Some(k) => anims.push(AnimationKind::MoveEntity { entity_id: k, target_pos: back }),
            None => {},
        }
        let ghost a2 = anims@;
        match find_item_at(&self.state.items, target_pos) {
            Some(k) => anims.push(AnimationKind::MoveItem { item_id: k, target_pos: back }),
            None => {},
        }
        self.player_phase();
        proof {
            let s = self.state;
            let e = match first_of(s.entities@, entity_on(target_pos@)) {
                Some(k) => seq![AnimationKind::MoveEntity { entity_id: k as Id, target_pos: back }],
                None => Seq::<AnimationKind>::empty(),
            };
            let i = match first_of(s.items@, item_on(target_pos@)) {
                Some(k) => seq![AnimationKind::MoveItem { item_id: k as Id, target_pos: back }],
                None => Seq::<AnimationKind>::empty(),
            };
            assert(a2 =~= a1 + e);
            assert(anims@ =~= a1 + e + i);
        }
        anims
    }

    /// Ends the current phase where it is due, given whether its timer ran
    /// out, whether the animations are done and whether the resolved items
    /// have faded. Returns the moves to animate.
    pub fn resolve_phase(&mut self, timer_done: bool, animations_done: bool, resolved_done: bool) -> (anims: Vec<AnimationKind>)
        requires
            old(self).wf(),
            phase_ready(old(self), timer_done, animations_done, resolved_done),
        ensures
            final(self).wf(),
            phase_resolved(old(self), timer_done, animations_done, resolved_done, final(self), anims@),
    {
        let idle = self.wait_for_effects(animations_done);
        let mut anims: Vec<AnimationKind> = Vec::new();
        match self.phase {
            Phase::LevelStarting => {
                if timer_done {
                    self.dawn_phase();
                }
            },
            Phase::LevelFinished { .. } => {
                if timer_done {
                    self.level_finished_end();
                }
            },
            Phase::PostVision => {
                if timer_done {
                    self.post_vision_end();
                }
            },
            Phase::Night => {
                if timer_done && idle && resolved_done {
                    self.night_end(animations_done);
                }
            },
            Phase::Dawn => {
                if timer_done {
                    self.resolution_phase();
                }
            },
            Phase::DayBonus { started } => {
                if !started {
                    if timer_done {
                        self.day_bonus_start();
                    }
                } else if idle {
                    self.day_bonus_end();
                }
            },
            Phase::DayAction => {
                if idle && timer_done {
                    self.day_end_phase();
                }
            },
            Phase::Active { entity_id, position } => {
                if idle && resolved_done {
                    anims = self.resolve_active_phase(entity_id, position);
                }
            },
            _ => {},
        }
        anims
    }
    /// Recomputes the visible tiles.
    pub fn update_vision(&mut self)
        requires
            old(self).wf(),
        ensures
            final(self).wf(),
            *final(self) == (Model { state: ModelState { visible_tiles: final(self).state.visible_tiles, ..old(self).state }, ..*old(self) }),
            final(self).state.visible_tiles@ == vision_spec(&old(self).state),
    {
        self.state.update_vision();
    }

    /// Ends a frame; see `frame_finished`. Returns the entities that are to
    /// die, with their positions.
    pub fn finish_frame(&mut self, animations_done: bool) -> (deaths: Vec<(Id, Pos)>)
        requires
            old(self).wf(),
        ensures
            final(self).wf(),
            frame_finished(old(self), animations_done, final(self), deaths@),
    {
        if let Phase::LevelFinished { .. } = self.phase {
            return Vec::new();
        }
        let deaths = self.state.dead_entities();
        if deaths.len() == 0 && animations_done && self.state.player.moves_left == 0 {
            if let Phase::Player = self.phase {
                self.vision_phase();
            }
        }
        deaths
    }
}

} // verus!

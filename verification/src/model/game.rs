use vstd::prelude::*;
use std::collections::VecDeque;
use crate::geom::Pos;
use crate::item::{Id, ItemKind};
use crate::effect::{QueuedEffect, Trigger};
use crate::model::state::ModelState;

verus! {

/// The rules' parameters that the configuration file supplies.
pub struct Config {
    /// Names of the items the player starts with.
    pub starting_items: Vec<String>,
    pub score_per_level: u64,
    pub score_per_turn_left: u64,
}

/// The phases of a level. Phases that wait for a timer are left when the
/// caller reports that their timer ran out.
pub enum Phase {
    /// Level transition.
    LevelStarting,
    /// Resolve night effects.
    Night,
    /// Shift and spawn items and enemies.
    Dawn,
    /// Resolve the items' day bonuses; `started` once the start delay is over
    /// and the bonuses are queued.
    DayBonus { started: bool },
    /// Resolve the items' day actions.
    DayAction,
    /// Player movement.
    Player,
    /// Player moving and activating an item.
    Active {
        /// Id of the player.
        entity_id: Id,
        /// Target movement position
        position: Pos,
    },
    /// Place a tile on the map.
    MapTiles {
        tiles_left: usize,
        /// Phase to go to after the tiles have been opened.
        next_phase: Box<Phase>,
    },
    /// Swap position with a magic item.
    Portal {
        /// Phase to go to after the teleport.
        next_phase: Box<Phase>,
    },
    /// Player sets their look direction.
    Vision,
    /// Vision has been set, visualize.
    PostVision,
    /// Select a new item.
    Select {
        /// The offered kinds, by their index among all kinds.
        options: Vec<usize>,
        extra_items: usize,
    },
    /// Level has completed: either all enemies were killed (win) or player ran out of turns.
    LevelFinished { win: bool },
    /// Game over, you lost.
    GameOver,
}

/// The kinds offered in `phase`, or in the phase it goes back to, are among
/// the first `kinds`.
pub open spec fn offers_known(phase: Phase, kinds: nat) -> bool
    decreases phase,
{
    match phase {
        Phase::Select { options, .. } => forall|j: int| 0 <= j < options@.len() ==> #[trigger] options@[j] < kinds,
        Phase::MapTiles { next_phase, .. } => offers_known(*next_phase, kinds),
        Phase::Portal { next_phase } => offers_known(*next_phase, kinds),
        _ => true,
    }
}

/// The game: its state, the level, turn and score, the current phase and the
/// effects waiting to be resolved.
pub struct Model {
    pub config: Config,
    pub state: ModelState,
    pub level: usize,
    pub turn: usize,
    pub score: u64,
    pub phase: Phase,
    /// The stack of effect queues.
    pub effect_queue_stack: Vec<VecDeque<QueuedEffect>>,
    /// Board items waiting to respond to a trigger.
    pub resolution_queue: VecDeque<(Id, Trigger)>,
}

/// What the caller has to carry out after a player action.
pub struct Outcome {
    /// Play the step sound.
    pub step_sound: bool,
    /// Board items that the move activated; their `Trigger::Active` handlers
    /// are to run, in this order.
    pub activated: Vec<Id>,
    /// Inventory items just created, whose scripts are to be initialized.
    pub new_items: Vec<Id>,
    /// Start the game over.
    pub retry: bool,
}

impl Outcome {
    pub fn none() -> (o: Outcome)
        ensures
            !o.step_sound,
            o.activated@.len() == 0,
            o.new_items@.len() == 0,
            !o.retry,
    {
        Outcome { step_sound: false, activated: Vec::new(), new_items: Vec::new(), retry: false }
    }

    pub fn step() -> (o: Outcome)
        ensures
            o.step_sound,
            o.activated@.len() == 0,
            o.new_items@.len() == 0,
            !o.retry,
    {
        Outcome { step_sound: true, activated: Vec::new(), new_items: Vec::new(), retry: false }
    }
}

impl Model {
    /// The state holds together, and the offers in the shop, now or after
    /// the tiles or the portal, are known kinds.
    pub open spec fn wf(&self) -> bool {
        &&& self.state.wf()
        &&& offers_known(self.phase, self.state.all_items@.len())
    }
}

} // verus!

use quantum_dungeon::animation::{may_start, AnimationKind};
use quantum_dungeon::effect::{Effect, Trigger};
use quantum_dungeon::entity::{Entity, EntityKind, Fraction, Health};
use quantum_dungeon::geom::Pos;
use quantum_dungeon::item::{BoardItem, Category, InventoryItem, ItemConfig, ItemKind, ItemStats, ShopAppearance};
use quantum_dungeon::item::ItemFilter;
use quantum_dungeon::model::effects::finish_item_trigger;
use quantum_dungeon::model::script::{BonusRule, ScriptEffects, ScriptItem};
use quantum_dungeon::model::game::{Config, Model, Phase};
use quantum_dungeon::player::PlayerInput;

fn p(x: i64, y: i64) -> Pos {
    Pos::new(x, y)
}

fn kind(name: &str, categories: Vec<Category>, shop: ShopAppearance) -> ItemKind {
    ItemKind {
        config: ItemConfig {
            name: String::from(name),
            categories,
            appears_in_shop: shop,
            base_stats: ItemStats { damage: Some(1) },
        },
    }
}

fn kinds() -> Vec<ItemKind> {
    vec![
        kind("Sword", vec![Category::Weapon], ShopAppearance::Always),
        kind("Crystal", vec![Category::Magic], ShopAppearance::Never),
        kind("Map", vec![Category::Treasure], ShopAppearance::Never),
    ]
}

fn new_model(starting: &[&str]) -> Model {
    let config = Config {
        starting_items: starting.iter().map(|s| String::from(*s)).collect(),
        score_per_level: 10,
        score_per_turn_left: 2,
    };
    Model::new(config, kinds())
}

fn count<T: Copy>(a: &quantum_dungeon::arena::Arena<T>) -> usize {
    a.count()
}

fn enemies(m: &Model) -> Vec<Entity> {
    let mut out = Vec::new();
    for i in 0..m.state.entities.id_bound() {
        if let Some(e) = m.state.entities.get(i) {
            if e.fraction == Fraction::Enemy {
                out.push(e);
            }
        }
    }
    out
}

/// Answers every queued board item with no effects.
fn drain(m: &mut Model) {
    loop {
        m.update_effects(true);
        match m.next_resolution() {
            Some((id, trigger)) => m.push_item_effects(trigger, id, Vec::new()),
            None => {
                if m.effect_queue_stack.is_empty() {
                    break;
                }
            }
        }
    }
}

#[test]
fn new_game_starts_the_first_level() {
    let m = new_model(&["Sword", "Crystal"]);
    assert_eq!(m.level, 1);
    assert_eq!(m.turn, 0);
    assert_eq!(m.score, 0);
    assert!(matches!(m.phase, Phase::LevelStarting));
    assert_eq!(m.state.player.turns_left, 5);
    assert_eq!(m.state.player.hearts, 3);
    let player = m.state.entities.get(0).unwrap();
    assert_eq!(player.position, p(0, 0));
    assert_eq!(player.kind, EntityKind::Player);
    let es = enemies(&m);
    assert_eq!(es.len(), 1);
    assert_eq!(es[0].health.value(), 5);
    assert_ne!(es[0].position, p(0, 0));
    assert_eq!(count(&m.state.player.items), 2);
    assert_eq!(count(&m.state.items), 2);
    for i in 0..2 {
        let inv = m.state.player.items.get(i).unwrap();
        let b = m.state.items.get(inv.on_board.unwrap()).unwrap();
        assert_eq!(b.item_id, i);
        assert!(m.state.grid.check_pos(b.position));
        assert_ne!(b.position, p(0, 0));
        assert_ne!(b.position, es[0].position);
    }
}

#[test]
fn a_day_runs_through_its_phases() {
    let mut m = new_model(&["Sword"]);
    // Level start: dawn comes when the timer runs out.
    m.resolve_phase(false, true, true);
    assert!(matches!(m.phase, Phase::LevelStarting));
    m.resolve_phase(true, true, true);
    assert!(matches!(m.phase, Phase::Dawn));
    assert!(m.state.grid.fractured.contains(p(0, 0)));
    assert_eq!(m.state.player.items.get(0).unwrap().turns_on_board, 1);
    // Dawn gives way to the day bonuses.
    m.resolve_phase(true, true, true);
    assert!(matches!(m.phase, Phase::DayBonus { started: false }));
    assert!(m.state.visible_tiles.is_empty());
    m.resolve_phase(true, true, true);
    assert!(matches!(m.phase, Phase::DayBonus { started: true }));
    assert_eq!(m.resolution_queue.len(), 1);
    assert_eq!(m.resolution_queue[0].1, Trigger::DayBonus);
    // Nothing moves on while an item waits.
    m.resolve_phase(true, true, true);
    assert!(matches!(m.phase, Phase::DayBonus { started: true }));
    drain(&mut m);
    m.resolve_phase(false, true, true);
    assert!(matches!(m.phase, Phase::DayAction));
    assert_eq!(m.resolution_queue[0].1, Trigger::DayAction);
    drain(&mut m);
    m.resolve_phase(true, false, true);
    assert!(matches!(m.phase, Phase::DayAction));
    m.resolve_phase(true, true, true);
    assert!(matches!(m.phase, Phase::Player));
    assert_eq!(m.state.player.moves_left, 3);
}

fn to_player_phase(m: &mut Model) {
    m.resolve_phase(true, true, true);
    m.resolve_phase(true, true, true);
    m.resolve_phase(true, true, true);
    drain(m);
    m.resolve_phase(false, true, true);
    drain(m);
    m.resolve_phase(true, true, true);
    assert!(matches!(m.phase, Phase::Player));
}

#[test]
fn moving_fractures_tiles_and_costs_moves() {
    let mut m = new_model(&[]);
    to_player_phase(&mut m);
    // Diagonal steps and long jumps are refused.
    let o = m.player_action(PlayerInput::Dir(p(1, 1)), true);
    assert!(!o.step_sound);
    assert_eq!(m.state.player.moves_left, 3);
    let o = m.player_action(PlayerInput::Tile(p(0, 1)), true);
    assert!(o.step_sound);
    assert_eq!(m.state.player.moves_left, 2);
    assert!(m.state.grid.fractured.contains(p(0, 1)));
    match m.phase {
        Phase::Active { entity_id, position } => {
            assert_eq!(entity_id, 0);
            assert_eq!(position, p(0, 1));
        }
        _ => panic!("expected an activation"),
    }
    let anims = m.resolve_phase(false, true, true);
    assert!(matches!(m.phase, Phase::Player));
    assert_eq!(anims[0], AnimationKind::MoveEntity { entity_id: 0, target_pos: p(0, 1) });
    for a in anims {
        m.finish_animation(a);
    }
    assert_eq!(m.state.entities.get(0).unwrap().position, p(0, 1));
    // Stepping back onto a fractured tile is refused.
    let o = m.player_action(PlayerInput::Dir(p(0, -1)), true);
    assert!(!o.step_sound);
    assert_eq!(m.state.player.moves_left, 2);
    // Skipping ends the moves.
    let o = m.player_action(PlayerInput::Skip, true);
    assert!(o.step_sound);
    assert!(matches!(m.phase, Phase::Vision));
}

#[test]
fn vision_is_set_then_committed() {
    let mut m = new_model(&[]);
    to_player_phase(&mut m);
    m.player_action(PlayerInput::Skip, true);
    // A diagonal look is refused.
    let o = m.player_action(PlayerInput::Vision { pos: p(1, 1), commit: true }, true);
    assert!(!o.step_sound);
    assert!(matches!(m.phase, Phase::Vision));
    let o = m.player_action(PlayerInput::Tile(p(0, 5)), true);
    assert!(!o.step_sound);
    let player = m.state.entities.get(0).unwrap();
    assert_eq!(player.look_dir, p(0, 1));
    assert!(m.state.visible_tiles.contains(p(0, 0)));
    assert!(m.state.visible_tiles.contains(p(0, 1)));
    assert!(!m.state.visible_tiles.contains(p(0, -1)));
    let o = m.player_action(PlayerInput::Vision { pos: p(-4, 0), commit: true }, true);
    assert!(o.step_sound);
    assert!(matches!(m.phase, Phase::PostVision));
    assert_eq!(m.state.entities.get(0).unwrap().look_dir, p(-1, 0));
    assert!(m.state.visible_tiles.contains(p(-1, 0)));
}

#[test]
fn without_extra_items_the_turn_passes_into_night() {
    let mut m = new_model(&[]);
    to_player_phase(&mut m);
    m.player_action(PlayerInput::Skip, true);
    m.player_action(PlayerInput::Vision { pos: p(0, 3), commit: true }, true);
    m.resolve_phase(true, true, true);
    assert_eq!(m.state.player.refreshes, 2);
    assert_eq!(m.turn, 1);
    assert_eq!(m.state.player.turns_left, 4);
    assert!(matches!(m.phase, Phase::Night));
}

#[test]
fn the_shop_offers_shop_items() {
    let mut m = new_model(&[]);
    to_player_phase(&mut m);
    m.player_action(PlayerInput::Skip, true);
    m.player_action(PlayerInput::Vision { pos: p(0, 3), commit: true }, true);
    m.state.player.extra_items = 2;
    m.resolve_phase(true, true, true);
    match &m.phase {
        Phase::Select { options, extra_items } => {
            assert_eq!(*extra_items, 1);
            assert_eq!(options, &vec![0, 0, 0]);
        }
        _ => panic!("expected the shop"),
    }
    // A reroll costs a refresh and offers one more item.
    let o = m.player_action(PlayerInput::Reroll, true);
    assert!(o.step_sound);
    assert_eq!(m.state.player.refreshes, 1);
    assert!(matches!(m.phase, Phase::Select { extra_items: 1, .. }));
    let o = m.player_action(PlayerInput::SelectItem(2), true);
    assert_eq!(o.new_items, vec![0]);
    let inv = m.state.player.items.get(0).unwrap();
    assert_eq!(inv.kind, 0);
    assert_eq!(inv.on_board, None);
    assert_eq!(inv.base_stats, ItemStats { damage: Some(1) });
    assert!(matches!(m.phase, Phase::Select { extra_items: 0, .. }));
    let o = m.player_action(PlayerInput::Skip, true);
    assert!(o.step_sound);
    assert!(matches!(m.phase, Phase::Night));
}

#[test]
fn out_of_turns_the_level_is_lost() {
    let mut m = new_model(&[]);
    m.state.player.turns_left = 1;
    m.state.player.hearts = 2;
    m.next_turn();
    assert_eq!(m.state.player.turns_left, 0);
    assert_eq!(m.state.player.hearts, 1);
    assert!(matches!(m.phase, Phase::LevelFinished { win: false }));
    m.state.player.turns_left = 1;
    m.next_turn();
    assert_eq!(m.state.player.hearts, 0);
    assert!(matches!(m.phase, Phase::GameOver));
    let o = m.player_action(PlayerInput::Retry, true);
    assert!(o.retry);
}

#[test]
fn a_night_without_enemies_wins_the_level() {
    let mut m = new_model(&[]);
    let e = m.state.entities.id_bound() - 1;
    m.state.entities.remove(e);
    m.phase = Phase::Night;
    m.resolve_phase(true, false, true);
    assert!(matches!(m.phase, Phase::Night));
    m.resolve_phase(true, true, true);
    assert!(matches!(m.phase, Phase::LevelFinished { win: true }));
    let turns = m.state.player.turns_left as u64;
    m.resolve_phase(true, true, true);
    assert_eq!(m.level, 2);
    assert_eq!(m.score, 10 + 2 * turns);
    assert!(matches!(m.phase, Phase::LevelStarting));
    assert_eq!(enemies(&m).len(), 2);
}

#[test]
fn a_night_with_enemies_brings_dawn() {
    let mut m = new_model(&["Sword"]);
    m.phase = Phase::Night;
    m.resolve_phase(true, true, true);
    assert!(matches!(m.phase, Phase::Dawn));
    assert_eq!(enemies(&m).len(), 1);
    assert_eq!(count(&m.state.items), 1);
}

#[test]
fn map_tiles_are_opened_next_to_the_map() {
    let mut m = new_model(&[]);
    m.phase = Phase::MapTiles { tiles_left: 2, next_phase: Box::new(Phase::Player) };
    let o = m.player_action(PlayerInput::Tile(p(5, 5)), true);
    assert!(!o.step_sound);
    let o = m.player_action(PlayerInput::Tile(p(2, 0)), true);
    assert!(o.step_sound);
    assert!(m.state.grid.check_pos(p(2, 0)));
    assert!(matches!(m.phase, Phase::MapTiles { tiles_left: 1, .. }));
    m.player_action(PlayerInput::Tile(p(0, -2)), true);
    assert!(matches!(m.phase, Phase::Player));
}

#[test]
fn the_portal_swaps_with_a_magic_item() {
    let mut m = new_model(&["Crystal", "Map"]);
    let crystal = m.state.player.items.get(0).unwrap().on_board.unwrap();
    let map = m.state.player.items.get(1).unwrap().on_board.unwrap();
    let crystal_pos = m.state.items.get(crystal).unwrap().position;
    let map_pos = m.state.items.get(map).unwrap().position;
    m.phase = Phase::Portal { next_phase: Box::new(Phase::Vision) };
    // Not magic: nothing happens.
    let o = m.player_action(PlayerInput::Tile(map_pos), true);
    assert!(!o.step_sound);
    let o = m.player_action(PlayerInput::Tile(crystal_pos), true);
    assert!(o.step_sound);
    assert_eq!(m.state.entities.get(0).unwrap().position, crystal_pos);
    assert_eq!(m.state.items.get(crystal).unwrap().position, p(0, 0));
    assert!(m.state.grid.fractured.contains(crystal_pos));
    assert!(matches!(m.phase, Phase::Vision));
}

#[test]
fn effects_resolve_in_order_from_the_top_queue() {
    let mut m = new_model(&["Sword"]);
    let b = m.state.player.items.get(0).unwrap().on_board.unwrap();
    m.push_item_effects(Trigger::Night, b, vec![Effect::GainMoves { moves: 2 }, Effect::SetUsed { item_id: b }]);
    assert_eq!(m.effect_queue_stack.len(), 1);
    // Effects wait while animations run.
    assert!(m.update_effects(false).is_none());
    assert_eq!(m.state.player.moves_left, 0);
    let acts = m.update_effects(true).unwrap();
    assert!(!acts.is_empty());
    assert_eq!(m.state.player.moves_left, 2);
    assert!(!m.state.items.get(b).unwrap().used);
    m.update_effects(true);
    assert!(m.state.items.get(b).unwrap().used);
    assert!(m.update_effects(true).is_none());
    assert!(m.effect_queue_stack.is_empty());
}

#[test]
fn an_activation_marks_the_item_used() {
    let e = finish_item_trigger(Trigger::Active, 4, vec![Effect::GainMoves { moves: 1 }]);
    assert_eq!(e.len(), 2);
    assert!(matches!(e[1], Effect::SetUsed { item_id: 4 }));
    let e = finish_item_trigger(Trigger::Active, 4, vec![Effect::GainMoves { moves: 1 }, Effect::Destroy { item_id: 0 }]);
    assert_eq!(e.len(), 2);
    let e = finish_item_trigger(Trigger::Night, 4, vec![Effect::GainMoves { moves: 1 }]);
    assert_eq!(e.len(), 1);
    let e = finish_item_trigger(Trigger::Active, 4, Vec::new());
    assert!(e.is_empty());
}

#[test]
fn used_items_do_not_activate_twice() {
    let mut m = new_model(&["Sword"]);
    let b = m.state.player.items.get(0).unwrap().on_board.unwrap();
    assert!(m.state.item_can_trigger(b, Trigger::Active));
    let item = m.state.items.get(b).unwrap();
    m.state.items.set(b, BoardItem { used: true, ..item });
    assert!(!m.state.item_can_trigger(b, Trigger::Active));
    assert!(m.state.item_can_trigger(b, Trigger::Night));
    assert!(!m.state.item_can_trigger(b + 1, Trigger::Night));
}

#[test]
fn deaths_are_reported_until_the_level_ends() {
    let mut m = new_model(&[]);
    let e = m.state.entities.id_bound() - 1;
    let mut enemy = m.state.entities.get(e).unwrap();
    enemy.health.change(-100);
    m.state.entities.set(e, enemy);
    let deaths = m.finish_frame(true);
    assert_eq!(deaths, vec![(e, enemy.position)]);
    m.finish_animation(AnimationKind::EntityDeath { entity: e, pos: enemy.position });
    assert!(m.state.entities.get(e).is_none());
    assert!(m.finish_frame(true).is_empty());
}

#[test]
fn out_of_moves_the_player_looks_around() {
    let mut m = new_model(&[]);
    to_player_phase(&mut m);
    m.state.player.moves_left = 0;
    m.finish_frame(false);
    assert!(matches!(m.phase, Phase::Player));
    m.finish_frame(true);
    assert!(matches!(m.phase, Phase::Vision));
}

#[test]
fn fresh_items_have_no_bonus() {
    let item = InventoryItem::new(1, ItemStats { damage: Some(3) });
    assert_eq!(item.current_stats(), ItemStats { damage: Some(3) });
    let _ = Health::new_max(1);
}

#[test]
fn a_shift_moves_only_what_nobody_sees() {
    for _ in 0..20 {
        let mut m = new_model(&["Sword", "Crystal", "Map"]);
        m.phase = Phase::Vision;
        m.player_action(PlayerInput::Tile(p(0, 5)), true);
        let before: Vec<Option<Pos>> = (0..m.state.items.id_bound())
            .map(|i| m.state.items.get(i).map(|b| b.position))
            .collect();
        let entities_before: Vec<Option<Pos>> = (0..m.state.entities.id_bound())
            .map(|i| m.state.entities.get(i).map(|e| e.position))
            .collect();
        m.state.shift_everything();
        for (i, pos) in before.iter().enumerate() {
            let pos = pos.unwrap();
            let now = m.state.items.get(i).unwrap().position;
            if m.state.visible_tiles.contains(pos) {
                assert_eq!(now, pos);
            } else {
                assert!(!m.state.visible_tiles.contains(now));
                assert!(m.state.grid.check_pos(now));
            }
        }
        for (i, pos) in entities_before.iter().enumerate() {
            let pos = pos.unwrap();
            let now = m.state.entities.get(i).unwrap().position;
            if m.state.visible_tiles.contains(pos) {
                assert_eq!(now, pos);
            } else {
                assert!(!m.state.visible_tiles.contains(now));
            }
        }
        assert_eq!(m.state.entities.get(0).unwrap().position, p(0, 0));
        let mut taken: Vec<Pos> = Vec::new();
        for i in 0..m.state.items.id_bound() {
            taken.push(m.state.items.get(i).unwrap().position);
        }
        for i in 0..m.state.entities.id_bound() {
            taken.push(m.state.entities.get(i).unwrap().position);
        }
        for a in 0..taken.len() {
            for b in 0..a {
                assert_ne!(taken[a], taken[b]);
            }
        }
    }
}

#[test]
fn an_emptied_queue_does_not_hold_up_the_wait() {
    let mut m = new_model(&["Sword"]);
    assert!(m.wait_for_effects(true));
    assert!(!m.wait_for_effects(false));
    m.push_item_effects(Trigger::Night, 0, Vec::new());
    assert_eq!(m.effect_queue_stack.len(), 1);
    assert!(m.wait_for_effects(true));
    let b = m.state.player.items.get(0).unwrap().on_board.unwrap();
    m.push_item_effects(Trigger::Night, b, vec![Effect::GainMoves { moves: 1 }]);
    assert!(!m.wait_for_effects(true));
    m.update_effects(true);
    assert_eq!(m.effect_queue_stack.len(), 2);
    assert!(m.wait_for_effects(true));
}

#[test]
fn bonuses_to_others_need_no_place_on_the_board() {
    let m = new_model(&["Sword", "Map"]);
    let sword_board = m.state.player.items.get(0).unwrap().on_board.unwrap();
    let board_item = m.state.items.get(sword_board).unwrap();
    let mut item = m.state.player.items.get(0).unwrap();
    item.on_board = None;
    let mut script = ScriptItem { model: &m.state, effects: ScriptEffects::new(), board_item, item };
    let bonus = ItemStats { damage: Some(2) };
    script.bonus_to_all(ItemFilter::Category(Category::Treasure), bonus, true);
    assert_eq!(script.effects.effects.len(), 1);
    let none = ItemFilter::Named(String::from("Nothing"));
    assert!(!script.bonus_applies_somewhere(BonusRule::ToAll, &none));
    assert!(script.bonus_applies_somewhere(BonusRule::ToAll, &ItemFilter::Category(Category::Weapon)));
    script.bonus_from_nearby(5, none, bonus, false);
    assert_eq!(script.effects.effects.len(), 1);
}

#[test]
fn overflow_checks_on_concrete_values() {
    let a = ItemStats { damage: Some(i64::MAX) };
    assert!(!a.fits_with(&ItemStats { damage: Some(1) }));
    assert!(a.fits_with(&ItemStats { damage: Some(-1) }));
    assert!(a.fits_with(&ItemStats::none()));
    let mut inv = InventoryItem::new(0, ItemStats { damage: Some(1) });
    assert!(inv.stats_fit());
    inv.perm_stats = ItemStats { damage: Some(i64::MAX) };
    assert!(!inv.stats_fit());
    let mut m = new_model(&["Sword"]);
    assert!(m.state.turn_counts_checked());
    assert!(m.state.night_counts_checked());
    assert!(m.level_score_checked());
    let mut first = m.state.player.items.get(0).unwrap();
    first.turns_on_board = usize::MAX;
    m.state.player.items.set(0, first);
    assert!(!m.state.turn_counts_checked());
    assert!(!m.state.night_counts_checked());
    m.score = u64::MAX;
    assert!(!m.level_score_checked());
    assert!(m.next_effect_ready());
    let b = first.on_board.unwrap();
    m.state.player.moves_left = 1;
    m.push_item_effects(Trigger::Night, b, vec![Effect::GainMoves { moves: usize::MAX }]);
    assert!(!m.next_effect_ready());
}

#[test]
fn effects_of_items_gone_from_the_board_do_nothing() {
    let mut m = new_model(&[]);
    m.state.player.moves_left = 1;
    m.push_item_effects(Trigger::Night, 99, vec![Effect::GainMoves { moves: usize::MAX }]);
    assert!(m.next_effect_ready());
    assert!(m.update_effects(true).is_none());
    assert_eq!(m.state.player.moves_left, 1);
    assert!(m.update_effects(true).is_none());
    assert!(m.effect_queue_stack.is_empty());
}

#[test]
fn animations_wait_for_what_they_follow() {
    assert!(may_start(&vec![], &vec![1, 2]));
    assert!(may_start(&vec![3], &vec![1, 2]));
    assert!(!may_start(&vec![3, 2], &vec![1, 2]));
}

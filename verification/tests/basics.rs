use quantum_dungeon::arena::Arena;
use quantum_dungeon::effect::Trigger;
use quantum_dungeon::entity::Health;
use quantum_dungeon::geom::{distance, distance_manhattan, Pos};
use quantum_dungeon::grid::Grid;
use quantum_dungeon::item::{Category, Filter, ItemFilter, ItemStats, Position, ShopAppearance, Stats};
use quantum_dungeon::lights::Lights;
use quantum_dungeon::posset::PosSet;

fn p(x: i64, y: i64) -> Pos {
    Pos::new(x, y)
}

#[test]
fn distances_on_the_grid() {
    assert_eq!(distance(p(0, 0), p(3, -5)), 5);
    assert_eq!(distance_manhattan(p(0, 0), p(3, -5)), 8);
    assert_eq!(distance(p(3, -5), p(0, 0)), 5);
    assert_eq!(distance(p(2, 2), p(2, 2)), 0);
    assert_eq!(distance(p(i64::MIN, 0), p(i64::MAX, 0)), u64::MAX as i128);
}

#[test]
fn checked_add_refuses_overflow() {
    assert_eq!(p(1, 2).checked_add(p(-1, 3)), Some(p(0, 5)));
    assert_eq!(p(i64::MAX, 0).checked_add(p(1, 0)), None);
    assert_eq!(p(0, i64::MIN).checked_add(p(0, -1)), None);
}

#[test]
fn combine_adds_and_never_goes_below_zero() {
    let a = ItemStats { damage: Some(3) };
    let b = ItemStats { damage: Some(-5) };
    assert_eq!(a.combine(&b), ItemStats { damage: Some(0) });
    assert_eq!(b.combine(&a), ItemStats { damage: Some(0) });
    let c = ItemStats { damage: Some(4) };
    assert_eq!(a.combine(&c), ItemStats { damage: Some(7) });
    assert_eq!(a.combine(&ItemStats::none()), a);
    assert_eq!(ItemStats::none().combine(&b), b);
    assert_eq!(ItemStats::none().combine(&ItemStats::none()), ItemStats::none());
}

#[test]
fn combine_commutes_on_values() {
    let values = [None, Some(-7), Some(0), Some(2), Some(9)];
    for x in values {
        for y in values {
            let a = ItemStats { damage: x };
            let b = ItemStats { damage: y };
            assert_eq!(a.combine(&b), b.combine(&a));
        }
    }
}

#[test]
fn shop_appearance_follows_the_map() {
    assert!(ShopAppearance::Always.check(true));
    assert!(ShopAppearance::Always.check(false));
    assert!(ShopAppearance::MapNotFull.check(false));
    assert!(!ShopAppearance::MapNotFull.check(true));
    assert!(!ShopAppearance::Never.check(false));
    assert!(!ShopAppearance::Never.check(true));
}

#[test]
fn trigger_method_names() {
    assert_eq!(Trigger::Night.method_name(), "night");
    assert_eq!(Trigger::DayBonus.method_name(), "day_bonus");
    assert_eq!(Trigger::DayAction.method_name(), "day_action");
    assert_eq!(Trigger::Active.method_name(), "active");
}

#[test]
fn filters_from_scripts() {
    let this = String::from("Lamp");
    match Filter::This.into_filter(&this) {
        ItemFilter::Named(n) => assert_eq!(n, "Lamp"),
        _ => panic!("expected a name"),
    }
    match Filter::Named(String::from("Sword")).into_filter(&this) {
        ItemFilter::Named(n) => assert_eq!(n, "Sword"),
        _ => panic!("expected a name"),
    }
    match Filter::Category(Category::Magic).into_filter(&this) {
        ItemFilter::Category(c) => assert_eq!(c, Category::Magic),
        _ => panic!("expected a category"),
    }
}

#[test]
fn stats_as_scripts_see_them() {
    assert_eq!(Stats::from_item_stats(ItemStats { damage: Some(6) }), Stats { damage: 6 });
    assert_eq!(Stats::from_item_stats(ItemStats::none()), Stats { damage: 0 });
    assert_eq!(ItemStats::from_stats(Stats { damage: 2 }), ItemStats { damage: Some(2) });
    assert_eq!(Position::from_pos(p(4, -1)).to_pos(), p(4, -1));
}

#[test]
fn health_stays_in_range() {
    let mut h = Health::new_max(5);
    assert_eq!(h.value(), 5);
    h.change(-3);
    assert_eq!(h.value(), 2);
    assert!(!h.is_min());
    h.change(-10);
    assert_eq!(h.value(), 0);
    assert!(h.is_min());
    h.change(100);
    assert_eq!(h.value(), 5);
    assert_eq!(h.max(), 5);
}

#[test]
fn arena_read_after_write() {
    let mut a: Arena<i64> = Arena::new();
    assert!(a.is_empty());
    let x = a.insert(10);
    let y = a.insert(20);
    assert_eq!((x, y), (0, 1));
    assert_eq!(a.get(x), Some(10));
    assert_eq!(a.get(y), Some(20));
    assert_eq!(a.get(7), None);
    assert_eq!(a.remove(x), Some(10));
    assert!(!a.contains(x));
    assert_eq!(a.get(y), Some(20));
    assert_eq!(a.remove(x), None);
    let z = a.insert(30);
    assert_eq!(z, 2);
    a.set(y, 25);
    assert_eq!(a.get(y), Some(25));
    assert_eq!(a.count(), 2);
    assert_eq!(a.id_bound(), 3);
}

#[test]
fn posset_keeps_each_position_once() {
    let mut s = PosSet::new();
    assert!(s.insert(p(1, 1)));
    assert!(!s.insert(p(1, 1)));
    assert!(s.insert(p(0, 2)));
    assert_eq!(s.len(), 2);
    assert!(s.contains(p(0, 2)));
    let mut t = PosSet::new();
    t.insert(p(1, 1));
    let d = s.difference(&t);
    assert_eq!(d.len(), 1);
    assert!(d.contains(p(0, 2)));
    assert!(s.remove(p(1, 1)));
    assert!(!s.remove(p(1, 1)));
    assert!(!s.contains(p(1, 1)));
    s.clear();
    assert!(s.is_empty());
}

#[test]
fn lights_burn_down() {
    let mut l = Lights::new();
    l.insert(p(0, 0), 2);
    l.insert(p(1, 0), 1);
    assert!(l.contains(p(0, 0)));
    l.tick();
    assert!(l.contains(p(0, 0)));
    assert!(!l.contains(p(1, 0)));
    l.tick();
    assert!(!l.contains(p(0, 0)));
    assert_eq!(l.positions().len(), 0);
}

#[test]
fn grid_starts_as_a_square() {
    let g = Grid::new(3);
    for x in -1..=1 {
        for y in -1..=1 {
            assert!(g.check_pos(p(x, y)));
        }
    }
    assert!(!g.check_pos(p(2, 0)));
    assert!(!g.is_max());
    let b = g.bounds();
    assert_eq!((b.min, b.max), (p(-1, -1), p(1, 1)));
}

#[test]
fn grid_grows_within_limits() {
    let mut g = Grid::new(3);
    assert!(g.check_in_limits(p(2, -2)));
    assert!(!g.check_in_limits(p(3, 0)));
    assert!(g.check_pos_near(p(2, 0)));
    assert!(!g.check_pos_near(p(2, 2)));
    assert!(!g.check_pos_near(p(0, 0)));
    assert!(!g.check_pos_near(p(3, 0)));
    let outside = g.outside_tiles();
    assert_eq!(outside.len(), 12);
    assert!(outside.contains(p(-2, 1)));
    g.expand(p(2, 0));
    assert!(g.check_pos(p(2, 0)));
    assert!(g.check_pos_near(p(2, 1)));
    let b = g.bounds();
    assert_eq!(b.max, p(2, 1));
}

#[test]
fn grid_full_of_tiles_is_max() {
    let g = Grid::new(5);
    assert!(g.is_max());
    assert_eq!(g.outside_tiles().len(), 0);
    let small = Grid::new(0);
    assert!(small.is_max());
}

#[test]
fn light_up_lights_nearby_tiles() {
    let mut g = Grid::new(3);
    g.light_up(p(1, 1), 1, 3);
    assert!(g.lights.contains(p(0, 0)));
    assert!(g.lights.contains(p(1, 1)));
    assert!(!g.lights.contains(p(-1, 0)));
    assert!(!g.lights.contains(p(2, 2)));
    g.decay_lights();
    assert!(g.lights.contains(p(0, 1)));
}

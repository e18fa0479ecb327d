use vstd::prelude::*;
use crate::geom::{Coord, Pos};

verus! {

/// Hit points.
pub type Hp = i64;

/// The category an item belongs to.
#[derive(Clone, Copy, PartialEq, Eq, Structural, Debug)]
pub enum Category {
    Spooky,
    Tech,
    Weapon,
    Treasure,
    Magic,
}

/// When an item can be offered in the shop.
#[derive(Clone, Copy, PartialEq, Eq, Structural, Debug)]
pub enum ShopAppearance {
    Always,
    MapNotFull,
    Never,
}

impl ShopAppearance {
    pub open spec fn allows(self, map_full: bool) -> bool {
        match self {
            ShopAppearance::Always => true,
            ShopAppearance::MapNotFull => !map_full,
            ShopAppearance::Never => false,
        }
    }

    /// Whether the item may appear in the shop, given whether the map is full.
    pub fn check(self, map_full: bool) -> (b: bool)
        ensures
            b == self.allows(map_full),
    {
        match self {
            ShopAppearance::Always => true,
            ShopAppearance::MapNotFull => !map_full,
            ShopAppearance::Never => false,
        }
    }
}

/// Item stats; a missing stat is left alone by a combination.
#[derive(Clone, Copy, PartialEq, Eq, Structural, Debug)]
pub struct ItemStats {
    pub damage: Option<i64>,
}

/// Two optional stats combined: their sum, never below zero, when both are
/// present; otherwise whichever is present.
pub open spec fn combine_value(a: Option<i64>, b: Option<i64>) -> Option<int> {
    match a {
        Some(x) => match b {
            Some(y) => Some(if x + y < 0 { 0 } else { x + y }),
            None => Some(x as int),
        },
        None => match b {
            Some(y) => Some(y as int),
            None => None,
        },
    }
}

/// The combination fits in the stat's type.
pub open spec fn combine_fits(a: Option<i64>, b: Option<i64>) -> bool {
    match (a, b) {
        (Some(x), Some(y)) => x + y <= i64::MAX,
        _ => true,
    }
}

pub open spec fn opt_view(v: Option<i64>) -> Option<int> {
    match v {
        Some(x) => Some(x as int),
        None => None,
    }
}

impl ItemStats {
    /// No stat set.
    pub fn none() -> (s: ItemStats)
        ensures
            s.damage is None,
    {
        ItemStats { damage: None }
    }

    pub open spec fn combine_ok(&self, other: &ItemStats) -> bool {
        combine_fits(self.damage, other.damage)
    }

    pub open spec fn combine_spec(&self, other: &ItemStats) -> ItemStats {
        ItemStats {
            damage: match combine_value(self.damage, other.damage) {
                Some(v) => Some(v as i64),
                None => None,
            },
        }
    }

    /// Whether the two sets of stats can be combined without overflow.
    pub fn fits_with(&self, other: &ItemStats) -> (b: bool)
        ensures
            b == self.combine_ok(other),
    {
        match (self.damage, other.damage) {
            (Some(a), Some(b)) => a as i128 + b as i128 <= i64::MAX as i128,
            _ => true,
        }
    }

    /// Adds up two sets of stats; a sum is never below zero.
    pub fn combine(&self, other: &ItemStats) -> (r: ItemStats)
        requires
            self.combine_ok(other),
        ensures
            opt_view(r.damage) == combine_value(self.damage, other.damage),
            r == self.combine_spec(other),
    {
        let damage = match self.damage {
            Some(a) => match other.damage {
                Some(b) => {
                    let s = a as i128 + b as i128;
                    if s < 0 { Some(0i64) } else { Some(s as i64) }
                },
                None => Some(a),
            },
            None => other.damage,
        };
        ItemStats { damage }
    }
}

/// Combining stats does not depend on the order of the two sides.
pub proof fn law_combine_commutes(a: ItemStats, b: ItemStats)
    ensures
        combine_value(a.damage, b.damage) == combine_value(b.damage, a.damage),
        a.combine_ok(&b) == b.combine_ok(&a),
{
}

/// Stats with nothing set leave the other side unchanged.
pub proof fn law_combine_with_none(a: ItemStats)
    ensures
        combine_value(a.damage, None) == opt_view(a.damage),
        combine_value(None, a.damage) == opt_view(a.damage),
        a.combine_ok(&ItemStats { damage: None }),
        a.combine_spec(&ItemStats { damage: None }) == a,
        (ItemStats { damage: None }).combine_spec(&a) == a,
{
}

/// When both sides hold a stat, the combination is never negative.
pub proof fn law_combine_not_negative(a: ItemStats, b: ItemStats)
    requires
        a.damage is Some,
        b.damage is Some,
    ensures
        combine_value(a.damage, b.damage) matches Some(v) && v >= 0,
{
}

/// The configuration of an item kind.
pub struct ItemConfig {
    pub name: String,
    pub categories: Vec<Category>,
    pub appears_in_shop: ShopAppearance,
    pub base_stats: ItemStats,
}

/// A kind of item.
pub struct ItemKind {
    pub config: ItemConfig,
}

/// A filter for item kind or category of items.
pub enum ItemFilter {
    Category(Category),
    Named(String),
}

impl ItemFilter {
    pub open spec fn matches(&self, kind: &ItemKind) -> bool {
        match self {
            ItemFilter::Category(c) => kind.config.categories@.contains(*c),
            ItemFilter::Named(name) => kind.config.name@ == name@,
        }
    }

    /// Whether the item kind passes the filter.
    pub fn check(&self, item: &ItemKind) -> (b: bool)
        ensures
            b == self.matches(item),
    {
        match self {
            ItemFilter::Category(category) => {
                let n = item.config.categories.len();
                for i in 0..n
                    invariant
                        n == item.config.categories.len(),
                        self.matches(item) == item.config.categories@.contains(*category),
                        forall|j: int| 0 <= j < i ==> item.config.categories[j] != *category,
                {
                    if item.config.categories[i] == *category {
                        assert(item.config.categories@[i as int] == *category);
                        return true;
                    }
                }
                false
            },
            ItemFilter::Named(name) => item.config.name == *name,
        }
    }
}

/// Which enemy an item aims at.
#[derive(Clone, Copy, PartialEq, Eq, Structural, Debug)]
pub enum Target {
    Nearest,
    Random,
}

/// Board item ids and inventory item ids index the arenas that hold them.
pub type Id = usize;

/// An item placed on the board.
#[derive(Clone, Copy, PartialEq, Eq, Structural, Debug)]
pub struct BoardItem {
    pub position: Pos,
    /// The inventory item this board item shows.
    pub item_id: Id,
    /// Whether the item was used this turn.
    pub used: bool,
}

/// An item the player owns.
#[derive(Clone, Copy, PartialEq, Eq, Structural, Debug)]
pub struct InventoryItem {
    /// The id of the board item, if it is present on the board.
    pub on_board: Option<Id>,
    /// The index of its kind among all item kinds.
    pub kind: usize,
    /// The number of turns this item has been present on the board so far.
    pub turns_on_board: usize,
    /// Base stats that might be used to reset all modifications.
    pub base_stats: ItemStats,
    /// Permanent stats that persist through turns.
    pub perm_stats: ItemStats,
    /// Resolution stats that reset every turn, act as a modifier on the perm_stats.
    pub temp_stats: ItemStats,
}

impl InventoryItem {
    /// A freshly obtained item of kind `kind` with the given base stats.
    pub fn new(kind: usize, base_stats: ItemStats) -> (item: InventoryItem)
        ensures
            item.on_board is None,
            item.kind == kind,
            item.turns_on_board == 0,
            item.base_stats == base_stats,
            item.perm_stats.damage is None,
            item.temp_stats.damage is None,
    {
        InventoryItem {
            on_board: None,
            kind,
            turns_on_board: 0,
            base_stats,
            perm_stats: ItemStats::none(),
            temp_stats: ItemStats::none(),
        }
    }

    pub open spec fn stats_ok(&self) -> bool {
        &&& self.temp_stats.combine_ok(&self.perm_stats)
        &&& self.base_stats.combine_ok(&self.temp_stats.combine_spec(&self.perm_stats))
    }

    pub open spec fn current_stats_spec(&self) -> ItemStats {
        self.base_stats.combine_spec(&self.temp_stats.combine_spec(&self.perm_stats))
    }

    /// Whether the stats in effect can be computed without overflow.
    pub fn stats_fit(&self) -> (b: bool)
        ensures
            b == self.stats_ok(),
    {
        if !self.temp_stats.fits_with(&self.perm_stats) {
            return false;
        }
        let modifier = self.temp_stats.combine(&self.perm_stats);
        self.base_stats.fits_with(&modifier)
    }

    /// The stats in effect: the base stats combined with the temporary and
    /// permanent modifiers.
    pub fn current_stats(&self) -> (s: ItemStats)
        requires
            self.stats_ok(),
        ensures
            s == self.current_stats_spec(),
    {
        self.base_stats.combine(&self.temp_stats.combine(&self.perm_stats))
    }
}

/// Stats as scripts see them.
#[derive(Clone, Copy, PartialEq, Eq, Structural, Debug)]
pub struct Stats {
    pub damage: Hp,
}

impl Stats {
    /// A missing damage stat reads as zero.
    pub fn from_item_stats(value: ItemStats) -> (s: Stats)
        ensures
            s.damage == match value.damage {
                Some(d) => d,
                None => 0,
            },
    {
        Stats {
            damage: match value.damage {
                Some(d) => d,
                None => 0,
            },
        }
    }
}

impl ItemStats {
    /// Every stat of a script's stats is set.
    pub fn from_stats(value: Stats) -> (s: ItemStats)
        ensures
            s.damage == Some(value.damage),
    {
        ItemStats { damage: Some(value.damage) }
    }
}

/// A filter as scripts write it.
pub enum Filter {
    /// The kind of the item running the script.
    This,
    Category(Category),
    Named(String),
}

impl Filter {
    /// The item filter, where `this` is the name of the item running the script.
    pub fn into_filter(self, this: &String) -> (f: ItemFilter)
        ensures
            match self {
                Filter::This => f matches ItemFilter::Named(n) && n@ == this@,
                Filter::Category(c) => f == ItemFilter::Category(c),
                Filter::Named(name) => f matches ItemFilter::Named(n) && n@ == name@,
            },
    {
        match self {
            Filter::This => ItemFilter::Named(this.clone()),
            Filter::Category(cat) => ItemFilter::Category(cat),
            Filter::Named(name) => ItemFilter::Named(name),
        }
    }
}

/// A position as scripts see it.
#[derive(Clone, Copy, PartialEq, Eq, Structural, Debug)]
pub struct Position {
    pub x: Coord,
    pub y: Coord,
}

impl Position {
    pub fn from_pos(p: Pos) -> (r: Position)
        ensures
            r.x == p.x,
            r.y == p.y,
    {
        Position { x: p.x, y: p.y }
    }

    pub fn to_pos(self) -> (p: Pos)
        ensures
            p.x == self.x,
            p.y == self.y,
    {
        Pos { x: self.x, y: self.y }
    }
}

/// A box on the grid as scripts see it.
#[derive(Clone, Copy, PartialEq, Eq, Structural, Debug)]
pub struct Bounds {
    pub low: Position,
    pub high: Position,
}

} // verus!

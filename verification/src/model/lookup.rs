use vstd::prelude::*;
use crate::geom::Pos;
use crate::arena::{Arena, arena_get, arena_has, first_where, first_of, lemma_first_of, lemma_first_none};
use crate::item::{BoardItem, Id};
use crate::entity::{Entity, EntityKind};

verus! {

/// The entity stands at `q`.
pub open spec fn entity_on(q: (int, int)) -> spec_fn(Entity) -> bool {
    |e: Entity| e.position@ == q
}

/// The board item lies at `q`.
pub open spec fn item_on(q: (int, int)) -> spec_fn(BoardItem) -> bool {
    |b: BoardItem| b.position@ == q
}

/// The entity is a player.
pub open spec fn is_player() -> spec_fn(Entity) -> bool {
    |e: Entity| e.kind == EntityKind::Player
}

/// `r` names the id that `first` picks, if any.
pub open spec fn found(r: Option<Id>, first: Option<int>) -> bool {
    match r {
        Some(k) => first == Some(k as int),
        None => first is None,
    }
}

/// The lowest id of an entity standing at `q`.
pub fn find_entity_at(entities: &Arena<Entity>, q: Pos) -> (r: Option<Id>)
    ensures
        found(r, first_of(entities@, entity_on(q@))),
{
    let n = entities.id_bound();
    for i in 0..n
        invariant
            n == entities@.len(),
            forall|j: int| 0 <= j < i && #[trigger] arena_has(entities@, j) ==> !entity_on(q@)(arena_get(entities@, j).unwrap()),
    {
        match entities.get(i) {
            Some(e) => {
                if e.position == q {
                    proof {
                        assert(first_where(entities@, entity_on(q@), i as int));
                        lemma_first_of(entities@, entity_on(q@), i as int);
                    }
                    return Some(i);
                }
            },
            None => {},
        }
    }
    proof {
        lemma_first_none(entities@, entity_on(q@));
    }
    None
}

/// The lowest id of a board item lying at `q`.
pub fn find_item_at(items: &Arena<BoardItem>, q: Pos) -> (r: Option<Id>)
    ensures
        found(r, first_of(items@, item_on(q@))),
{
    let n = items.id_bound();
    for i in 0..n
        invariant
            n == items@.len(),
            forall|j: int| 0 <= j < i && #[trigger] arena_has(items@, j) ==> !item_on(q@)(arena_get(items@, j).unwrap()),
    {
        match items.get(i) {
            Some(b) => {
                if b.position == q {
                    proof {
                        assert(first_where(items@, item_on(q@), i as int));
                        lemma_first_of(items@, item_on(q@), i as int);
                    }
                    return Some(i);
                }
            },
            None => {},
        }
    }
    proof {
        lemma_first_none(items@, item_on(q@));
    }
    None
}

/// The lowest id of a player entity.
pub fn find_player(entities: &Arena<Entity>) -> (r: Option<Id>)
    ensures
        found(r, first_of(entities@, is_player())),
{
    let n = entities.id_bound();
    for i in 0..n
        invariant
            n == entities@.len(),
            forall|j: int| 0 <= j < i && #[trigger] arena_has(entities@, j) ==> !is_player()(arena_get(entities@, j).unwrap()),
    {
        match entities.get(i) {
            Some(e) => {
                if e.kind == EntityKind::Player {
                    proof {
                        assert(first_where(entities@, is_player(), i as int));
                        lemma_first_of(entities@, is_player(), i as int);
                    }
                    return Some(i);
                }
            },
            None => {},
        }
    }
    proof {
        lemma_first_none(entities@, is_player());
    }
    None
}

} // verus!

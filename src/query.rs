//! Lookups over the component store.
use vstd::prelude::*;

use crate::battle::{
    slot_count, slot_entity, slot_first, ComponentArray, Components, Entity, Player,
    Position,
};
use crate::card::{CardDb, CardId, Stats};

verus! {

broadcast use Entity::lemma_from_index, ComponentArray::lemma_len;

/// Everything the rules read of one card in play.
#[derive(Clone, Copy, Debug, PartialEq, Eq, Structural)]
pub struct CardView {
    pub id: CardId,
    pub entity: Entity,
    pub owner: Player,
    pub position: Position,
    pub stats: Stats,
}

/// The card view of `e`: present when `e` has all three components and its card is in `db`.
pub open spec fn card_view_of(c: &Components, db: &CardDb, e: Entity) -> Option<CardView> {
    match (c.owner@[e@ as int], c.position@[e@ as int], c.card@[e@ as int]) {
        (Some(owner), Some(position), Some(id)) => if id@ < db.stats@.len() {
            Some(CardView { id, entity: e, owner, position, stats: db.stats@[id@ as int] })
        } else {
            None
        },
        _ => None,
    }
}

/// Slot `j` holds a card of `player` at `position`.
pub open spec fn owned_at(
    owners: Seq<Option<Player>>,
    positions: Seq<Option<Position>>,
    player: Player,
    position: Position,
) -> spec_fn(int) -> bool {
    |j: int| owners[j] == Some(player) && positions[j] == Some(position)
}

/// Slot `j` holds a card at `position`.
pub open spec fn placed_at(positions: Seq<Option<Position>>, position: Position) -> spec_fn(
    int,
) -> bool {
    |j: int| positions[j] == Some(position)
}

/// Slot `j` holds a card of `player` in that player's hand.
pub open spec fn in_hand(
    owners: Seq<Option<Player>>,
    positions: Seq<Option<Position>>,
    player: Player,
    j: int,
) -> bool {
    owners[j] == Some(player) && positions[j] matches Some(Position::Hand(_))
}

/// [`in_hand`] as a predicate on slots.
pub open spec fn in_hand_of(
    owners: Seq<Option<Player>>,
    positions: Seq<Option<Position>>,
    player: Player,
) -> spec_fn(int) -> bool {
    |j: int| in_hand(owners, positions, player, j)
}

/// The number of cards in the hand of `player`.
pub open spec fn spec_hand_size(
    owners: Seq<Option<Player>>,
    positions: Seq<Option<Position>>,
    player: Player,
) -> nat {
    slot_count(in_hand_of(owners, positions, player), 0)
}

/// The card view of `entity`, or `None` when a component is missing or the catalog lacks its
/// card.
pub fn get_card_view(entity: Entity, components: &Components, card_db: &CardDb) -> (r: Option<
    CardView,
>)
    ensures
        r == card_view_of(components, card_db, entity),
{
    let owner = match components.owner.at(entity) {
        Some(o) => o,
        None => return None,
    };
    let position = match components.position.at(entity) {
        Some(p) => p,
        None => return None,
    };
    let id = match components.card.at(entity) {
        Some(c) => c,
        None => return None,
    };
    let i = id.index();
    if i < card_db.stats.len() {
        Some(CardView { id, entity, owner, position, stats: card_db.stats[i] })
    } else {
        None
    }
}

/// The lowest entity whose card `player` holds at `position`.
///
/// A hand position needs the owner: both players have a card at `Hand(0)`.
pub fn get_owned_entity(
    player: Player,
    position: Position,
    owners: &ComponentArray<Player>,
    positions: &ComponentArray<Position>,
) -> (r: Option<Entity>)
    ensures
        r == slot_entity(slot_first(owned_at(owners@, positions@, player, position), 0)),
{
    let ghost p = owned_at(owners@, positions@, player, position);
    let mut i: u8 = 0;
    while i < 10
        invariant
            i <= 10,
            p == owned_at(owners@, positions@, player, position),
            slot_first(p, 0) == slot_first(p, i as nat),
        decreases 10 - i,
    {
        let e = Entity::new(i).unwrap();
        if owners.at(e) == Some(player) && positions.at(e) == Some(position) {
            assert(e == Entity::from_index(i as nat)) by {
                Entity::lemma_from_view(e);
            }
            return Some(e);
        }
        i = i + 1;
    }
    None
}

/// The lowest entity whose card lies at `position`, whoever owns it.
pub fn get_placed_entity(position: Position, positions: &ComponentArray<Position>) -> (r: Option<
    Entity,
>)
    ensures
        r == slot_entity(slot_first(placed_at(positions@, position), 0)),
{
    let ghost p = placed_at(positions@, position);
    let mut i: u8 = 0;
    while i < 10
        invariant
            i <= 10,
            p == placed_at(positions@, position),
            slot_first(p, 0) == slot_first(p, i as nat),
        decreases 10 - i,
    {
        let e = Entity::new(i).unwrap();
        if positions.at(e) == Some(position) {
            assert(e == Entity::from_index(i as nat)) by {
                Entity::lemma_from_view(e);
            }
            return Some(e);
        }
        i = i + 1;
    }
    None
}

/// The number of cards in the hand of `player`.
pub fn hand_size(
    player: Player,
    owners: &ComponentArray<Player>,
    positions: &ComponentArray<Position>,
) -> (r: usize)
    ensures
        r == spec_hand_size(owners@, positions@, player),
{
    let ghost p = in_hand_of(owners@, positions@, player);
    let mut i: u8 = 0;
    let mut n: usize = 0;
    while i < 10
        invariant
            i <= 10,
            n <= i,
            p == in_hand_of(owners@, positions@, player),
            n + slot_count(p, i as nat) == slot_count(p, 0),
        decreases 10 - i,
    {
        let e = Entity::new(i).unwrap();
        if owners.at(e) == Some(player) {
            if let Some(Position::Hand(_)) = positions.at(e) {
                n = n + 1;
            }
        }
        i = i + 1;
    }
    n
}

} // verus!

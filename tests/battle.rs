use triple_triad::battle::{
    Battle, BattleSetup, BoardCoords, ComponentArray, Direction, Entity, Player, Position, State,
};
use triple_triad::card::CardId;
use triple_triad::rules::{wrap_decr, wrap_incr};

fn ids(v: [u8; 5]) -> [CardId; 5] {
    v.map(|i| CardId::new(i).unwrap())
}

#[test]
fn entity_new_accepts_exactly_zero_to_nine() {
    for i in 0..=255u8 {
        let e = Entity::new(i);
        assert_eq!(e.is_some(), i < 10, "index {}", i);
        if let Some(e) = e {
            assert_eq!(e.index(), i as usize);
        }
    }
}

#[test]
fn entity_iter_runs_both_ways_with_exact_length() {
    let mut it = Entity::iter();
    assert_eq!(it.len(), 10);
    assert_eq!(it.next(), Entity::new(0));
    assert_eq!(it.next_back(), Entity::new(9));
    assert_eq!(it.len(), 8);
    let mut rest = Vec::new();
    while let Some(e) = it.next() {
        rest.push(e.index());
    }
    assert_eq!(rest, vec![1, 2, 3, 4, 5, 6, 7, 8]);
    assert_eq!(it.next(), None);
    assert_eq!(it.next_back(), None);
    let mut again = Entity::iter();
    assert_eq!(again.next(), Entity::new(0));
}

#[test]
fn card_id_range() {
    assert!(CardId::new(0).is_some());
    assert_eq!(CardId::new(109).unwrap().index(), 109);
    assert!(CardId::new(110).is_none());
    assert!(CardId::new(255).is_none());
    assert_eq!(CardId::new_unchecked(42).index(), 42);
}

#[test]
fn board_coords_validation() {
    assert!(BoardCoords::new(0, 0).is_some());
    assert!(BoardCoords::new(2, 2).is_some());
    assert!(BoardCoords::new(3, 0).is_none());
    assert!(BoardCoords::new(0, 3).is_none());
    let c = BoardCoords::new(2, 1).unwrap();
    assert_eq!((c.x(), c.y()), (2, 1));
    assert_eq!(c.index(), 5);
    assert_eq!(BoardCoords::center(), BoardCoords::new(1, 1).unwrap());
}

#[test]
fn board_coords_wrapping_moves() {
    let corner = BoardCoords::new(0, 0).unwrap();
    assert_eq!(corner.moved_left(), BoardCoords::new(2, 0).unwrap());
    assert_eq!(corner.moved_up(), BoardCoords::new(0, 2).unwrap());
    assert_eq!(corner.moved_right(), BoardCoords::new(1, 0).unwrap());
    assert_eq!(corner.moved_down(), BoardCoords::new(0, 1).unwrap());
    let far = BoardCoords::new(2, 2).unwrap();
    assert_eq!(far.moved_right(), BoardCoords::new(0, 2).unwrap());
    assert_eq!(far.moved_down(), BoardCoords::new(2, 0).unwrap());
}

#[test]
fn board_coords_bounded_neighbors() {
    let corner = BoardCoords::new(0, 0).unwrap();
    assert_eq!(corner.neighbor(Direction::Left), None);
    assert_eq!(corner.neighbor(Direction::Up), None);
    assert_eq!(corner.neighbor(Direction::Right), BoardCoords::new(1, 0));
    assert_eq!(corner.neighbor(Direction::Down), BoardCoords::new(0, 1));
    let far = BoardCoords::new(2, 2).unwrap();
    assert_eq!(far.neighbor(Direction::Right), None);
    assert_eq!(far.neighbor(Direction::Down), None);
    assert_eq!(far.neighbor(Direction::Left), BoardCoords::new(1, 2));
    assert_eq!(far.neighbor(Direction::Up), BoardCoords::new(2, 1));
}

#[test]
fn player_opponent_flips() {
    assert_eq!(Player::P1.opponent(), Player::P2);
    assert_eq!(Player::P2.opponent(), Player::P1);
}

#[test]
fn component_array_insert_get_remove() {
    let mut a: ComponentArray<u32> = ComponentArray::empty();
    let e = Entity::new(3).unwrap();
    assert_eq!(a.get(e), None);
    assert_eq!(a.insert(e, 7), None);
    assert_eq!(a.get(e), Some(&7));
    assert_eq!(a.insert(e, 8), Some(7));
    assert_eq!(a.at(e), Some(8));
    assert_eq!(a.remove(e), Some(8));
    assert_eq!(a.remove(e), None);
    a.set(e, Some(1));
    assert_eq!(a.iter().filter(|v| v.is_some()).count(), 1);
}

#[test]
fn battle_init_deals_both_hands() {
    let setup = BattleSetup { p1: ids([1, 4, 8, 12, 16]), p2: ids([5, 10, 15, 20, 109]) };
    let battle = Battle::init(&setup);
    assert_eq!(battle.state, State::Start);
    for i in 0..10u8 {
        let e = Entity::new(i).unwrap();
        let (owner, card, hand) = if i < 5 {
            (Player::P1, setup.p1[i as usize], i as usize)
        } else {
            (Player::P2, setup.p2[(i - 5) as usize], (i - 5) as usize)
        };
        assert_eq!(battle.components.owner.at(e), Some(owner));
        assert_eq!(battle.components.card.at(e), Some(card));
        assert_eq!(battle.components.position.at(e), Some(Position::Hand(hand)));
    }
}

#[test]
fn wrap_helpers() {
    assert_eq!(wrap_incr(0, 5), 1);
    assert_eq!(wrap_incr(4, 5), 0);
    assert_eq!(wrap_decr(0, 5), 4);
    assert_eq!(wrap_decr(3, 5), 2);
    assert_eq!(wrap_incr(7, 3), 2);
    assert_eq!(wrap_decr(7, 3), 0);
}

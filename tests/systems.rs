use triple_triad::battle::{
    Battle, BattleResult, BattleSetup, BoardCoords, Direction, Entity, Player, Position, State,
    TurnPhase,
};
use triple_triad::card::{CardDb, CardId, Element, Stats};
use triple_triad::event::{Bus, Command, GameEvent, MatchResult};
use triple_triad::query::{get_owned_entity, get_placed_entity, hand_size};
use triple_triad::systems::{
    director_system, flip_system, placement_system, rule_system, selection_system, win_system,
};

fn ids(v: [u8; 5]) -> [CardId; 5] {
    v.map(|i| CardId::new(i).unwrap())
}

fn battle() -> Battle {
    Battle::init(&BattleSetup { p1: ids([1, 2, 3, 4, 6]), p2: ids([5, 7, 8, 9, 10]) })
}

fn ent(i: u8) -> Entity {
    Entity::new(i).unwrap()
}

fn cell(x: usize, y: usize) -> BoardCoords {
    BoardCoords::new(x, y).unwrap()
}

fn db_with(entries: &[(u8, Stats)]) -> CardDb {
    let mut db = CardDb { elements: Vec::new(), names: Vec::new(), stats: Vec::new() };
    for _ in 0..110 {
        db.elements.push(Element::Neutral);
        db.names.push(String::new());
        db.stats.push(Stats { top: 0, rgt: 0, btm: 0, lft: 0 });
    }
    for (id, s) in entries {
        db.stats[*id as usize] = *s;
    }
    db
}

fn stats(top: u8, rgt: u8, btm: u8, lft: u8) -> Stats {
    Stats { top, rgt, btm, lft }
}

#[test]
fn scenario_start_to_selection() {
    let mut b = Battle::init(&BattleSetup { p1: ids([1, 2, 3, 4, 6]), p2: ids([5, 7, 8, 9, 10]) });
    let bus = Bus::new();
    assert!(director_system(&bus, &mut b.state, &b.components));
    assert_eq!(b.state, State::Turn { phase: TurnPhase::Start, player: Player::P1 });
    assert!(director_system(&bus, &mut b.state, &b.components));
    assert_eq!(
        b.state,
        State::Turn { phase: TurnPhase::SelectCard { cursor: 0, entity: ent(0) }, player: Player::P1 }
    );
}

#[test]
fn scenario_confirm_places_on_center() {
    let mut b = battle();
    b.state = State::Turn {
        phase: TurnPhase::PlaceCard { cursor: BoardCoords::center(), entity: ent(2) },
        player: Player::P1,
    };
    let mut bus = Bus::new();
    bus.commands.push_back(Command::Confirm);
    placement_system(&mut bus, &mut b.state, &b.components.owner, &mut b.components.position);
    assert_eq!(b.components.position.at(ent(2)), Some(Position::Board(cell(1, 1))));
    assert_eq!(get_placed_entity(Position::Board(cell(1, 1)), &b.components.position), Some(ent(2)));
    assert_eq!(bus.events.iter().copied().collect::<Vec<_>>(), vec![GameEvent::CardPlaced]);
    // the cards above the placed one move down in the hand; the other hand is untouched
    assert_eq!(b.components.position.at(ent(0)), Some(Position::Hand(0)));
    assert_eq!(b.components.position.at(ent(1)), Some(Position::Hand(1)));
    assert_eq!(b.components.position.at(ent(3)), Some(Position::Hand(2)));
    assert_eq!(b.components.position.at(ent(4)), Some(Position::Hand(3)));
    assert_eq!(b.components.position.at(ent(7)), Some(Position::Hand(2)));
    assert_eq!(hand_size(Player::P1, &b.components.owner, &b.components.position), 4);
    assert!(director_system(&bus, &mut b.state, &b.components));
    assert_eq!(
        b.state,
        State::Turn { phase: TurnPhase::ResolveRules { entity: ent(2) }, player: Player::P1 }
    );
}

#[test]
fn scenario_capture_flips_weaker_neighbor() {
    let mut b = battle();
    // card 2 (entity 1, P1) has right 8; card 7 (entity 6, P2) has left 3
    let db = db_with(&[(2, stats(1, 8, 1, 1)), (7, stats(1, 1, 1, 3))]);
    b.components.position.insert(ent(1), Position::Board(cell(0, 1)));
    b.components.position.insert(ent(6), Position::Board(cell(1, 1)));
    b.state = State::Turn { phase: TurnPhase::ResolveRules { entity: ent(1) }, player: Player::P1 };
    let mut bus = Bus::new();
    rule_system(&mut bus, &b.state, &b.components, &db);
    assert_eq!(bus.flips.iter().copied().collect::<Vec<_>>(), vec![ent(6)]);
    flip_system(&mut bus, &mut b.components.owner);
    assert_eq!(b.components.owner.at(ent(6)), Some(Player::P1));
    assert_eq!(bus.events.iter().copied().collect::<Vec<_>>(), vec![GameEvent::CardFlipped]);
}

fn fill_board(b: &mut Battle, p1_on_board: u8) {
    // entities 0..=8 go on the nine cells; entity 9 stays in hand
    for i in 0..9u8 {
        let c = cell((i % 3) as usize, (i / 3) as usize);
        b.components.position.insert(ent(i), Position::Board(c));
        let owner = if i < p1_on_board { Player::P1 } else { Player::P2 };
        b.components.owner.insert(ent(i), owner);
    }
}

#[test]
fn scenario_full_board_five_to_four_wins() {
    let mut b = battle();
    fill_board(&mut b, 5);
    b.components.owner.remove(ent(9));
    b.state = State::Turn { phase: TurnPhase::End, player: Player::P2 };
    let mut bus = Bus::new();
    win_system(&mut bus, &b.state, &b.components);
    assert_eq!(
        bus.events.iter().copied().collect::<Vec<_>>(),
        vec![GameEvent::MatchEnded(MatchResult::Winner(Player::P1))]
    );
    assert!(director_system(&bus, &mut b.state, &b.components));
    assert_eq!(b.state, State::End { result: BattleResult::Win(Player::P1) });
}

#[test]
fn scenario_full_board_equal_counts_draw() {
    let mut b = battle();
    // four P1 cards on the board and the P1 card left in hand against five P2 cards
    fill_board(&mut b, 4);
    b.components.owner.insert(ent(9), Player::P1);
    b.state = State::Turn { phase: TurnPhase::End, player: Player::P1 };
    let mut bus = Bus::new();
    win_system(&mut bus, &b.state, &b.components);
    assert_eq!(
        bus.events.iter().copied().collect::<Vec<_>>(),
        vec![GameEvent::MatchEnded(MatchResult::Draw)]
    );
    assert!(director_system(&bus, &mut b.state, &b.components));
    assert_eq!(b.state, State::End { result: BattleResult::Draw });
}

#[test]
fn full_board_p2_ahead_wins() {
    let mut b = battle();
    fill_board(&mut b, 3);
    b.state = State::Turn { phase: TurnPhase::End, player: Player::P1 };
    let mut bus = Bus::new();
    win_system(&mut bus, &b.state, &b.components);
    assert_eq!(
        bus.events.iter().copied().collect::<Vec<_>>(),
        vec![GameEvent::MatchEnded(MatchResult::Winner(Player::P2))]
    );
}

#[test]
fn win_check_is_silent_below_nine_cards() {
    let mut b = battle();
    fill_board(&mut b, 5);
    b.components.position.insert(ent(8), Position::Hand(0));
    b.state = State::Turn { phase: TurnPhase::End, player: Player::P1 };
    let mut bus = Bus::new();
    win_system(&mut bus, &b.state, &b.components);
    assert!(bus.events.is_empty());
    assert!(director_system(&bus, &mut b.state, &b.components));
    assert_eq!(b.state, State::Turn { phase: TurnPhase::Start, player: Player::P2 });
}

#[test]
fn win_check_waits_for_turn_end() {
    let mut b = battle();
    fill_board(&mut b, 5);
    b.state = State::Turn { phase: TurnPhase::Start, player: Player::P1 };
    let mut bus = Bus::new();
    win_system(&mut bus, &b.state, &b.components);
    assert!(bus.events.is_empty());
}

#[test]
fn selection_cursor_wraps_and_confirm_selects() {
    let mut b = battle();
    b.state = State::Turn {
        phase: TurnPhase::SelectCard { cursor: 0, entity: ent(5) },
        player: Player::P2,
    };
    let mut bus = Bus::new();
    bus.commands.push_back(Command::MoveCursor(Direction::Up));
    selection_system(&mut bus, &mut b.state, &b.components);
    assert_eq!(
        b.state,
        State::Turn { phase: TurnPhase::SelectCard { cursor: 4, entity: ent(9) }, player: Player::P2 }
    );
    assert!(bus.events.is_empty());

    let mut bus = Bus::new();
    bus.commands.push_back(Command::MoveCursor(Direction::Down));
    bus.commands.push_back(Command::MoveCursor(Direction::Down));
    bus.commands.push_back(Command::MoveCursor(Direction::Left));
    bus.commands.push_back(Command::Confirm);
    selection_system(&mut bus, &mut b.state, &b.components);
    assert_eq!(
        b.state,
        State::Turn { phase: TurnPhase::SelectCard { cursor: 1, entity: ent(6) }, player: Player::P2 }
    );
    assert_eq!(
        bus.events.iter().copied().collect::<Vec<_>>(),
        vec![GameEvent::CardSelected { target: ent(6) }]
    );
    assert!(director_system(&bus, &mut b.state, &b.components));
    assert_eq!(
        b.state,
        State::Turn {
            phase: TurnPhase::PlaceCard { cursor: BoardCoords::center(), entity: ent(6) },
            player: Player::P2,
        }
    );
}

#[test]
fn placement_on_taken_cell_is_ignored() {
    let mut b = battle();
    b.components.position.insert(ent(5), Position::Board(cell(1, 1)));
    b.state = State::Turn {
        phase: TurnPhase::PlaceCard { cursor: BoardCoords::center(), entity: ent(0) },
        player: Player::P1,
    };
    let mut bus = Bus::new();
    bus.commands.push_back(Command::Confirm);
    placement_system(&mut bus, &mut b.state, &b.components.owner, &mut b.components.position);
    assert!(bus.events.is_empty());
    assert_eq!(b.components.position.at(ent(0)), Some(Position::Hand(0)));

    let mut bus = Bus::new();
    bus.commands.push_back(Command::MoveCursor(Direction::Right));
    bus.commands.push_back(Command::MoveCursor(Direction::Up));
    bus.commands.push_back(Command::Confirm);
    placement_system(&mut bus, &mut b.state, &b.components.owner, &mut b.components.position);
    assert_eq!(b.components.position.at(ent(0)), Some(Position::Board(cell(2, 0))));
    assert_eq!(b.components.position.at(ent(1)), Some(Position::Hand(0)));
    assert_eq!(b.components.position.at(ent(4)), Some(Position::Hand(3)));
}

#[test]
fn cancel_returns_to_selection_at_hand_index() {
    let mut b = battle();
    b.state = State::Turn {
        phase: TurnPhase::PlaceCard { cursor: BoardCoords::center(), entity: ent(3) },
        player: Player::P1,
    };
    let mut bus = Bus::new();
    bus.commands.push_back(Command::MoveCursor(Direction::Down));
    bus.commands.push_back(Command::Cancel);
    bus.commands.push_back(Command::Confirm);
    placement_system(&mut bus, &mut b.state, &b.components.owner, &mut b.components.position);
    assert_eq!(bus.events.iter().copied().collect::<Vec<_>>(), vec![GameEvent::CardDeselected]);
    assert_eq!(b.components.position.at(ent(3)), Some(Position::Hand(3)));
    assert!(director_system(&bus, &mut b.state, &b.components));
    assert_eq!(
        b.state,
        State::Turn { phase: TurnPhase::SelectCard { cursor: 3, entity: ent(3) }, player: Player::P1 }
    );
}

#[test]
fn all_tens_capture_but_ties_do_not() {
    let mut b = battle();
    let db = db_with(&[
        (1, stats(10, 10, 10, 10)),
        (5, stats(1, 1, 1, 9)),
        (7, stats(10, 1, 1, 1)),
        (8, stats(1, 9, 1, 1)),
    ]);
    // entity 0 (card 1, P1) in the center; P2 cards to its right, above and to its left
    b.components.position.insert(ent(0), Position::Board(cell(1, 1)));
    b.components.position.insert(ent(5), Position::Board(cell(2, 1)));
    b.components.position.insert(ent(6), Position::Board(cell(1, 2)));
    b.components.position.insert(ent(7), Position::Board(cell(0, 1)));
    b.state = State::Turn { phase: TurnPhase::ResolveRules { entity: ent(0) }, player: Player::P1 };
    let mut bus = Bus::new();
    rule_system(&mut bus, &b.state, &b.components, &db);
    // left neighbour (right 9) and right neighbour (left 9) fall; the one below ties on 10
    assert_eq!(bus.flips.iter().copied().collect::<Vec<_>>(), vec![ent(7), ent(5)]);
}

#[test]
fn own_neighbors_are_never_captured() {
    let mut b = battle();
    let db = db_with(&[(1, stats(10, 10, 10, 10)), (2, stats(0, 0, 0, 0))]);
    b.components.position.insert(ent(0), Position::Board(cell(0, 0)));
    b.components.position.insert(ent(1), Position::Board(cell(1, 0)));
    b.state = State::Turn { phase: TurnPhase::ResolveRules { entity: ent(0) }, player: Player::P1 };
    let mut bus = Bus::new();
    rule_system(&mut bus, &b.state, &b.components, &db);
    assert!(bus.flips.is_empty());
}

#[test]
fn rules_look_only_at_real_neighbors() {
    let mut b = battle();
    let db = db_with(&[(1, stats(10, 10, 10, 10))]);
    // a P2 card at the far end of the row is not adjacent across the edge
    b.components.position.insert(ent(0), Position::Board(cell(0, 0)));
    b.components.position.insert(ent(5), Position::Board(cell(2, 0)));
    b.state = State::Turn { phase: TurnPhase::ResolveRules { entity: ent(0) }, player: Player::P1 };
    let mut bus = Bus::new();
    rule_system(&mut bus, &b.state, &b.components, &db);
    assert!(bus.flips.is_empty());
}

#[test]
fn flipping_twice_restores_owner() {
    let mut b = battle();
    let mut bus = Bus::new();
    bus.flips.push_back(ent(2));
    bus.flips.push_back(ent(2));
    flip_system(&mut bus, &mut b.components.owner);
    assert_eq!(b.components.owner.at(ent(2)), Some(Player::P1));
    assert_eq!(bus.events.len(), 2);
}

#[test]
fn director_covers_every_phase() {
    let mut b = battle();
    let empty = Bus::new();
    b.state = State::Turn { phase: TurnPhase::SelectCard { cursor: 2, entity: ent(2) }, player: Player::P1 };
    assert!(director_system(&empty, &mut b.state, &b.components));
    assert_eq!(
        b.state,
        State::Turn { phase: TurnPhase::SelectCard { cursor: 2, entity: ent(2) }, player: Player::P1 }
    );
    b.state = State::Turn {
        phase: TurnPhase::PlaceCard { cursor: cell(0, 0), entity: ent(2) },
        player: Player::P1,
    };
    assert!(director_system(&empty, &mut b.state, &b.components));
    assert_eq!(
        b.state,
        State::Turn {
            phase: TurnPhase::PlaceCard { cursor: cell(0, 0), entity: ent(2) },
            player: Player::P1,
        }
    );
    b.state = State::Turn { phase: TurnPhase::ResolveRules { entity: ent(2) }, player: Player::P1 };
    assert!(director_system(&empty, &mut b.state, &b.components));
    assert_eq!(b.state, State::Turn { phase: TurnPhase::End, player: Player::P1 });
    assert!(director_system(&empty, &mut b.state, &b.components));
    assert_eq!(b.state, State::Turn { phase: TurnPhase::Start, player: Player::P2 });
    assert!(director_system(&empty, &mut b.state, &b.components));
    assert_eq!(
        b.state,
        State::Turn { phase: TurnPhase::SelectCard { cursor: 0, entity: ent(5) }, player: Player::P2 }
    );
    b.state = State::End { result: BattleResult::Draw };
    assert!(director_system(&empty, &mut b.state, &b.components));
    assert_eq!(b.state, State::End { result: BattleResult::Draw });
}

#[test]
fn quit_stops_without_changing_state() {
    let mut b = battle();
    let mut bus = Bus::new();
    bus.commands.push_back(Command::Quit);
    assert!(!director_system(&bus, &mut b.state, &b.components));
    assert_eq!(b.state, State::Start);
}

#[test]
fn owned_entity_needs_the_owner() {
    let b = battle();
    assert_eq!(
        get_owned_entity(Player::P2, Position::Hand(0), &b.components.owner, &b.components.position),
        Some(ent(5))
    );
    assert_eq!(
        get_owned_entity(Player::P1, Position::Hand(4), &b.components.owner, &b.components.position),
        Some(ent(4))
    );
    assert_eq!(
        get_owned_entity(Player::P1, Position::Hand(5), &b.components.owner, &b.components.position),
        None
    );
}

#[test]
fn bus_clear_empties_queues() {
    let mut bus = Bus::new();
    bus.commands.push_back(Command::Confirm);
    bus.events.push_back(GameEvent::CardPlaced);
    bus.flips.push_back(ent(1));
    bus.clear();
    assert!(bus.commands.is_empty() && bus.events.is_empty() && bus.flips.is_empty());
}

#[test]
fn last_free_confirm_wins() {
    let mut b = battle();
    b.state = State::Turn {
        phase: TurnPhase::PlaceCard { cursor: BoardCoords::center(), entity: ent(0) },
        player: Player::P1,
    };
    let mut bus = Bus::new();
    bus.commands.push_back(Command::Confirm);
    bus.commands.push_back(Command::MoveCursor(Direction::Right));
    bus.commands.push_back(Command::Confirm);
    bus.commands.push_back(Command::MoveCursor(Direction::Down));
    placement_system(&mut bus, &mut b.state, &b.components.owner, &mut b.components.position);
    assert_eq!(b.components.position.at(ent(0)), Some(Position::Board(cell(2, 1))));
    assert_eq!(
        b.state,
        State::Turn { phase: TurnPhase::PlaceCard { cursor: cell(2, 2), entity: ent(0) }, player: Player::P1 }
    );
    assert_eq!(bus.events.iter().copied().collect::<Vec<_>>(), vec![GameEvent::CardPlaced]);
}

#[test]
fn cancel_overrides_a_confirmed_cell() {
    let mut b = battle();
    b.state = State::Turn {
        phase: TurnPhase::PlaceCard { cursor: BoardCoords::center(), entity: ent(1) },
        player: Player::P1,
    };
    let mut bus = Bus::new();
    bus.commands.push_back(Command::Confirm);
    bus.commands.push_back(Command::Cancel);
    placement_system(&mut bus, &mut b.state, &b.components.owner, &mut b.components.position);
    assert_eq!(b.components.position.at(ent(1)), Some(Position::Hand(1)));
    assert_eq!(bus.events.iter().copied().collect::<Vec<_>>(), vec![GameEvent::CardDeselected]);
}

#[test]
fn confirm_selects_the_card_under_the_cursor_at_that_moment() {
    let mut b = battle();
    b.state = State::Turn {
        phase: TurnPhase::SelectCard { cursor: 0, entity: ent(0) },
        player: Player::P1,
    };
    let mut bus = Bus::new();
    bus.commands.push_back(Command::Confirm);
    bus.commands.push_back(Command::MoveCursor(Direction::Down));
    selection_system(&mut bus, &mut b.state, &b.components);
    assert_eq!(
        bus.events.iter().copied().collect::<Vec<_>>(),
        vec![GameEvent::CardSelected { target: ent(0) }]
    );
    assert_eq!(
        b.state,
        State::Turn { phase: TurnPhase::SelectCard { cursor: 1, entity: ent(1) }, player: Player::P1 }
    );
}

//! The per-tick systems of a match: selection, placement, rule resolution, flips, the win check
//! and the director that advances the turn state.
use vstd::prelude::*;

use std::collections::VecDeque;

use crate::battle::{
    board_cell, cells_distinct, cells_valid, dealt, dealt_card, lemma_slot_count_bound,
    lemma_slot_count_drop_one, lemma_slot_first, slot_count,
    slot_entity, slot_first, BattleResult, BattleSetup, BoardCoords, ComponentArray, Components,
    Direction, Entity, Player, Position, State, TurnPhase,
};
use crate::card::{CardDb, Stats};
use crate::event::{
    find_result, find_selected, first_result, first_selected, has_command, has_event, Bus,
    Command, GameEvent, MatchResult,
};
use crate::query::{
    card_view_of, get_card_view, get_owned_entity, get_placed_entity, hand_size, in_hand,
    in_hand_of, owned_at, placed_at, spec_hand_size, CardView,
};
use crate::rules::{spec_wrap_decr, spec_wrap_incr, wrap_decr, wrap_incr};

verus! {

broadcast use Entity::lemma_from_index, ComponentArray::lemma_len;

// ========================================= Selection =============================================

/// The selection cursor after the commands `cmds`, in a hand of `size` cards: `Down` moves it
/// forward and `Up` back, both wrapping round; an empty hand keeps it still.
pub open spec fn select_cursor(cmds: Seq<Command>, cursor: nat, size: nat) -> nat
    decreases cmds.len(),
{
    if cmds.len() == 0 {
        cursor
    } else {
        let c = select_cursor(cmds.drop_last(), cursor, size);
        if size == 0 {
            c
        } else {
            match cmds.last() {
                Command::MoveCursor(Direction::Down) => spec_wrap_incr(c, size),
                Command::MoveCursor(Direction::Up) => spec_wrap_decr(c, size),
                _ => c,
            }
        }
    }
}

/// The card of `player` at hand index `cursor`.
pub open spec fn hand_card(c: &Components, player: Player, cursor: usize) -> Option<Entity> {
    slot_entity(slot_first(owned_at(c.owner@, c.position@, player, Position::Hand(cursor)), 0))
}

/// The card chosen by the commands `cmds`: the card under the cursor at the last `Confirm`,
/// where the cursor moves as [`select_cursor`] says. `None` when no confirm came in, or no card
/// lies under the cursor at the last one.
pub open spec fn selected_target(
    cmds: Seq<Command>,
    cursor: nat,
    size: nat,
    c: &Components,
    player: Player,
) -> Option<Entity>
    decreases cmds.len(),
{
    if cmds.len() == 0 {
        None
    } else if cmds.last() == Command::Confirm {
        hand_card(c, player, select_cursor(cmds.drop_last(), cursor, size) as usize)
    } else {
        selected_target(cmds.drop_last(), cursor, size, c, player)
    }
}

/// While a card is being chosen: moves the cursor through the current player's hand in command
/// order, keeps the chosen entity on the card under the cursor where it ends, and reports
/// `CardSelected` for the card that was under the cursor at the last confirm, if one was there.
pub fn selection_system(bus: &mut Bus, state: &mut State, components: &Components)
    ensures
        final(bus).commands@ == old(bus).commands@,
        final(bus).flips@ == old(bus).flips@,
        match *old(state) {
            State::Turn { phase: TurnPhase::SelectCard { cursor, entity }, player } => {
                let size = spec_hand_size(components.owner@, components.position@, player);
                let c = select_cursor(old(bus).commands@, cursor as nat, size) as usize;
                let found = hand_card(components, player, c);
                let target = selected_target(
                    old(bus).commands@,
                    cursor as nat,
                    size,
                    components,
                    player,
                );
                &&& *final(state) == State::Turn {
                    phase: TurnPhase::SelectCard {
                        cursor: c,
                        entity: if found is Some {
                            found->0
                        } else {
                            entity
                        },
                    },
                    player,
                }
                &&& final(bus).events@ == if target is Some {
                    old(bus).events@.push(GameEvent::CardSelected { target: target->0 })
                } else {
                    old(bus).events@
                }
            },
            _ => *final(state) == *old(state) && final(bus).events@ == old(bus).events@,
        },
{
    let (cursor0, entity0, player) = match *state {
        State::Turn { phase: TurnPhase::SelectCard { cursor, entity }, player } => (
            cursor,
            entity,
            player,
        ),
        _ => return ,
    };
    let size = hand_size(player, &components.owner, &components.position);
    let mut cursor = cursor0;
    let mut target: Option<Entity> = None;
    let mut i: usize = 0;
    while i < bus.commands.len()
        invariant
            i <= bus.commands@.len(),
            size == spec_hand_size(components.owner@, components.position@, player),
            cursor as nat == select_cursor(
                bus.commands@.take(i as int),
                cursor0 as nat,
                size as nat,
            ),
            target == selected_target(
                bus.commands@.take(i as int),
                cursor0 as nat,
                size as nat,
                components,
                player,
            ),
        decreases bus.commands@.len() - i,
    {
        let ghost before = bus.commands@.take(i as int);
        let ghost after = bus.commands@.take(i + 1);
        assert(after.drop_last() =~= before);
        let cmd = bus.commands[i];
        if cmd == Command::Confirm {
            target = get_owned_entity(
                player,
                Position::Hand(cursor),
                &components.owner,
                &components.position,
            );
        }
        if size > 0 {
            match cmd {
                Command::MoveCursor(Direction::Down) => {
                    cursor = wrap_incr(cursor, size);
                },
                Command::MoveCursor(Direction::Up) => {
                    cursor = wrap_decr(cursor, size);
                },
                _ => {},
            }
        }
        i = i + 1;
    }
    assert(bus.commands@.take(i as int) =~= bus.commands@);
    if let Some(t) = target {
        bus.events.push_back(GameEvent::CardSelected { target: t });
    }
    let found = get_owned_entity(
        player,
        Position::Hand(cursor),
        &components.owner,
        &components.position,
    );
    let entity = match found {
        Some(e) => e,
        None => entity0,
    };
    *state = State::Turn { phase: TurnPhase::SelectCard { cursor, entity }, player };
}

// ========================================= Director ==============================================

/// The hand index that the selection cursor returns to when `entity` is put back.
pub open spec fn deselect_cursor(positions: Seq<Option<Position>>, entity: Entity) -> usize {
    match positions[entity@ as int] {
        Some(Position::Hand(j)) => j,
        _ => 0,
    }
}

/// The final state that a match result leads to.
pub open spec fn battle_result(r: MatchResult) -> BattleResult {
    match r {
        MatchResult::Draw => BattleResult::Draw,
        MatchResult::Winner(p) => BattleResult::Win(p),
    }
}

/// The state after one director step from `state`, given the events of the tick.
///
/// Every state has a successor; where the event that a phase waits for is missing, the state
/// stays as it is.
pub open spec fn director_next(state: State, events: Seq<GameEvent>, c: &Components) -> State {
    match state {
        State::Start => State::Turn { phase: TurnPhase::Start, player: Player::P1 },
        State::Turn { phase, player } => match phase {
            TurnPhase::Start => match slot_entity(
                slot_first(owned_at(c.owner@, c.position@, player, Position::Hand(0)), 0),
            ) {
                Some(e) => State::Turn {
                    phase: TurnPhase::SelectCard { cursor: 0, entity: e },
                    player,
                },
                None => state,
            },
            TurnPhase::SelectCard { .. } => match first_selected(events, 0) {
                Some(t) => State::Turn {
                    phase: TurnPhase::PlaceCard { cursor: BoardCoords::spec_center(), entity: t },
                    player,
                },
                None => state,
            },
            TurnPhase::PlaceCard { entity, .. } => if events.contains(GameEvent::CardDeselected) {
                State::Turn {
                    phase: TurnPhase::SelectCard {
                        cursor: deselect_cursor(c.position@, entity),
                        entity,
                    },
                    player,
                }
            } else if events.contains(GameEvent::CardPlaced) {
                State::Turn { phase: TurnPhase::ResolveRules { entity }, player }
            } else {
                state
            },
            TurnPhase::ResolveRules { .. } => State::Turn { phase: TurnPhase::End, player },
            TurnPhase::End => match first_result(events, 0) {
                Some(r) => State::End { result: battle_result(r) },
                None => State::Turn { phase: TurnPhase::Start, player: player.opponent() },
            },
        },
        State::End { .. } => state,
    }
}

/// A finished match stays finished, whatever the events.
pub proof fn lemma_end_is_terminal(result: BattleResult, events: Seq<GameEvent>, c: &Components)
    ensures
        director_next(State::End { result }, events, c) == (State::End { result }),
{
}

/// With no events, the phases that wait for input keep their state, and the others move on.
pub proof fn lemma_director_without_events(state: State, c: &Components)
    ensures
        match state {
            State::Start => director_next(state, seq![], c) == (State::Turn {
                phase: TurnPhase::Start,
                player: Player::P1,
            }),
            State::Turn { phase, player } => match phase {
                TurnPhase::Start => true,
                TurnPhase::SelectCard { .. } => director_next(state, seq![], c) == state,
                TurnPhase::PlaceCard { .. } => director_next(state, seq![], c) == state,
                TurnPhase::ResolveRules { .. } => director_next(state, seq![], c) == (State::Turn {
                    phase: TurnPhase::End,
                    player,
                }),
                TurnPhase::End => director_next(state, seq![], c) == (State::Turn {
                    phase: TurnPhase::Start,
                    player: player.opponent(),
                }),
            },
            State::End { .. } => director_next(state, seq![], c) == state,
        },
{
    let none: Seq<GameEvent> = seq![];
    assert(!none.contains(GameEvent::CardDeselected));
    assert(!none.contains(GameEvent::CardPlaced));
}

/// Advances the turn state by one step from the events of the tick.
///
/// Returns `false`, and leaves the state as it is, when a `Quit` command came in.
pub fn director_system(bus: &Bus, state: &mut State, components: &Components) -> (running: bool)
    ensures
        running == !bus.commands@.contains(Command::Quit),
        running ==> *final(state) == director_next(*old(state), bus.events@, components),
        !running ==> *final(state) == *old(state),
{
    if has_command(&bus.commands, Command::Quit) {
        return false;
    }
    let next = match *state {
        State::Start => State::Turn { phase: TurnPhase::Start, player: Player::P1 },
        State::Turn { phase, player } => match phase {
            TurnPhase::Start => match get_owned_entity(
                player,
                Position::Hand(0),
                &components.owner,
                &components.position,
            ) {
                Some(e) => State::Turn {
                    phase: TurnPhase::SelectCard { cursor: 0, entity: e },
                    player,
                },
                None => *state,
            },
            TurnPhase::SelectCard { .. } => match find_selected(&bus.events) {
                Some(t) => State::Turn {
                    phase: TurnPhase::PlaceCard { cursor: BoardCoords::center(), entity: t },
                    player,
                },
                None => *state,
            },
            TurnPhase::PlaceCard { entity, .. } => {
                if has_event(&bus.events, GameEvent::CardDeselected) {
                    let cursor = match components.position.at(entity) {
                        Some(Position::Hand(j)) => j,
                        _ => 0,
                    };
                    State::Turn { phase: TurnPhase::SelectCard { cursor, entity }, player }
                } else if has_event(&bus.events, GameEvent::CardPlaced) {
                    State::Turn { phase: TurnPhase::ResolveRules { entity }, player }
                } else {
                    *state
                }
            },
            TurnPhase::ResolveRules { .. } => State::Turn { phase: TurnPhase::End, player },
            TurnPhase::End => match find_result(&bus.events) {
                Some(MatchResult::Draw) => State::End { result: BattleResult::Draw },
                Some(MatchResult::Winner(p)) => State::End { result: BattleResult::Win(p) },
                None => State::Turn { phase: TurnPhase::Start, player: player.opponent() },
            },
        },
        State::End { .. } => *state,
    };
    *state = next;
    true
}

// ========================================= Placement =============================================

/// What the commands of a tick do to a placement in progress: where the board cursor ends,
/// the cell of the last confirm on a free cell, and whether a cancel came in.
#[derive(Clone, Copy, Debug, PartialEq, Eq, Structural)]
pub struct PlacementScan {
    pub cursor: BoardCoords,
    pub staged: Option<BoardCoords>,
    pub cancelled: bool,
}

/// Some card lies on `cell`.
pub open spec fn occupied(positions: Seq<Option<Position>>, cell: BoardCoords) -> bool {
    slot_first(placed_at(positions, Position::Board(cell)), 0) is Some
}

/// The scan of the commands `cmds` from the board cursor `cursor`. Every command is read in
/// order: cursor moves wrap round the board, a confirm on a taken cell is ignored, and a confirm
/// on a free cell stages that cell, a later one replacing an earlier one.
pub open spec fn place_scan(
    cmds: Seq<Command>,
    cursor: BoardCoords,
    positions: Seq<Option<Position>>,
) -> PlacementScan
    decreases cmds.len(),
{
    if cmds.len() == 0 {
        PlacementScan { cursor, staged: None, cancelled: false }
    } else {
        let s = place_scan(cmds.drop_last(), cursor, positions);
        match cmds.last() {
            Command::Cancel => PlacementScan {
                cursor: s.cursor,
                staged: s.staged,
                cancelled: true,
            },
            Command::Confirm => if !occupied(positions, s.cursor) {
                PlacementScan { cursor: s.cursor, staged: Some(s.cursor), cancelled: s.cancelled }
            } else {
                s
            },
            Command::MoveCursor(d) => PlacementScan {
                cursor: s.cursor.spec_moved(d),
                staged: s.staged,
                cancelled: s.cancelled,
            },
            Command::Quit => s,
        }
    }
}

/// A staged cell is free.
pub proof fn lemma_staged_cell_is_free(
    cmds: Seq<Command>,
    cursor: BoardCoords,
    positions: Seq<Option<Position>>,
)
    ensures
        place_scan(cmds, cursor, positions).staged matches Some(c) ==> !occupied(positions, c),
    decreases cmds.len(),
{
    if cmds.len() > 0 {
        lemma_staged_cell_is_free(cmds.drop_last(), cursor, positions);
    }
}

/// The positions after the scan `scan` for the card `e`: `None` when nothing is placed, because
/// no free cell was confirmed, a cancel came in, or `e` is not in a hand.
pub open spec fn scan_positions(
    scan: PlacementScan,
    positions: Seq<Option<Position>>,
    owners: Seq<Option<Player>>,
    e: Entity,
) -> Option<Seq<Option<Position>>> {
    if scan.cancelled {
        None
    } else {
        match scan.staged {
            Some(cell) => placed_positions(positions, owners, e, cell),
            None => None,
        }
    }
}

/// A hand position above index `i` moves down by one; any other position stays.
pub open spec fn closed_gap(p: Option<Position>, i: usize) -> Option<Position> {
    match p {
        Some(Position::Hand(k)) => if k > i {
            Some(Position::Hand((k - 1) as usize))
        } else {
            p
        },
        _ => p,
    }
}

/// The positions after `e` goes from its hand to `cell`: the other hand cards of the same owner
/// above its old index close the gap. `None` when `e` is not in a hand.
pub open spec fn placed_positions(
    positions: Seq<Option<Position>>,
    owners: Seq<Option<Player>>,
    e: Entity,
    cell: BoardCoords,
) -> Option<Seq<Option<Position>>> {
    match positions[e@ as int] {
        Some(Position::Hand(i)) => Some(
            Seq::new(
                10,
                |j: int|
                    if j == e@ {
                        Some(Position::Board(cell))
                    } else if owners[j] == owners[e@ as int] {
                        closed_gap(positions[j], i)
                    } else {
                        positions[j]
                    },
            ),
        ),
        _ => None,
    }
}

/// The hand index of a position, if it is one.
pub open spec fn hand_index(p: Option<Position>) -> Option<usize> {
    match p {
        Some(Position::Hand(k)) => Some(k),
        _ => None,
    }
}

/// Some card of `player` sits at hand index `k`.
pub open spec fn hand_has(
    owners: Seq<Option<Player>>,
    positions: Seq<Option<Position>>,
    player: Player,
    k: int,
) -> bool {
    exists|j: int|
        0 <= j < 10 && #[trigger] in_hand(owners, positions, player, j) && hand_index(positions[j])
            == Some(k as usize)
}

/// The cards that `player` holds sit at hand indices 0 to n - 1, one card at each, where n is
/// the size of the hand.
pub open spec fn hand_dense(
    owners: Seq<Option<Player>>,
    positions: Seq<Option<Position>>,
    player: Player,
) -> bool {
    let n = spec_hand_size(owners, positions, player);
    &&& forall|j: int|
        0 <= j < 10 && #[trigger] in_hand(owners, positions, player, j) ==> hand_index(
            positions[j],
        )->0 < n
    &&& forall|i: int, j: int|
        0 <= i < 10 && 0 <= j < 10 && i != j && #[trigger] in_hand(owners, positions, player, i)
            && #[trigger] in_hand(owners, positions, player, j) ==> hand_index(positions[i])
            != hand_index(positions[j])
    &&& forall|k: int| 0 <= k < n ==> #[trigger] hand_has(owners, positions, player, k)
}

proof fn lemma_dealt_hand_dense(c: &Components, setup: BattleSetup, player: Player)
    requires
        dealt(c, setup),
    ensures
        hand_dense(c.owner@, c.position@, player),
        spec_hand_size(c.owner@, c.position@, player) == 5,
{
    let o = c.owner@;
    let ps = c.position@;
    let base: int = if player == Player::P1 {
        0
    } else {
        5
    };
    assert forall|j: int| 0 <= j < 10 implies #[trigger] in_hand(o, ps, player, j) == (base <= j
        < base + 5) by {
        assert(c.card@[j] == Some(dealt_card(setup, j)));
    }
    let p = in_hand_of(o, ps, player);
    assert forall|j: int| 0 <= j < 10 implies #[trigger] p(j) == (base <= j < base + 5) by {
        assert(in_hand(o, ps, player, j) == (base <= j < base + 5));
    }
    reveal_with_fuel(slot_count, 11);
    assert(spec_hand_size(o, ps, player) == 5);
    assert forall|j: int| 0 <= j < 10 && #[trigger] in_hand(o, ps, player, j) implies hand_index(
        ps[j],
    ) == Some((j - base) as usize) by {
        assert(c.card@[j] == Some(dealt_card(setup, j)));
    }
    assert forall|k: int| 0 <= k < 5 implies #[trigger] hand_has(o, ps, player, k) by {
        assert(in_hand(o, ps, player, base + k));
        assert(hand_index(ps[base + k]) == Some(k as usize));
    }
}

/// At the start of a match both hands hold five cards at hand indices 0 to 4.
pub proof fn lemma_dealt_hands_dense(c: &Components, setup: BattleSetup)
    requires
        dealt(c, setup),
    ensures
        hand_dense(c.owner@, c.position@, Player::P1),
        hand_dense(c.owner@, c.position@, Player::P2),
        spec_hand_size(c.owner@, c.position@, Player::P1) == 5,
        spec_hand_size(c.owner@, c.position@, Player::P2) == 5,
{
    lemma_dealt_hand_dense(c, setup, Player::P1);
    lemma_dealt_hand_dense(c, setup, Player::P2);
}

/// Placing a card from a dense hand leaves the rest of that hand dense, one card smaller.
pub proof fn lemma_placement_keeps_hand_dense(
    positions: Seq<Option<Position>>,
    owners: Seq<Option<Player>>,
    e: Entity,
    cell: BoardCoords,
    player: Player,
)
    requires
        positions.len() == 10,
        owners.len() == 10,
        e@ < 10,
        owners[e@ as int] == Some(player),
        positions[e@ as int] matches Some(Position::Hand(_)),
        hand_dense(owners, positions, player),
    ensures
        placed_positions(positions, owners, e, cell) is Some,
        hand_dense(owners, placed_positions(positions, owners, e, cell)->0, player),
        spec_hand_size(owners, placed_positions(positions, owners, e, cell)->0, player) + 1
            == spec_hand_size(owners, positions, player),
{
    let new = placed_positions(positions, owners, e, cell)->0;
    let i = hand_index(positions[e@ as int])->0;
    let ei = e@ as int;
    let n = spec_hand_size(owners, positions, player);
    assert(in_hand(owners, positions, player, ei));
    assert forall|j: int| 0 <= j < 10 && j != ei implies in_hand(owners, new, player, j) == in_hand(
        owners,
        positions,
        player,
        j,
    ) && (in_hand(owners, positions, player, j) ==> hand_index(new[j]) == Some(
        if hand_index(positions[j])->0 > i {
            (hand_index(positions[j])->0 - 1) as usize
        } else {
            hand_index(positions[j])->0
        },
    )) by {}
    assert(!in_hand(owners, new, player, ei));
    lemma_slot_count_drop_one(
        in_hand_of(owners, positions, player),
        in_hand_of(owners, new, player),
        ei,
        0,
    );
    assert(spec_hand_size(owners, new, player) + 1 == n);
    lemma_slot_count_bound(in_hand_of(owners, positions, player), 0);
    assert(n <= 10);
    assert(i < n);
    assert forall|j: int|
        0 <= j < 10 && #[trigger] in_hand(owners, new, player, j) implies hand_index(new[j])->0
            < n - 1 by {
        assert(j != ei);
        assert(in_hand(owners, positions, player, j));
        assert(hand_index(positions[j]) != hand_index(positions[ei]));
    }
    assert forall|a: int, b: int|
        0 <= a < 10 && 0 <= b < 10 && a != b && #[trigger] in_hand(owners, new, player, a)
            && #[trigger] in_hand(owners, new, player, b) implies hand_index(new[a]) != hand_index(
        new[b],
    ) by {
        assert(a != ei && b != ei);
        assert(in_hand(owners, positions, player, a) && in_hand(owners, positions, player, b));
        assert(hand_index(positions[a]) != hand_index(positions[ei]));
        assert(hand_index(positions[b]) != hand_index(positions[ei]));
        assert(hand_index(positions[a]) != hand_index(positions[b]));
    }
    assert forall|k: int| 0 <= k < n - 1 implies #[trigger] hand_has(owners, new, player, k) by {
        let k2: int = if k < i {
            k
        } else {
            k + 1
        };
        assert(0 <= k2 < n);
        assert(hand_has(owners, positions, player, k2));
        let j = choose|j: int|
            0 <= j < 10 && #[trigger] in_hand(owners, positions, player, j) && hand_index(
                positions[j],
            ) == Some(k2 as usize);
        assert(k2 as usize == k2);
        assert(hand_index(positions[j])->0 == k2);
        assert(j != ei);
        assert(in_hand(owners, new, player, j));
        assert(hand_index(new[j]) == Some(k as usize));
    }
}

fn scan_commands(
    cmds: &VecDeque<Command>,
    cursor: BoardCoords,
    positions: &ComponentArray<Position>,
) -> (r: PlacementScan)
    ensures
        r == place_scan(cmds@, cursor, positions@),
{
    let mut scan = PlacementScan { cursor, staged: None, cancelled: false };
    let mut i: usize = 0;
    while i < cmds.len()
        invariant
            i <= cmds@.len(),
            scan == place_scan(cmds@.take(i as int), cursor, positions@),
        decreases cmds@.len() - i,
    {
        let ghost before = cmds@.take(i as int);
        let ghost after = cmds@.take(i + 1);
        assert(after.drop_last() =~= before);
        let c = scan.cursor;
        match cmds[i] {
            Command::Cancel => {
                scan = PlacementScan { cursor: c, staged: scan.staged, cancelled: true };
            },
            Command::Confirm => {
                if get_placed_entity(Position::Board(c), positions).is_none() {
                    scan = PlacementScan { cursor: c, staged: Some(c), cancelled: scan.cancelled };
                }
            },
            Command::MoveCursor(d) => {
                let moved = match d {
                    Direction::Down => c.moved_down(),
                    Direction::Left => c.moved_left(),
                    Direction::Right => c.moved_right(),
                    Direction::Up => c.moved_up(),
                };
                scan = PlacementScan {
                    cursor: moved,
                    staged: scan.staged,
                    cancelled: scan.cancelled,
                };
            },
            Command::Quit => {},
        }
        i = i + 1;
    }
    assert(cmds@.take(i as int) =~= cmds@);
    scan
}

/// Placing a card from its hand onto a cell of the board keeps every board position on the
/// board.
pub proof fn lemma_placement_keeps_cells_valid(
    positions: Seq<Option<Position>>,
    owners: Seq<Option<Player>>,
    e: Entity,
    cell: BoardCoords,
)
    requires
        cells_valid(positions),
        cell@.0 < 3,
        cell@.1 < 3,
        positions[e@ as int] matches Some(Position::Hand(_)),
    ensures
        cells_valid(placed_positions(positions, owners, e, cell)->0),
{
    let new = placed_positions(positions, owners, e, cell)->0;
    assert forall|j: int| 0 <= j < 10 implies (#[trigger] board_cell(new[j]) matches Some(b)
        ==> b@.0 < 3 && b@.1 < 3) by {
        if j != e@ {
            assert(board_cell(new[j]) == board_cell(positions[j]));
        }
    }
}

/// While a cell is being chosen: moves the board cursor through every command of the tick. A
/// cancel anywhere in the tick puts the card back and reports `CardDeselected`, whatever was
/// confirmed. Otherwise the last confirm over a free cell moves the card from its owner's hand
/// onto that cell, closes the gap in that hand and reports `CardPlaced`. At most one card per
/// cell, and every card on the board, carry over.
pub fn placement_system(
    bus: &mut Bus,
    state: &mut State,
    owners: &ComponentArray<Player>,
    positions: &mut ComponentArray<Position>,
)
    ensures
        final(bus).commands@ == old(bus).commands@,
        final(bus).flips@ == old(bus).flips@,
        cells_valid(old(positions)@) ==> cells_valid(final(positions)@),
        cells_distinct(old(positions)@) ==> cells_distinct(final(positions)@),
        match *old(state) {
            State::Turn { phase: TurnPhase::PlaceCard { cursor, entity }, player } => {
                let scan = place_scan(old(bus).commands@, cursor, old(positions)@);
                let placed = scan_positions(scan, old(positions)@, owners@, entity);
                &&& *final(state) == State::Turn {
                    phase: TurnPhase::PlaceCard { cursor: scan.cursor, entity },
                    player,
                }
                &&& scan.cancelled ==> final(positions)@ == old(positions)@ && final(bus).events@
                    == old(bus).events@.push(GameEvent::CardDeselected)
                &&& placed is Some ==> final(positions)@ == placed->0 && final(bus).events@
                    == old(bus).events@.push(GameEvent::CardPlaced)
                &&& !scan.cancelled && placed is None ==> final(positions)@ == old(positions)@
                    && final(bus).events@ == old(bus).events@
            },
            _ => *final(state) == *old(state) && final(positions)@ == old(positions)@
                && final(bus).events@ == old(bus).events@,
        },
{
    let (cursor0, entity, player) = match *state {
        State::Turn { phase: TurnPhase::PlaceCard { cursor, entity }, player } => (
            cursor,
            entity,
            player,
        ),
        _ => return ,
    };
    let scan = scan_commands(&bus.commands, cursor0, positions);
    *state = State::Turn { phase: TurnPhase::PlaceCard { cursor: scan.cursor, entity }, player };
    if scan.cancelled {
        bus.events.push_back(GameEvent::CardDeselected);
        return ;
    }
    let c = match scan.staged {
        Some(c) => c,
        None => return ,
    };
    let hand_index = match positions.at(entity) {
        Some(Position::Hand(i)) => i,
        _ => return ,
    };
    let _ = c.x();
    let _ = c.y();
    let ei = entity.index();
    let ghost old_positions = positions@;
    let ghost target = placed_positions(old_positions, owners@, entity, c)->0;
    proof {
        lemma_staged_cell_is_free(old(bus).commands@, cursor0, old_positions);
        if cells_valid(old_positions) {
            lemma_placement_keeps_cells_valid(old_positions, owners@, entity, c);
        }
        if cells_distinct(old_positions) {
            lemma_placement_keeps_cells_distinct(old_positions, owners@, entity, c);
        }
    }
    let owner = owners.at(entity);
    positions.set(entity, Some(Position::Board(c)));
    let mut k: u8 = 0;
    assert(target[ei as int] == Some(Position::Board(c)));
    assert(positions@ =~= Seq::new(
        10,
        |j: int|
            if j < k || j == entity@ {
                target[j]
            } else {
                old_positions[j]
            },
    ));
    while k < 10
        invariant
            k <= 10,
            old_positions == old(positions)@,
            target == placed_positions(old_positions, owners@, entity, c)->0,
            owner == owners@[entity@ as int],
            ei == entity@,
            ei < 10,
            old_positions[entity@ as int] == Some(Position::Hand(hand_index)),
            positions@ == Seq::new(
                10,
                |j: int|
                    if j < k || j == entity@ {
                        target[j]
                    } else {
                        old_positions[j]
                    },
            ),
        decreases 10 - k,
    {
        let other = Entity::new(k).unwrap();
        if other != entity && owners.at(other) == owner {
            match positions.at(other) {
                Some(Position::Hand(j)) => {
                    if j > hand_index {
                        positions.set(other, Some(Position::Hand(j - 1)));
                    }
                },
                _ => {},
            }
        }
        proof {
            Entity::lemma_view_injective(other, entity);
        }
        assert(positions@ =~= Seq::new(
            10,
            |j: int|
                if j < k + 1 || j == entity@ {
                    target[j]
                } else {
                    old_positions[j]
                },
        ));
        k = k + 1;
    }
    assert(positions@ =~= target);
    bus.events.push_back(GameEvent::CardPlaced);
}

// ====================================== Rule resolution ==========================================

/// The stat on the edge of a card that faces `dir`.
pub open spec fn edge(s: Stats, dir: Direction) -> u8 {
    match dir {
        Direction::Down => s.btm,
        Direction::Left => s.lft,
        Direction::Right => s.rgt,
        Direction::Up => s.top,
    }
}

/// The direction opposite `dir`.
pub open spec fn opposite(dir: Direction) -> Direction {
    match dir {
        Direction::Down => Direction::Up,
        Direction::Left => Direction::Right,
        Direction::Right => Direction::Left,
        Direction::Up => Direction::Down,
    }
}

/// The card view of the lowest entity on `cell`.
pub open spec fn card_on(c: &Components, db: &CardDb, cell: BoardCoords) -> Option<CardView> {
    match slot_entity(slot_first(placed_at(c.position@, Position::Board(cell)), 0)) {
        Some(n) => card_view_of(c, db, n),
        None => None,
    }
}

/// `attacker`, facing `defender` in direction `dir`, takes it: they belong to different players
/// and the attacker's edge is strictly above the defender's opposing edge.
pub open spec fn beats(attacker: CardView, defender: CardView, dir: Direction) -> bool {
    attacker.owner != defender.owner && edge(attacker.stats, dir) > edge(
        defender.stats,
        opposite(dir),
    )
}

/// The entity that `placed`, lying on `at`, captures in direction `dir`, if any.
pub open spec fn capture_toward(
    c: &Components,
    db: &CardDb,
    placed: CardView,
    at: BoardCoords,
    dir: Direction,
) -> Option<Entity> {
    match at.spec_neighbor(dir) {
        Some(n) => match card_on(c, db, n) {
            Some(d) => if beats(placed, d, dir) {
                Some(d.entity)
            } else {
                None
            },
            None => None,
        },
        None => None,
    }
}

/// The one-element sequence of a present entity, or the empty one.
pub open spec fn opt_seq(o: Option<Entity>) -> Seq<Entity> {
    match o {
        Some(e) => seq![e],
        None => seq![],
    }
}

/// The entities that the card of `e` captures, if it lies on the board: left, right, up, then
/// down, each direction judged on its own against the card as placed.
pub open spec fn captures(c: &Components, db: &CardDb, e: Entity) -> Seq<Entity> {
    match card_view_of(c, db, e) {
        Some(v) => match v.position {
            Position::Board(at) => opt_seq(capture_toward(c, db, v, at, Direction::Left)) + opt_seq(
                capture_toward(c, db, v, at, Direction::Right),
            ) + opt_seq(capture_toward(c, db, v, at, Direction::Up)) + opt_seq(
                capture_toward(c, db, v, at, Direction::Down),
            ),
            Position::Hand(_) => seq![],
        },
        None => seq![],
    }
}

/// Capture is judged per direction: the neighbour in direction `dir` is captured exactly when
/// the placed card beats it across that one edge, whatever lies in the other directions.
pub proof fn lemma_capture_per_direction(
    c: &Components,
    db: &CardDb,
    placed: CardView,
    at: BoardCoords,
    dir: Direction,
    n: BoardCoords,
    d: CardView,
)
    requires
        at.spec_neighbor(dir) == Some(n),
        card_on(c, db, n) == Some(d),
    ensures
        capture_toward(c, db, placed, at, dir) == if beats(placed, d, dir) {
            Some(d.entity)
        } else {
            None
        },
{
}

/// A card whose four edges are all 10 captures every opposing neighbour whose facing edge is
/// below 10.
pub proof fn lemma_all_tens_capture(
    c: &Components,
    db: &CardDb,
    placed: CardView,
    at: BoardCoords,
    dir: Direction,
    n: BoardCoords,
    d: CardView,
)
    requires
        placed.stats == (Stats { top: 10, rgt: 10, btm: 10, lft: 10 }),
        at.spec_neighbor(dir) == Some(n),
        card_on(c, db, n) == Some(d),
        d.owner != placed.owner,
        edge(d.stats, opposite(dir)) < 10,
    ensures
        capture_toward(c, db, placed, at, dir) == Some(d.entity),
{
}

/// A tie on the facing edges never captures, whatever the other edges do.
pub proof fn lemma_tie_never_captures(
    c: &Components,
    db: &CardDb,
    placed: CardView,
    at: BoardCoords,
    dir: Direction,
    n: BoardCoords,
    d: CardView,
)
    requires
        at.spec_neighbor(dir) == Some(n),
        card_on(c, db, n) == Some(d),
        edge(placed.stats, dir) == edge(d.stats, opposite(dir)),
    ensures
        capture_toward(c, db, placed, at, dir) is None,
{
}

/// A card never captures a neighbour of its own owner, whatever the stats.
pub proof fn lemma_no_self_capture(
    c: &Components,
    db: &CardDb,
    placed: CardView,
    at: BoardCoords,
    dir: Direction,
    n: BoardCoords,
    d: CardView,
)
    requires
        at.spec_neighbor(dir) == Some(n),
        card_on(c, db, n) == Some(d),
        d.owner == placed.owner,
    ensures
        capture_toward(c, db, placed, at, dir) is None,
{
}

/// Rule resolution never queues a card of the placed card's own owner: every captured entity
/// has a card view, and its owner differs from the placed card's.
pub proof fn lemma_captures_are_opponents(c: &Components, db: &CardDb, e: Entity)
    ensures
        forall|k: int|
            0 <= k < captures(c, db, e).len() ==> {
                let x = #[trigger] captures(c, db, e)[k];
                &&& card_view_of(c, db, x) is Some
                &&& card_view_of(c, db, e) is Some
                &&& card_view_of(c, db, x)->0.owner != card_view_of(c, db, e)->0.owner
            },
{
}

proof fn lemma_concat_contains(a: Seq<Entity>, b: Seq<Entity>, x: Entity)
    ensures
        (a + b).contains(x) <==> a.contains(x) || b.contains(x),
{
    if a.contains(x) {
        let i = choose|i: int| 0 <= i < a.len() && a[i] == x;
        assert((a + b)[i] == x);
    }
    if b.contains(x) {
        let i = choose|i: int| 0 <= i < b.len() && b[i] == x;
        assert((a + b)[a.len() + i] == x);
    }
    if (a + b).contains(x) {
        let i = choose|i: int| 0 <= i < (a + b).len() && (a + b)[i] == x;
        if i < a.len() {
            assert(a[i] == x);
        } else {
            assert(b[i - a.len()] == x);
        }
    }
}

/// With at most one card per cell, the lowest card on the cell of `n` is `n`.
proof fn lemma_card_on_cell(positions: Seq<Option<Position>>, n: Entity, cell: BoardCoords)
    requires
        cells_distinct(positions),
        n@ < 10,
        positions[n@ as int] == Some(Position::Board(cell)),
    ensures
        slot_entity(slot_first(placed_at(positions, Position::Board(cell)), 0)) == Some(n),
{
    let p = placed_at(positions, Position::Board(cell));
    lemma_slot_first(p, 0);
    assert(p(n@ as int));
    let j = slot_first(p, 0)->0;
    assert(p(j as int));
    if j != n@ {
        assert(board_cell(positions[j as int]) == board_cell(positions[n@ as int]));
    }
    Entity::lemma_from_view(n);
}

/// With at most one card per cell: a card `n` on the cell next to the placed card `e` in
/// direction `dir` ends up in the flip queue exactly when `e` beats it across that edge. The
/// comparisons in the other directions never queue it.
pub proof fn lemma_neighbor_captured_iff(
    c: &Components,
    db: &CardDb,
    e: Entity,
    at: BoardCoords,
    dir: Direction,
    cell: BoardCoords,
    n: Entity,
)
    requires
        cells_distinct(c.position@),
        n@ < 10,
        card_view_of(c, db, e) is Some,
        card_view_of(c, db, e)->0.position == Position::Board(at),
        at.spec_neighbor(dir) == Some(cell),
        c.position@[n@ as int] == Some(Position::Board(cell)),
        card_view_of(c, db, n) is Some,
    ensures
        captures(c, db, e).contains(n) <==> beats(
            card_view_of(c, db, e)->0,
            card_view_of(c, db, n)->0,
            dir,
        ),
{
    let v = card_view_of(c, db, e)->0;
    let d = card_view_of(c, db, n)->0;
    lemma_card_on_cell(c.position@, n, cell);
    assert(capture_toward(c, db, v, at, dir) == if beats(v, d, dir) {
        Some(n)
    } else {
        None
    });
    assert forall|d2: Direction| d2 != dir implies capture_toward(c, db, v, at, d2) != Some(n) by {
        at.lemma_neighbors_differ(dir, d2);
        if let Some(n2) = at.spec_neighbor(d2) {
            let p2 = placed_at(c.position@, Position::Board(n2));
            lemma_slot_first(p2, 0);
            if let Some(j) = slot_first(p2, 0) {
                assert(p2(j as int));
                if capture_toward(c, db, v, at, d2) == Some(n) {
                    assert(card_view_of(c, db, Entity::from_index(j))->0.entity == n);
                    assert(Entity::from_index(j) == n);
                    assert(c.position@[n@ as int] == Some(Position::Board(n2)));
                }
            }
        }
    }
    let l = opt_seq(capture_toward(c, db, v, at, Direction::Left));
    let r = opt_seq(capture_toward(c, db, v, at, Direction::Right));
    let u = opt_seq(capture_toward(c, db, v, at, Direction::Up));
    let w = opt_seq(capture_toward(c, db, v, at, Direction::Down));
    assert forall|o: Option<Entity>| #[trigger] opt_seq(o).contains(n) <==> o == Some(n) by {
        if o == Some(n) {
            assert(opt_seq(o)[0] == n);
        }
    }
    lemma_concat_contains(l, r, n);
    lemma_concat_contains(l + r, u, n);
    lemma_concat_contains(l + r + u, w, n);
}

/// With at most one card per cell, a card whose four edges are all 10 captures every opposing
/// neighbour whose facing edge is below 10.
pub proof fn lemma_all_tens_capture_neighbor(
    c: &Components,
    db: &CardDb,
    e: Entity,
    at: BoardCoords,
    dir: Direction,
    cell: BoardCoords,
    n: Entity,
)
    requires
        cells_distinct(c.position@),
        n@ < 10,
        card_view_of(c, db, e) is Some,
        card_view_of(c, db, e)->0.position == Position::Board(at),
        card_view_of(c, db, e)->0.stats == (Stats { top: 10, rgt: 10, btm: 10, lft: 10 }),
        at.spec_neighbor(dir) == Some(cell),
        c.position@[n@ as int] == Some(Position::Board(cell)),
        card_view_of(c, db, n) is Some,
        card_view_of(c, db, n)->0.owner != card_view_of(c, db, e)->0.owner,
        edge(card_view_of(c, db, n)->0.stats, opposite(dir)) < 10,
    ensures
        captures(c, db, e).contains(n),
{
    lemma_neighbor_captured_iff(c, db, e, at, dir, cell, n);
}

/// With at most one card per cell, a tie on the facing edges never queues the neighbour,
/// whatever the other edges do.
pub proof fn lemma_tie_never_captures_neighbor(
    c: &Components,
    db: &CardDb,
    e: Entity,
    at: BoardCoords,
    dir: Direction,
    cell: BoardCoords,
    n: Entity,
)
    requires
        cells_distinct(c.position@),
        n@ < 10,
        card_view_of(c, db, e) is Some,
        card_view_of(c, db, e)->0.position == Position::Board(at),
        at.spec_neighbor(dir) == Some(cell),
        c.position@[n@ as int] == Some(Position::Board(cell)),
        card_view_of(c, db, n) is Some,
        edge(card_view_of(c, db, e)->0.stats, dir) == edge(
            card_view_of(c, db, n)->0.stats,
            opposite(dir),
        ),
    ensures
        !captures(c, db, e).contains(n),
{
    lemma_neighbor_captured_iff(c, db, e, at, dir, cell, n);
}

fn edge_of(s: Stats, dir: Direction) -> (r: u8)
    ensures
        r == edge(s, dir),
{
    match dir {
        Direction::Down => s.btm,
        Direction::Left => s.lft,
        Direction::Right => s.rgt,
        Direction::Up => s.top,
    }
}

fn opposite_of(dir: Direction) -> (r: Direction)
    ensures
        r == opposite(dir),
{
    match dir {
        Direction::Down => Direction::Up,
        Direction::Left => Direction::Right,
        Direction::Right => Direction::Left,
        Direction::Up => Direction::Down,
    }
}

fn find_capture(
    components: &Components,
    card_db: &CardDb,
    placed: &CardView,
    at: BoardCoords,
    dir: Direction,
) -> (r: Option<Entity>)
    ensures
        r == capture_toward(components, card_db, *placed, at, dir),
{
    let n = match at.neighbor(dir) {
        Some(n) => n,
        None => return None,
    };
    let ne = match get_placed_entity(Position::Board(n), &components.position) {
        Some(ne) => ne,
        None => return None,
    };
    let d = match get_card_view(ne, components, card_db) {
        Some(d) => d,
        None => return None,
    };
    if placed.owner != d.owner && edge_of(placed.stats, dir) > edge_of(d.stats, opposite_of(dir)) {
        Some(d.entity)
    } else {
        None
    }
}

/// While the rules are resolved: queues for flipping each neighbour that the placed card
/// captures.
pub fn rule_system(bus: &mut Bus, state: &State, components: &Components, card_db: &CardDb)
    ensures
        final(bus).commands@ == old(bus).commands@,
        final(bus).events@ == old(bus).events@,
        final(bus).flips@ == old(bus).flips@ + match *state {
            State::Turn { phase: TurnPhase::ResolveRules { entity }, .. } => captures(
                components,
                card_db,
                entity,
            ),
            _ => seq![],
        },
{
    let entity = match *state {
        State::Turn { phase: TurnPhase::ResolveRules { entity }, .. } => entity,
        _ => {
            assert(old(bus).flips@ + seq![] =~= old(bus).flips@);
            return ;
        },
    };
    let placed = match get_card_view(entity, components, card_db) {
        Some(v) => v,
        None => {
            assert(old(bus).flips@ + seq![] =~= old(bus).flips@);
            return ;
        },
    };
    let at = match placed.position {
        Position::Board(at) => at,
        Position::Hand(_) => {
            assert(old(bus).flips@ + seq![] =~= old(bus).flips@);
            return ;
        },
    };
    let ghost flips0 = bus.flips@;
    let left = find_capture(components, card_db, &placed, at, Direction::Left);
    let right = find_capture(components, card_db, &placed, at, Direction::Right);
    let up = find_capture(components, card_db, &placed, at, Direction::Up);
    let down = find_capture(components, card_db, &placed, at, Direction::Down);
    if let Some(e) = left {
        bus.flips.push_back(e);
    }
    assert(bus.flips@ =~= flips0 + opt_seq(left));
    if let Some(e) = right {
        bus.flips.push_back(e);
    }
    assert(bus.flips@ =~= flips0 + opt_seq(left) + opt_seq(right));
    if let Some(e) = up {
        bus.flips.push_back(e);
    }
    assert(bus.flips@ =~= flips0 + opt_seq(left) + opt_seq(right) + opt_seq(up));
    if let Some(e) = down {
        bus.flips.push_back(e);
    }
    assert(bus.flips@ =~= flips0 + (opt_seq(left) + opt_seq(right) + opt_seq(up) + opt_seq(down)));
}

// ========================================= Win check =============================================

/// Slot `j` holds a card on the board.
pub open spec fn on_board(positions: Seq<Option<Position>>) -> spec_fn(int) -> bool {
    |j: int| positions[j] matches Some(Position::Board(_))
}

/// Slot `j` holds a card that `player` owns.
pub open spec fn owned_by(owners: Seq<Option<Player>>, player: Player) -> spec_fn(int) -> bool {
    |j: int| owners[j] == Some(player)
}

/// The number of cards on the board.
pub open spec fn placed_count(positions: Seq<Option<Position>>) -> nat {
    slot_count(on_board(positions), 0)
}

/// The number of cards that `player` owns, on the board or in a hand.
pub open spec fn score(owners: Seq<Option<Player>>, player: Player) -> nat {
    slot_count(owned_by(owners, player), 0)
}

/// How the match ends once the board is full: a draw on equal scores, else a win for the player
/// who owns more cards. `None` while a cell is free.
pub open spec fn match_outcome(
    owners: Seq<Option<Player>>,
    positions: Seq<Option<Position>>,
) -> Option<MatchResult> {
    if placed_count(positions) < 9 {
        None
    } else if score(owners, Player::P1) == score(owners, Player::P2) {
        Some(MatchResult::Draw)
    } else if score(owners, Player::P1) > score(owners, Player::P2) {
        Some(MatchResult::Winner(Player::P1))
    } else {
        Some(MatchResult::Winner(Player::P2))
    }
}

/// Row-major index of a cell.
pub open spec fn cell_index(b: BoardCoords) -> int {
    (b@.1 * 3 + b@.0) as int
}

/// The indices of the cells taken by slots `from` to 9.
pub open spec fn cells_from(positions: Seq<Option<Position>>, from: nat) -> Set<int>
    decreases 10 - from,
{
    if from >= 10 {
        Set::empty()
    } else {
        match board_cell(positions[from as int]) {
            Some(b) => cells_from(positions, from + 1).insert(cell_index(b)),
            None => cells_from(positions, from + 1),
        }
    }
}

proof fn lemma_cells_from(positions: Seq<Option<Position>>, from: nat)
    requires
        cells_distinct(positions),
        cells_valid(positions),
    ensures
        cells_from(positions, from).finite(),
        cells_from(positions, from).len() == slot_count(on_board(positions), from),
        cells_from(positions, from).subset_of(vstd::set_lib::set_int_range(0, 9)),
        forall|x: int|
            #[trigger] cells_from(positions, from).contains(x) ==> exists|j: int|
                from <= j < 10 && #[trigger] board_cell(positions[j]) is Some && cell_index(
                    board_cell(positions[j])->0,
                ) == x,
    decreases 10 - from,
{
    if from < 10 {
        lemma_cells_from(positions, from + 1);
        let rest = cells_from(positions, from + 1);
        match board_cell(positions[from as int]) {
            Some(b) => {
                assert(b@.0 < 3 && b@.1 < 3);
                assert(!rest.contains(cell_index(b))) by {
                    if rest.contains(cell_index(b)) {
                        let j = choose|j: int|
                            from + 1 <= j < 10 && #[trigger] board_cell(positions[j]) is Some
                                && cell_index(board_cell(positions[j])->0) == cell_index(b);
                        let b2 = board_cell(positions[j])->0;
                        assert(b2@.0 < 3 && b2@.1 < 3);
                        assert(b2@ == b@);
                        BoardCoords::lemma_view_injective(b, b2);
                        assert(board_cell(positions[from as int]) != board_cell(positions[j]));
                    }
                }
            },
            None => {},
        }
    }
}

/// With at most one card per cell, no more than nine cards lie on the board.
pub proof fn lemma_placed_count_at_most_nine(positions: Seq<Option<Position>>)
    requires
        cells_distinct(positions),
        cells_valid(positions),
    ensures
        placed_count(positions) <= 9,
{
    lemma_cells_from(positions, 0);
    vstd::set_lib::lemma_int_range(0, 9);
    vstd::set_lib::lemma_len_subset(cells_from(positions, 0), vstd::set_lib::set_int_range(0, 9));
}

/// Placing a card from its hand onto a free cell keeps at most one card on every cell.
pub proof fn lemma_placement_keeps_cells_distinct(
    positions: Seq<Option<Position>>,
    owners: Seq<Option<Player>>,
    e: Entity,
    cell: BoardCoords,
)
    requires
        positions.len() == 10,
        e@ < 10,
        positions[e@ as int] matches Some(Position::Hand(_)),
        cells_distinct(positions),
        !occupied(positions, cell),
    ensures
        cells_distinct(placed_positions(positions, owners, e, cell)->0),
{
    let new = placed_positions(positions, owners, e, cell)->0;
    let ei = e@ as int;
    lemma_slot_first(placed_at(positions, Position::Board(cell)), 0);
    assert forall|j: int| 0 <= j < 10 && j != ei implies #[trigger] board_cell(new[j])
        == board_cell(positions[j]) by {}
    assert forall|i: int, j: int|
        0 <= i < 10 && 0 <= j < 10 && i != j && #[trigger] board_cell(new[i]) is Some
            implies board_cell(new[i]) != #[trigger] board_cell(new[j]) by {
        if i == ei {
            assert(board_cell(new[j]) == board_cell(positions[j]));
            assert(!placed_at(positions, Position::Board(cell))(j));
        } else if j == ei {
            assert(board_cell(new[i]) == board_cell(positions[i]));
            assert(!placed_at(positions, Position::Board(cell))(i));
        } else {
            assert(board_cell(new[i]) == board_cell(positions[i]));
            assert(board_cell(new[j]) == board_cell(positions[j]));
        }
    }
}

/// The win check reports nothing while fewer than nine cards lie on the board.
pub proof fn lemma_no_outcome_before_full(
    owners: Seq<Option<Player>>,
    positions: Seq<Option<Position>>,
)
    requires
        placed_count(positions) < 9,
    ensures
        match_outcome(owners, positions) is None,
{
}

fn count_placed(positions: &ComponentArray<Position>) -> (r: usize)
    ensures
        r == placed_count(positions@),
{
    let ghost p = on_board(positions@);
    let mut i: u8 = 0;
    let mut n: usize = 0;
    while i < 10
        invariant
            i <= 10,
            n <= i,
            p == on_board(positions@),
            n + slot_count(p, i as nat) == slot_count(p, 0),
        decreases 10 - i,
    {
        let e = Entity::new(i).unwrap();
        if let Some(Position::Board(_)) = positions.at(e) {
            n = n + 1;
        }
        i = i + 1;
    }
    n
}

fn count_owned(owners: &ComponentArray<Player>, player: Player) -> (r: usize)
    ensures
        r == score(owners@, player),
{
    let ghost p = owned_by(owners@, player);
    let mut i: u8 = 0;
    let mut n: usize = 0;
    while i < 10
        invariant
            i <= 10,
            n <= i,
            p == owned_by(owners@, player),
            n + slot_count(p, i as nat) == slot_count(p, 0),
        decreases 10 - i,
    {
        let e = Entity::new(i).unwrap();
        if owners.at(e) == Some(player) {
            n = n + 1;
        }
        i = i + 1;
    }
    n
}

/// At the end of a turn, reports the end of the match once all nine cells are taken.
pub fn win_system(bus: &mut Bus, state: &State, components: &Components)
    ensures
        final(bus).commands@ == old(bus).commands@,
        final(bus).flips@ == old(bus).flips@,
        final(bus).events@ == if (*state matches State::Turn { phase: TurnPhase::End, .. })
            && match_outcome(components.owner@, components.position@) is Some {
            old(bus).events@.push(
                GameEvent::MatchEnded(match_outcome(components.owner@, components.position@)->0),
            )
        } else {
            old(bus).events@
        },
{
    if !matches!(*state, State::Turn { phase: TurnPhase::End, .. }) {
        return;
    }
    let placed = count_placed(&components.position);
    if placed < 9 {
        return;
    }
    let p1 = count_owned(&components.owner, Player::P1);
    let p2 = count_owned(&components.owner, Player::P2);
    let result = if p1 == p2 {
        MatchResult::Draw
    } else if p1 > p2 {
        MatchResult::Winner(Player::P1)
    } else {
        MatchResult::Winner(Player::P2)
    };
    bus.events.push_back(GameEvent::MatchEnded(result));
}

// =========================================== Flips ===============================================

/// The owners after toggling, in order, the owner of each entity of `flips` that has one.
pub open spec fn flipped_owners(owners: Seq<Option<Player>>, flips: Seq<Entity>) -> Seq<
    Option<Player>,
>
    decreases flips.len(),
{
    if flips.len() == 0 {
        owners
    } else {
        let prev = flipped_owners(owners, flips.drop_last());
        let e = flips.last();
        match prev[e@ as int] {
            Some(p) => prev.update(e@ as int, Some(p.opponent())),
            None => prev,
        }
    }
}

/// How many entries of `flips` name an entity with an owner, that is, how many flips happen.
pub open spec fn flip_count(owners: Seq<Option<Player>>, flips: Seq<Entity>) -> nat
    decreases flips.len(),
{
    if flips.len() == 0 {
        0
    } else {
        flip_count(owners, flips.drop_last()) + if flipped_owners(owners, flips.drop_last())[
            flips.last()@ as int] is Some {
            1nat
        } else {
            0nat
        }
    }
}

/// Toggles the owner of each entity in the flip queue and reports each flip.
pub fn flip_system(bus: &mut Bus, owners: &mut ComponentArray<Player>)
    ensures
        final(owners)@ == flipped_owners(old(owners)@, old(bus).flips@),
        final(bus).events@ == old(bus).events@ + Seq::new(
            flip_count(old(owners)@, old(bus).flips@),
            |i: int| GameEvent::CardFlipped,
        ),
        final(bus).commands@ == old(bus).commands@,
        final(bus).flips@ == old(bus).flips@,
{
    let ghost owners0 = owners@;
    let ghost events0 = bus.events@;
    let mut i: usize = 0;
    while i < bus.flips.len()
        invariant
            i <= bus.flips@.len(),
            bus.flips@ == old(bus).flips@,
            bus.commands@ == old(bus).commands@,
            owners0 == old(owners)@,
            events0 == old(bus).events@,
            owners@ == flipped_owners(owners0, bus.flips@.take(i as int)),
            bus.events@ == events0 + Seq::new(
                flip_count(owners0, bus.flips@.take(i as int)),
                |k: int| GameEvent::CardFlipped,
            ),
        decreases bus.flips@.len() - i,
    {
        let e = bus.flips[i];
        let ghost before = bus.flips@.take(i as int);
        let ghost after = bus.flips@.take(i + 1);
        assert(after.drop_last() =~= before);
        assert(after.last() == e);
        match owners.at(e) {
            Some(p) => {
                owners.set(e, Some(p.opponent()));
                bus.events.push_back(GameEvent::CardFlipped);
            },
            None => {},
        }
        assert(bus.events@ =~= events0 + Seq::new(
            flip_count(owners0, after),
            |k: int| GameEvent::CardFlipped,
        ));
        i = i + 1;
    }
    assert(bus.flips@.take(i as int) =~= bus.flips@);
}

} // verus!

//! Entities, board coordinates, the component store and the turn state of a match.
use vstd::prelude::*;

use crate::card::CardId;

verus! {

/// Side length of the square board.
pub const BOARD_SIZE: usize = 3;

/// Number of entity slots in a match: five cards per player.
pub const ENTITY_COUNT: usize = 10;

/// Number of cards each player holds at the start of a match.
pub const HAND_SIZE: usize = 5;

// =========================================== Entity ==============================================

/// Identifier of one card instance in a match, always below [`Entity::MAX`].
#[derive(Clone, Copy, Debug, PartialEq, Eq, Structural)]
pub struct Entity(u8);

impl View for Entity {
    type V = nat;

    closed spec fn view(&self) -> nat {
        self.0 as nat
    }
}

impl Entity {
    pub const MAX: u8 = 10;

    #[verifier::type_invariant]
    spec fn in_range(self) -> bool {
        self.0 < 10
    }

    /// The entity with slot `index`, or `None` when `index` is not below [`Entity::MAX`].
    pub fn new(index: u8) -> (r: Option<Entity>)
        ensures
            r is Some <==> index < 10,
            r matches Some(e) ==> e@ == index,
    {
        if index < Self::MAX {
            Some(Entity(index))
        } else {
            None
        }
    }

    /// The slot of this entity.
    pub fn index(self) -> (r: usize)
        ensures
            r == self@,
            r < 10,
    {
        proof {
            use_type_invariant(self);
        }
        self.0 as usize
    }

    /// All ten entities in ascending order.
    pub fn iter() -> (r: EntityIter)
        ensures
            r@ == Seq::new(10, |i: int| i as nat),
    {
        EntityIter { front: 0, back: Self::MAX }
    }

    pub proof fn lemma_view_injective(a: Entity, b: Entity)
        ensures
            a@ == b@ <==> a == b,
    {
    }

    /// The entity with slot `i`, for `i` below ten.
    pub closed spec fn from_index(i: nat) -> Entity {
        Entity(i as u8)
    }

    pub broadcast proof fn lemma_from_index(i: nat)
        requires
            i < 10,
        ensures
            (#[trigger] Entity::from_index(i))@ == i,
    {
    }

    pub broadcast proof fn lemma_from_view(e: Entity)
        ensures
            Entity::from_index(#[trigger] e@) == e,
    {
    }
}

/// The entities not yet handed out, in ascending order, taken from either end.
pub struct EntityIter {
    front: u8,
    back: u8,
}

impl View for EntityIter {
    type V = Seq<nat>;

    closed spec fn view(&self) -> Seq<nat> {
        Seq::new((self.back - self.front) as nat, |i: int| (self.front + i) as nat)
    }
}

impl EntityIter {
    #[verifier::type_invariant]
    spec fn well_formed(self) -> bool {
        self.front <= self.back <= 10
    }

    /// Takes the lowest remaining entity.
    pub fn next(&mut self) -> (r: Option<Entity>)
        ensures
            old(self)@.len() == 0 ==> r is None && final(self)@ == old(self)@,
            old(self)@.len() > 0 ==> (r matches Some(e) && e@ == old(self)@[0]),
            old(self)@.len() > 0 ==> final(self)@ == old(self)@.drop_first(),
    {
        proof {
            use_type_invariant(&*self);
        }
        if self.front < self.back {
            let e = Entity(self.front);
            self.front = self.front + 1;
            proof {
                assert(final(self)@ =~= old(self)@.drop_first());
            }
            Some(e)
        } else {
            None
        }
    }

    /// Takes the highest remaining entity.
    pub fn next_back(&mut self) -> (r: Option<Entity>)
        ensures
            old(self)@.len() == 0 ==> r is None && final(self)@ == old(self)@,
            old(self)@.len() > 0 ==> (r matches Some(e) && e@ == old(self)@.last()),
            old(self)@.len() > 0 ==> final(self)@ == old(self)@.drop_last(),
    {
        proof {
            use_type_invariant(&*self);
        }
        if self.front < self.back {
            self.back = self.back - 1;
            proof {
                assert(final(self)@ =~= old(self)@.drop_last());
            }
            Some(Entity(self.back))
        } else {
            None
        }
    }

    /// Number of entities left.
    pub fn len(&self) -> (r: usize)
        ensures
            r == self@.len(),
    {
        proof {
            use_type_invariant(self);
        }
        (self.back - self.front) as usize
    }
}

// =========================================== Player ==============================================

/// One of the two players.
#[derive(Clone, Copy, Debug, PartialEq, Eq, Structural)]
pub enum Player {
    P1,
    P2,
}

impl Player {
    pub open spec fn spec_opponent(self) -> Player {
        match self {
            Player::P1 => Player::P2,
            Player::P2 => Player::P1,
        }
    }

    /// The other player.
    #[verifier::when_used_as_spec(spec_opponent)]
    pub fn opponent(self) -> (r: Player)
        ensures
            r == self.spec_opponent(),
    {
        match self {
            Player::P1 => Player::P2,
            Player::P2 => Player::P1,
        }
    }
}

// ========================================== Position =============================================

/// Where a card lies: on a board cell, or at an index of its owner's hand.
#[derive(Clone, Copy, Debug, PartialEq, Eq, Structural)]
pub enum Position {
    Board(BoardCoords),
    Hand(usize),
}

/// Board coordinates with both axes below [`BOARD_SIZE`].
///
/// ```txt
///      x=0 x=1 x=2
///     +---+---+---+
/// y=0 |   |   |   |
///     +---+---+---+
/// y=1 |   |   |   |
///     +---+---+---+
/// y=2 |   |   |   |
///     +---+---+---+
/// ```
#[derive(Clone, Copy, Debug, PartialEq, Eq, Structural)]
pub struct BoardCoords(usize, usize);

impl View for BoardCoords {
    type V = (nat, nat);

    closed spec fn view(&self) -> (nat, nat) {
        (self.0 as nat, self.1 as nat)
    }
}

/// Cardinal direction on the board.
#[derive(Clone, Copy, Debug, PartialEq, Eq, Structural)]
pub enum Direction {
    Down,
    Left,
    Right,
    Up,
}

/// `(v + 1) mod 3`.
pub open spec fn wrap_up(v: nat) -> nat {
    (v + 1) % 3
}

/// `(v - 1) mod 3`, on values below 3.
pub open spec fn wrap_down(v: nat) -> nat {
    if v == 0 {
        2
    } else {
        (v - 1) as nat
    }
}

/// The cell next to `(x, y)` in direction `dir`, when it lies on the board.
pub open spec fn spec_neighbor(c: (nat, nat), dir: Direction) -> Option<(nat, nat)> {
    match dir {
        Direction::Down => if c.1 < 2 { Some((c.0, c.1 + 1)) } else { None },
        Direction::Left => if c.0 > 0 { Some(((c.0 - 1) as nat, c.1)) } else { None },
        Direction::Right => if c.0 < 2 { Some((c.0 + 1, c.1)) } else { None },
        Direction::Up => if c.1 > 0 { Some((c.0, (c.1 - 1) as nat)) } else { None },
    }
}

impl BoardCoords {
    #[verifier::type_invariant]
    spec fn in_range(self) -> bool {
        self.0 < 3 && self.1 < 3
    }

    pub proof fn lemma_view_injective(a: BoardCoords, b: BoardCoords)
        ensures
            a@ == b@ <==> a == b,
    {
    }

    /// The center cell.
    pub closed spec fn spec_center() -> BoardCoords {
        BoardCoords(1, 1)
    }

    /// The cell one step away in direction `dir`, wrapping round at the edges.
    pub closed spec fn spec_moved(self, dir: Direction) -> BoardCoords {
        match dir {
            Direction::Down => BoardCoords(self.0, ((self.1 + 1) % 3) as usize),
            Direction::Left => BoardCoords(((self.0 + 2) % 3) as usize, self.1),
            Direction::Right => BoardCoords(((self.0 + 1) % 3) as usize, self.1),
            Direction::Up => BoardCoords(self.0, ((self.1 + 2) % 3) as usize),
        }
    }

    /// The adjacent cell in direction `dir`, when it lies on the board.
    pub closed spec fn spec_neighbor(self, dir: Direction) -> Option<BoardCoords> {
        match dir {
            Direction::Down => if self.1 < 2 {
                Some(BoardCoords(self.0, (self.1 + 1) as usize))
            } else {
                None
            },
            Direction::Left => if self.0 > 0 {
                Some(BoardCoords((self.0 - 1) as usize, self.1))
            } else {
                None
            },
            Direction::Right => if self.0 < 2 {
                Some(BoardCoords((self.0 + 1) as usize, self.1))
            } else {
                None
            },
            Direction::Up => if self.1 > 0 {
                Some(BoardCoords(self.0, (self.1 - 1) as usize))
            } else {
                None
            },
        }
    }

    /// The neighbours in two different directions are different cells.
    pub proof fn lemma_neighbors_differ(self, a: Direction, b: Direction)
        ensures
            a != b && self.spec_neighbor(a) is Some ==> self.spec_neighbor(a) != self.spec_neighbor(
                b,
            ),
    {
    }

    /// The center cell, where the placement cursor lands.
    pub fn center() -> (r: BoardCoords)
        ensures
            r == BoardCoords::spec_center(),
            r@ == (1nat, 1nat),
    {
        BoardCoords(1, 1)
    }

    /// The cell `(x, y)`, or `None` when an axis is not below [`BOARD_SIZE`].
    pub fn new(x: usize, y: usize) -> (r: Option<BoardCoords>)
        ensures
            r is Some <==> x < 3 && y < 3,
            r matches Some(c) ==> c@ == (x as nat, y as nat),
    {
        if x < BOARD_SIZE && y < BOARD_SIZE {
            Some(BoardCoords(x, y))
        } else {
            None
        }
    }

    /// Row-major index of the cell, `y * 3 + x`.
    pub fn index(&self) -> (r: usize)
        ensures
            r == self@.1 * 3 + self@.0,
            r < 9,
    {
        proof {
            use_type_invariant(self);
        }
        self.1 * BOARD_SIZE + self.0
    }

    pub fn x(&self) -> (r: usize)
        ensures
            r == self@.0,
            r < 3,
    {
        proof {
            use_type_invariant(self);
        }
        self.0
    }

    pub fn y(&self) -> (r: usize)
        ensures
            r == self@.1,
            r < 3,
    {
        proof {
            use_type_invariant(self);
        }
        self.1
    }

    /// One row down, wrapping from the bottom row to the top one.
    pub fn moved_down(&self) -> (r: BoardCoords)
        ensures
            r == self.spec_moved(Direction::Down),
            r@ == (self@.0, wrap_up(self@.1)),
    {
        proof {
            use_type_invariant(self);
        }
        BoardCoords(self.0, (self.1 + 1) % BOARD_SIZE)
    }

    /// One column left, wrapping from the left column to the right one.
    pub fn moved_left(&self) -> (r: BoardCoords)
        ensures
            r == self.spec_moved(Direction::Left),
            r@ == (wrap_down(self@.0), self@.1),
    {
        proof {
            use_type_invariant(self);
        }
        BoardCoords((self.0 + BOARD_SIZE - 1) % BOARD_SIZE, self.1)
    }

    /// One column right, wrapping from the right column to the left one.
    pub fn moved_right(&self) -> (r: BoardCoords)
        ensures
            r == self.spec_moved(Direction::Right),
            r@ == (wrap_up(self@.0), self@.1),
    {
        proof {
            use_type_invariant(self);
        }
        BoardCoords((self.0 + 1) % BOARD_SIZE, self.1)
    }

    /// One row up, wrapping from the top row to the bottom one.
    pub fn moved_up(&self) -> (r: BoardCoords)
        ensures
            r == self.spec_moved(Direction::Up),
            r@ == (self@.0, wrap_down(self@.1)),
    {
        proof {
            use_type_invariant(self);
        }
        BoardCoords(self.0, (self.1 + BOARD_SIZE - 1) % BOARD_SIZE)
    }

    /// The adjacent cell in direction `dir`; `None` at the edge of the board.
    pub fn neighbor(&self, dir: Direction) -> (r: Option<BoardCoords>)
        ensures
            r == self.spec_neighbor(dir),
            r matches Some(c) ==> spec_neighbor(self@, dir) == Some(c@),
            r is None ==> spec_neighbor(self@, dir) is None,
    {
        proof {
            use_type_invariant(self);
        }
        match dir {
            Direction::Down => if self.1 < BOARD_SIZE - 1 {
                Some(BoardCoords(self.0, self.1 + 1))
            } else {
                None
            },
            Direction::Left => if self.0 > 0 {
                Some(BoardCoords(self.0 - 1, self.1))
            } else {
                None
            },
            Direction::Right => if self.0 < BOARD_SIZE - 1 {
                Some(BoardCoords(self.0 + 1, self.1))
            } else {
                None
            },
            Direction::Up => if self.1 > 0 {
                Some(BoardCoords(self.0, self.1 - 1))
            } else {
                None
            },
        }
    }
}

// ========================================= Components ============================================

/// The lowest slot from `from` up to the last one that satisfies `p`.
pub open spec fn slot_first(p: spec_fn(int) -> bool, from: nat) -> Option<nat>
    decreases 10 - from,
{
    if from >= 10 {
        None
    } else if p(from as int) {
        Some(from)
    } else {
        slot_first(p, from + 1)
    }
}

/// The entity of a slot found by [`slot_first`].
pub open spec fn slot_entity(j: Option<nat>) -> Option<Entity> {
    match j {
        Some(j) => Some(Entity::from_index(j)),
        None => None,
    }
}

/// How many slots from `from` up to the last one satisfy `p`.
pub open spec fn slot_count(p: spec_fn(int) -> bool, from: nat) -> nat
    decreases 10 - from,
{
    if from >= 10 {
        0
    } else {
        (if p(from as int) { 1nat } else { 0nat }) + slot_count(p, from + 1)
    }
}

/// A slot found by [`slot_first`] satisfies `p`, and no slot before it does.
pub proof fn lemma_slot_first(p: spec_fn(int) -> bool, from: nat)
    ensures
        slot_first(p, from) matches Some(j) ==> from <= j < 10 && p(j as int) && forall|k: int|
            from <= k < j ==> !#[trigger] p(k),
        slot_first(p, from) is None ==> forall|k: int| from <= k < 10 ==> !#[trigger] p(k),
    decreases 10 - from,
{
    if from < 10 {
        lemma_slot_first(p, from + 1);
    }
}

/// Turning `p` false on the one slot `e` lowers the count by one, from any slot up to `e`.
pub proof fn lemma_slot_count_drop_one(
    p: spec_fn(int) -> bool,
    q: spec_fn(int) -> bool,
    e: int,
    from: nat,
)
    requires
        0 <= e < 10,
        p(e),
        !q(e),
        forall|j: int| 0 <= j < 10 && j != e ==> #[trigger] p(j) == q(j),
    ensures
        from <= e ==> slot_count(q, from) + 1 == slot_count(p, from),
        from > e ==> slot_count(q, from) == slot_count(p, from),
    decreases 10 - from,
{
    if from < 10 {
        lemma_slot_count_drop_one(p, q, e, from + 1);
    }
}

/// A count of slots never exceeds the number of slots looked at.
pub proof fn lemma_slot_count_bound(p: spec_fn(int) -> bool, from: nat)
    ensures
        slot_count(p, from) <= if from >= 10 { 0 } else { 10 - from },
    decreases 10 - from,
{
    if from < 10 {
        lemma_slot_count_bound(p, from + 1);
    }
}

/// One optional value per entity slot.
pub struct ComponentArray<T>([Option<T>; 10]);

impl<T> View for ComponentArray<T> {
    type V = Seq<Option<T>>;

    closed spec fn view(&self) -> Seq<Option<T>> {
        self.0@
    }
}

impl<T> ComponentArray<T> {
    pub broadcast proof fn lemma_len(&self)
        ensures
            (#[trigger] self@).len() == 10,
    {
    }

    /// An array with every slot empty.
    pub fn empty() -> (r: ComponentArray<T>)
        ensures
            r@ == Seq::new(10, |i: int| None::<T>),
    {
        let r = ComponentArray([None, None, None, None, None, None, None, None, None, None]);
        assert(r@ =~= Seq::new(10, |i: int| None::<T>));
        r
    }

    /// All ten slots in entity order.
    pub fn iter(&self) -> (r: std::slice::Iter<'_, Option<T>>)
        ensures
            vstd::std_specs::slice::into_iter_elts(r) == self@,
    {
        self.0.iter()
    }

    /// The value held for `entity`.
    pub fn get(&self, entity: Entity) -> (r: Option<&T>)
        ensures
            r matches Some(v) ==> self@[entity@ as int] == Some(*v),
            r is None <==> self@[entity@ as int] is None,
    {
        self.0[entity.index()].as_ref()
    }

    /// Stores `value` for `entity` and returns what was there before.
    pub fn insert(&mut self, entity: Entity, value: T) -> (r: Option<T>)
        ensures
            r == old(self)@[entity@ as int],
            final(self)@ == old(self)@.update(entity@ as int, Some(value)),
    {
        let i = entity.index();
        let prev = self.0[i].take();
        self.0[i] = Some(value);
        prev
    }

    /// Empties the slot of `entity` and returns what was there.
    pub fn remove(&mut self, entity: Entity) -> (r: Option<T>)
        ensures
            r == old(self)@[entity@ as int],
            final(self)@ == old(self)@.update(entity@ as int, None),
    {
        let i = entity.index();
        self.0[i].take()
    }
}

impl<T: Copy> ComponentArray<T> {
    /// A copy of the slot of `entity`.
    pub fn at(&self, entity: Entity) -> (r: Option<T>)
        ensures
            r == self@[entity@ as int],
    {
        self.0[entity.index()]
    }

    /// Overwrites the slot of `entity`.
    pub fn set(&mut self, entity: Entity, value: Option<T>)
        ensures
            final(self)@ == old(self)@.update(entity@ as int, value),
    {
        self.0[entity.index()] = value;
    }
}

/// The cards of a match, one slot per entity in each component array.
pub struct Components {
    pub card: ComponentArray<CardId>,
    pub owner: ComponentArray<Player>,
    pub position: ComponentArray<Position>,
}

/// The two starting hands of a match.
#[derive(Clone, Copy, Debug)]
pub struct BattleSetup {
    pub p1: [CardId; 5],
    pub p2: [CardId; 5],
}

/// The board cell of a position, if it is one.
pub open spec fn board_cell(p: Option<Position>) -> Option<BoardCoords> {
    match p {
        Some(Position::Board(b)) => Some(b),
        _ => None,
    }
}

/// No two slots hold cards on the same cell.
pub open spec fn cells_distinct(positions: Seq<Option<Position>>) -> bool {
    forall|i: int, j: int|
        0 <= i < 10 && 0 <= j < 10 && i != j && #[trigger] board_cell(positions[i]) is Some
            ==> board_cell(positions[i]) != #[trigger] board_cell(positions[j])
}

/// Every board position names a cell of the three-by-three board.
pub open spec fn cells_valid(positions: Seq<Option<Position>>) -> bool {
    forall|j: int|
        0 <= j < 10 ==> (#[trigger] board_cell(positions[j]) matches Some(b) ==> b@.0 < 3 && b@.1
            < 3)
}

/// The card that `setup` deals to slot `i`.
pub open spec fn dealt_card(setup: BattleSetup, i: int) -> CardId {
    if i < 5 {
        setup.p1@[i]
    } else {
        setup.p2@[i - 5]
    }
}

/// The player whose hand slot `i` starts in: the first five slots are the first player's.
pub open spec fn dealt_owner(i: int) -> Player {
    if i < 5 {
        Player::P1
    } else {
        Player::P2
    }
}

/// The hand index at which slot `i` starts.
pub open spec fn dealt_hand_index(i: int) -> usize {
    if i < 5 {
        i as usize
    } else {
        (i - 5) as usize
    }
}

/// The components at the start of a match dealt by `setup`.
pub open spec fn dealt(c: &Components, setup: BattleSetup) -> bool {
    forall|i: int|
        0 <= i < 10 ==> {
            &&& #[trigger] c.card@[i] == Some(dealt_card(setup, i))
            &&& c.owner@[i] == Some(dealt_owner(i))
            &&& c.position@[i] == Some(Position::Hand(dealt_hand_index(i)))
        }
}

impl Components {
    /// Entities 0 to 4 hold the first player's hand, entities 5 to 9 the second's, each at its
    /// index in the hand.
    pub fn from_setup(setup: &BattleSetup) -> (r: Components)
        ensures
            dealt(&r, *setup),
            cells_valid(r.position@),
            cells_distinct(r.position@),
    {
        let mut card = ComponentArray::<CardId>::empty();
        let mut owner = ComponentArray::<Player>::empty();
        let mut position = ComponentArray::<Position>::empty();
        let mut k: u8 = 0;
        while k < 10
            invariant
                k <= 10,
                card@.len() == 10,
                owner@.len() == 10,
                position@.len() == 10,
                forall|j: int|
                    0 <= j < k ==> {
                        &&& #[trigger] card@[j] == Some(dealt_card(*setup, j))
                        &&& owner@[j] == Some(dealt_owner(j))
                        &&& position@[j] == Some(Position::Hand(dealt_hand_index(j)))
                    },
            decreases 10 - k,
        {
            let e = Entity::new(k).unwrap();
            let ghost card_before = card@;
            let ghost owner_before = owner@;
            let ghost position_before = position@;
            if k < 5 {
                card.set(e, Some(setup.p1[k as usize]));
                owner.set(e, Some(Player::P1));
                position.set(e, Some(Position::Hand(k as usize)));
            } else {
                card.set(e, Some(setup.p2[(k - 5) as usize]));
                owner.set(e, Some(Player::P2));
                position.set(e, Some(Position::Hand((k - 5) as usize)));
            }
            assert(card@[k as int] == Some(dealt_card(*setup, k as int)));
            assert(owner@[k as int] == Some(dealt_owner(k as int)));
            assert(position@[k as int] == Some(Position::Hand(dealt_hand_index(k as int))));
            assert forall|j: int| 0 <= j < k + 1 implies {
                &&& #[trigger] card@[j] == Some(dealt_card(*setup, j))
                &&& owner@[j] == Some(dealt_owner(j))
                &&& position@[j] == Some(Position::Hand(dealt_hand_index(j)))
            } by {
                if j < k {
                    assert(card@[j] == card_before[j]);
                    assert(owner@[j] == owner_before[j]);
                    assert(position@[j] == position_before[j]);
                }
            }
            k = k + 1;
        }
        assert forall|j: int| 0 <= j < 10 implies #[trigger] board_cell(position@[j]) is None by {
            assert(card@[j] == Some(dealt_card(*setup, j)));
        }
        Components { card, owner, position }
    }
}

// =========================================== State ===============================================

/// Where a match stands.
#[derive(Clone, Copy, Debug, PartialEq, Eq, Structural)]
pub enum State {
    Start,
    Turn { phase: TurnPhase, player: Player },
    End { result: BattleResult },
}

/// The steps of one player's turn.
#[derive(Clone, Copy, Debug, PartialEq, Eq, Structural)]
pub enum TurnPhase {
    Start,
    SelectCard { cursor: usize, entity: Entity },
    PlaceCard { cursor: BoardCoords, entity: Entity },
    ResolveRules { entity: Entity },
    End,
}

/// How a finished match ended.
#[derive(Clone, Copy, Debug, PartialEq, Eq, Structural)]
pub enum BattleResult {
    Draw,
    Win(Player),
}

// =========================================== Battle ==============================================

/// One match: its cards and its turn state.
pub struct Battle {
    pub components: Components,
    pub state: State,
}

impl Battle {
    /// A match at its start, with the hands of `setup`.
    pub fn init(setup: &BattleSetup) -> (r: Battle)
        ensures
            r.state == State::Start,
            dealt(&r.components, *setup),
            cells_valid(r.components.position@),
            cells_distinct(r.components.position@),
    {
        Battle { components: Components::from_setup(setup), state: State::Start }
    }
}

} // verus!

//! The queues that carry player commands in and notifications out of the battle systems.
use vstd::prelude::*;

use std::collections::VecDeque;

use crate::battle::{Direction, Entity, Player};

verus! {

/// A player intent, produced by input handling.
#[derive(Clone, Copy, Debug, PartialEq, Eq, Structural)]
pub enum Command {
    Cancel,
    Confirm,
    MoveCursor(Direction),
    Quit,
}

/// A change of the match that the battle systems report.
#[derive(Clone, Copy, Debug, PartialEq, Eq, Structural)]
pub enum GameEvent {
    CardSelected { target: Entity },
    CardDeselected,
    CardPlaced,
    CaptureDetected { target: Entity },
    CardFlipped,
    MatchEnded(MatchResult),
}

/// How a match ended, as the win check reports it.
#[derive(Clone, Copy, Debug, PartialEq, Eq, Structural)]
pub enum MatchResult {
    Draw,
    Winner(Player),
}

/// The queues of one tick: commands in, events out, and the entities that the rules flip.
pub struct Bus {
    pub commands: VecDeque<Command>,
    pub events: VecDeque<GameEvent>,
    pub flips: VecDeque<Entity>,
}

impl Bus {
    /// A bus with all three queues empty.
    pub fn new() -> (r: Bus)
        ensures
            r.commands@.len() == 0,
            r.events@.len() == 0,
            r.flips@.len() == 0,
    {
        Bus { commands: VecDeque::new(), events: VecDeque::new(), flips: VecDeque::new() }
    }

    /// Empties all three queues, as happens at the end of every tick.
    pub fn clear(&mut self)
        ensures
            final(self).commands@.len() == 0,
            final(self).events@.len() == 0,
            final(self).flips@.len() == 0,
    {
        self.commands = VecDeque::new();
        self.events = VecDeque::new();
        self.flips = VecDeque::new();
    }
}

impl Default for Bus {
    /// A bus with all three queues empty.
    fn default() -> (r: Bus)
        ensures
            r.commands@.len() == 0,
            r.events@.len() == 0,
            r.flips@.len() == 0,
    {
        Bus::new()
    }
}

/// The target of the first `CardSelected` event from index `i` on.
pub open spec fn first_selected(events: Seq<GameEvent>, i: nat) -> Option<Entity>
    decreases events.len() - i,
{
    if i >= events.len() {
        None
    } else if let GameEvent::CardSelected { target } = events[i as int] {
        Some(target)
    } else {
        first_selected(events, i + 1)
    }
}

/// The result of the first `MatchEnded` event from index `i` on.
pub open spec fn first_result(events: Seq<GameEvent>, i: nat) -> Option<MatchResult>
    decreases events.len() - i,
{
    if i >= events.len() {
        None
    } else if let GameEvent::MatchEnded(result) = events[i as int] {
        Some(result)
    } else {
        first_result(events, i + 1)
    }
}

/// Whether `events` holds `x`.
pub fn has_event(events: &VecDeque<GameEvent>, x: GameEvent) -> (r: bool)
    ensures
        r == events@.contains(x),
{
    let mut i: usize = 0;
    while i < events.len()
        invariant
            i <= events@.len(),
            forall|j: int| 0 <= j < i ==> events@[j] != x,
        decreases events@.len() - i,
    {
        if events[i] == x {
            return true;
        }
        i = i + 1;
    }
    false
}

/// Whether `commands` holds `x`.
pub fn has_command(commands: &VecDeque<Command>, x: Command) -> (r: bool)
    ensures
        r == commands@.contains(x),
{
    let mut i: usize = 0;
    while i < commands.len()
        invariant
            i <= commands@.len(),
            forall|j: int| 0 <= j < i ==> commands@[j] != x,
        decreases commands@.len() - i,
    {
        if commands[i] == x {
            return true;
        }
        i = i + 1;
    }
    false
}

/// The target of the first `CardSelected` event.
pub fn find_selected(events: &VecDeque<GameEvent>) -> (r: Option<Entity>)
    ensures
        r == first_selected(events@, 0),
{
    let mut i: usize = 0;
    while i < events.len()
        invariant
            i <= events@.len(),
            first_selected(events@, 0) == first_selected(events@, i as nat),
        decreases events@.len() - i,
    {
        if let GameEvent::CardSelected { target } = events[i] {
            return Some(target);
        }
        i = i + 1;
    }
    None
}

/// The result of the first `MatchEnded` event.
pub fn find_result(events: &VecDeque<GameEvent>) -> (r: Option<MatchResult>)
    ensures
        r == first_result(events@, 0),
{
    let mut i: usize = 0;
    while i < events.len()
        invariant
            i <= events@.len(),
            first_result(events@, 0) == first_result(events@, i as nat),
        decreases events@.len() - i,
    {
        if let GameEvent::MatchEnded(result) = events[i] {
            return Some(result);
        }
        i = i + 1;
    }
    None
}

} // verus!

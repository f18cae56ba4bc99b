//! Game events raised by entities and scripts during a logical tick.
use vstd::prelude::*;

use crate::grid::EntityId;

verus! {

/// Something that happened and still has to be acted upon.
#[derive(Clone, Copy, PartialEq, Eq, Debug, Structural)]
pub enum GameEvent {
    DoorLock(EntityId),
    DoorUnlock(EntityId),
    DoorOpen(EntityId),
    EntityWentDowntairs(EntityId),
    EntityInteracted(EntityId),
    EntityDeath { target: EntityId, attacker: EntityId },
}

/// The pending events, kept as a stack: the last one added is handled first.
pub struct GameEventManager {
    events: Vec<GameEvent>,
}

impl GameEventManager {
    pub closed spec fn view(self) -> Seq<GameEvent> {
        self.events@
    }

    /// No pending events.
    pub fn new() -> (r: GameEventManager)
        ensures
            r.view() == Seq::<GameEvent>::empty(),
    {
        GameEventManager { events: Vec::new() }
    }

    /// Adds `event` on top.
    pub fn add(&mut self, event: GameEvent)
        ensures
            final(self).view() == old(self).view().push(event),
    {
        self.events.push(event)
    }

    /// Removes and returns the event added last.
    pub fn take_last(&mut self) -> (r: Option<GameEvent>)
        ensures
            old(self).view().len() == 0 ==> r is None && final(self).view() == old(self).view(),
            old(self).view().len() > 0 ==> r == Some(old(self).view().last()) && final(self).view()
                == old(self).view().drop_last(),
    {
        self.events.pop()
    }

    /// The pending events, oldest first.
    pub fn as_slice(&self) -> (r: &[GameEvent])
        ensures
            r@ == self.view(),
    {
        self.events.as_slice()
    }

    /// The number of pending events.
    pub fn len(&self) -> (r: usize)
        ensures
            r == self.view().len(),
    {
        self.events.len()
    }
}

impl Default for GameEventManager {
    fn default() -> (r: GameEventManager)
        ensures
            r.view() == Seq::<GameEvent>::empty(),
    {
        GameEventManager::new()
    }
}

/// Taking the last event right after adding one gives that event back and
/// leaves the pending events as they were before the add.
pub proof fn law_take_last_undoes_add(pending: Seq<GameEvent>, event: GameEvent)
    ensures
        pending.push(event).len() > 0,
        pending.push(event).last() == event,
        pending.push(event).drop_last() == pending,
{
    assert(pending.push(event).drop_last() =~= pending);
}

} // verus!

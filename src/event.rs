//! The in-process bridge between connection handling and the lobby: game events
//! are read in the order they were written.
use crate::server::GameEvent;
use vstd::prelude::*;

verus! {

/// Game events written and not yet read, oldest first.
#[derive(Clone, Debug, Default)]
pub struct GameEvents {
    pending: Vec<GameEvent>,
}

impl GameEvents {
    pub closed spec fn view(&self) -> Seq<GameEvent> {
        self.pending@
    }

    /// A bridge with nothing pending.
    pub fn new() -> (r: GameEvents)
        ensures
            r.view() == Seq::<GameEvent>::empty(),
    {
        GameEvents { pending: Vec::new() }
    }

    /// Queues `event` after those already pending.
    pub fn write(&mut self, event: GameEvent)
        ensures
            final(self).view() == old(self).view().push(event),
    {
        self.pending.push(event);
    }

    /// Takes every pending event, oldest first, and leaves nothing pending.
    pub fn read(&mut self) -> (r: Vec<GameEvent>)
        ensures
            r@ == old(self).view(),
            final(self).view() == Seq::<GameEvent>::empty(),
    {
        let mut taken: Vec<GameEvent> = Vec::new();
        std::mem::swap(&mut taken, &mut self.pending);
        taken
    }

    /// The number of pending events.
    pub fn len(&self) -> (r: usize)
        ensures
            r == self.view().len(),
    {
        self.pending.len()
    }
}

} // verus!

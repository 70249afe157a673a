//! Input intake: intents arriving between ticks accumulate here, and the
//! scheduler drains everything currently queued, non-blocking, once per tick.
//!
//! The queue itself is single-threaded data; the surrounding process wraps it
//! in whatever channel its runtime provides and feeds `push` from the session
//! side and `drain` from the tick side.

use vstd::prelude::*;

use crate::world::PlayerIntent;

verus! {

/// A queue of intents awaiting the next tick, in arrival order.
pub struct IntakeQueue {
    items: Vec<PlayerIntent>,
}

impl IntakeQueue {
    /// The queued intents, oldest first.
    pub closed spec fn view(&self) -> Seq<PlayerIntent> {
        self.items@
    }

    /// An empty queue.
    pub fn new() -> (r: IntakeQueue)
        ensures
            r@ == Seq::<PlayerIntent>::empty(),
    {
        IntakeQueue { items: Vec::new() }
    }

    /// How many intents are waiting.
    pub fn len(&self) -> (r: usize)
        ensures
            r == self@.len(),
    {
        self.items.len()
    }

    /// Append one intent; earlier intents keep their place.
    pub fn push(&mut self, intent: PlayerIntent)
        ensures
            final(self)@ == old(self)@.push(intent),
    {
        self.items.push(intent);
    }

    /// Remove and return everything queued since the previous drain, in
    /// arrival order, leaving the queue empty.
    pub fn drain(&mut self) -> (r: Vec<PlayerIntent>)
        ensures
            r@ == old(self)@,
            final(self)@ == Seq::<PlayerIntent>::empty(),
    {
        let r = crate::world::copy_vec(&self.items);
        self.items = Vec::new();
        r
    }
}

} // verus!

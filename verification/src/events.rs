//! A frame-scoped event queue: events are sent during a frame and drained
//! or cleared once per frame.
use vstd::prelude::*;

verus! {

/// A queue of events of one kind.
pub struct Events<T> {
    pub events: Vec<T>,
}

impl<T> Events<T> {
    /// Appends one event at the back of the queue.
    pub fn send(&mut self, event: T)
        ensures
            final(self).events@ == old(self).events@.push(event),
    {
        self.events.push(event);
    }
}

impl<T> Default for Events<T> {
    /// An empty queue.
    fn default() -> (r: Self)
        ensures
            r.events@ == Seq::<T>::empty(),
    {
        Events { events: Vec::new() }
    }
}

/// Empties a queue, once its events have been handled.
pub fn clear_events<T>(events: &mut Events<T>)
    ensures
        final(events).events@ == Seq::<T>::empty(),
{
    events.events.clear();
}

} // verus!

//! A queue of events, first in, first out.

use vstd::prelude::*;

verus! {

/// Events that wait to be read, oldest first.
pub struct EventQueue<DataType> {
    pub queue: Vec<DataType>,
}

impl<DataType> EventQueue<DataType> {
    /// An empty queue.
    pub fn new() -> (queue: Self)
        ensures
            queue.queue@.len() == 0,
    {
        EventQueue { queue: Vec::new() }
    }

    /// Puts `message` behind the events that wait.
    pub fn send(&mut self, message: DataType)
        ensures
            final(self).queue@ == old(self).queue@.push(message),
    {
        self.queue.push(message);
    }

    /// Takes the oldest event, if any waits.
    pub fn read(&mut self) -> (message: Option<DataType>)
        ensures
            old(self).queue@.len() == 0 ==> message is None && final(self).queue@.len() == 0,
            old(self).queue@.len() > 0 ==> message == Some(old(self).queue@[0]) && final(self).queue@ == old(self).queue@.skip(1),
    {
        if self.queue.len() == 0 {
            None
        } else {
            let message = self.queue.remove(0);
            assert(self.queue@ =~= old(self).queue@.skip(1));
            Some(message)
        }
    }

    /// Takes all events that wait, oldest first.
    pub fn read_all(&mut self) -> (messages: Vec<DataType>)
        ensures
            messages@ == old(self).queue@,
            final(self).queue@.len() == 0,
    {
        let mut messages: Vec<DataType> = Vec::new();
        std::mem::swap(&mut messages, &mut self.queue);
        messages
    }
}

} // verus!

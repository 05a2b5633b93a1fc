use std::collections::VecDeque;

use vstd::prelude::*;

verus! {

/// A robot's orders: the one it carries out and those waiting, first in
/// first out. `C` is the kind of order.
pub struct CommandQueue<C> {
    pub current: Option<C>,
    pub queue: VecDeque<C>,
}

impl<C> CommandQueue<C> {
    /// No current order, nothing waiting.
    pub fn new() -> (q: CommandQueue<C>)
        ensures
            q.current.is_none(),
            q.queue@.len() == 0,
    {
        CommandQueue { current: None, queue: VecDeque::new() }
    }

    /// Queues `cmd` after the waiting orders.
    pub fn push(&mut self, cmd: C)
        ensures
            final(self).queue@ == old(self).queue@.push(cmd),
            final(self).current == old(self).current,
    {
        self.queue.push_back(cmd);
    }

    /// Queues `cmd` before the waiting orders.
    pub fn push_front(&mut self, cmd: C)
        ensures
            final(self).queue@ == seq![cmd] + old(self).queue@,
            final(self).current == old(self).current,
    {
        self.queue.push_front(cmd);
    }
}

impl<C: Clone> CommandQueue<C> {
    /// Makes the first waiting order current (none if nothing waits) and
    /// returns a copy of it.
    pub fn advance(&mut self) -> (r: Option<C>)
        ensures
            old(self).queue@.len() == 0 ==> final(self).current.is_none() && final(self).queue@.len() == 0,
            old(self).queue@.len() > 0 ==> final(self).current == Some(old(self).queue@[0])
                && final(self).queue@ == old(self).queue@.drop_first(),
            r.is_some() == final(self).current.is_some(),
            r.is_some() ==> cloned::<C>(final(self).current->0, r->0),
    {
        self.current = self.queue.pop_front();
        self.current.clone()
    }
}

impl<C> Default for CommandQueue<C> {
    fn default() -> (q: CommandQueue<C>)
        ensures
            q.current.is_none(),
            q.queue@.len() == 0,
    {
        CommandQueue::new()
    }
}

/// Orders come out first in, first out: queueing one at the back leaves the
/// next order and the rest in place (it becomes next only in an empty
/// queue), while queueing one in front makes it the next, the rest unchanged.
pub proof fn lemma_queue_order<C>(waiting: Seq<C>, cmd: C)
    ensures
        waiting.len() > 0 ==> waiting.push(cmd)[0] == waiting[0] && waiting.push(cmd).drop_first() == waiting.drop_first().push(cmd),
        waiting.len() == 0 ==> waiting.push(cmd)[0] == cmd && waiting.push(cmd).drop_first().len() == 0,
        (seq![cmd] + waiting)[0] == cmd,
        (seq![cmd] + waiting).drop_first() == waiting,
{
    if waiting.len() > 0 {
        assert(waiting.push(cmd).drop_first() =~= waiting.drop_first().push(cmd));
    }
    assert((seq![cmd] + waiting).drop_first() =~= waiting);
}

} // verus!

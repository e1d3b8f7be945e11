//! A bounded log of received messages, newest first, as shown in the GUI's log panels.

use std::collections::VecDeque;
use vstd::prelude::*;

verus! {

/// A log that keeps at most `limit` messages, newest to oldest front to back, and remembers how
/// many older messages it has dropped.
pub struct Log<T> {
    deque: VecDeque<T>,
    // The index of the oldest message currently stored in the deque.
    start_index: usize,
    // The max number of messages stored in the log at one time.
    limit: usize,
}

/// The messages kept after pushing `msg`, newest first, and how many were dropped.
pub open spec fn spec_push<T>(msgs: Seq<T>, limit: int, msg: T) -> (Seq<T>, int) {
    let all = seq![msg] + msgs;
    if all.len() > limit {
        (all.subrange(0, limit), all.len() - limit)
    } else {
        (all, 0)
    }
}

impl<T> Log<T> {
    /// The messages (newest first), the number of messages dropped so far, and the limit.
    pub closed spec fn view(&self) -> (Seq<T>, int, int) {
        (self.deque@, self.start_index as int, self.limit as int)
    }

    /// Construct a log that stores the given max number of messages.
    pub fn with_limit(limit: usize) -> (r: Self)
        ensures
            r@ == (Seq::<T>::empty(), 0int, limit as int),
    {
        Log { deque: VecDeque::new(), start_index: 0, limit }
    }

    /// Push a new message to the front of the log, dropping the oldest messages beyond the
    /// limit.
    pub fn push_msg(&mut self, msg: T)
        requires
            old(self)@.1 + old(self)@.0.len() < usize::MAX,
        ensures
            ({
                let (msgs, dropped) = spec_push(old(self)@.0, old(self)@.2, msg);
                final(self)@ == (msgs, old(self)@.1 + dropped, old(self)@.2)
            }),
    {
        let ghost all = seq![msg] + self.deque@;
        self.deque.push_front(msg);
        proof {
            assert(self.deque@ =~= all);
        }
        let ghost start0 = self.start_index as int;
        while self.deque.len() > self.limit
            invariant
                self.limit == old(self).limit,
                self.deque@ == all.subrange(0, self.deque@.len() as int),
                self.deque@.len() <= all.len(),
                self.deque@.len() >= (if all.len() > self.limit { self.limit as int } else { all.len() as int }),
                self.start_index as int == start0 + (all.len() - self.deque@.len()),
                start0 + all.len() <= usize::MAX,
            decreases self.deque.len(),
        {
            self.deque.pop_back();
            self.start_index = self.start_index + 1;
        }
        proof {
            if all.len() <= self.limit {
                assert(self.deque@ =~= all);
            }
        }
    }

    /// The number of messages in the log.
    pub fn len(&self) -> (r: usize)
        ensures
            r == self@.0.len(),
    {
        self.deque.len()
    }

    /// The number of older messages that the log has dropped.
    pub fn start_index(&self) -> (r: usize)
        ensures
            r == self@.1,
    {
        self.start_index
    }

    /// The number shown beside the `k`-th message, newest first: the newest message is numbered by
    /// the count of messages ever pushed, and each older one by one less.
    pub fn entry_number(&self, k: usize) -> (r: usize)
        requires
            k < self@.0.len(),
            self@.1 + self@.0.len() <= usize::MAX,
        ensures
            r == self@.1 + self@.0.len() - k,
    {
        self.start_index + self.deque.len() - k
    }

    /// The messages of the log, newest first.
    pub fn messages(&self) -> (r: &VecDeque<T>)
        ensures
            r@ == self@.0,
    {
        &self.deque
    }
}

/// The count of messages ever pushed is the count of messages kept plus the count dropped; the
/// log keeps one more message than before, up to its limit; the new message comes first and the
/// older ones follow in their order.
pub proof fn lemma_push_counts<T>(msgs: Seq<T>, dropped: int, limit: int, msg: T)
    requires
        limit >= 0,
        msgs.len() <= limit,
    ensures
        ({
            let (kept, more) = spec_push(msgs, limit, msg);
            &&& kept.len() <= limit
            &&& kept.len() == if msgs.len() + 1 < limit { msgs.len() + 1 } else { limit as nat }
            &&& (dropped + more) + kept.len() == dropped + msgs.len() + 1
            &&& limit > 0 ==> kept.len() > 0 && kept[0] == msg
            &&& limit > 0 ==> kept.subrange(1, kept.len() as int) == msgs.subrange(0, kept.len() - 1)
        }),
{
    let (kept, more) = spec_push(msgs, limit, msg);
    if limit > 0 {
        assert(kept.subrange(1, kept.len() as int) =~= msgs.subrange(0, kept.len() - 1));
    }
}

} // verus!

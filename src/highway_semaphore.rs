//! The state of a counting semaphore with two waiting lines: work of high
//! priority (HTML) before work of low priority (images). The runtime that
//! parks and wakes tasks stays outside; it asks this state what to do.

use vstd::prelude::*;

verus! {

/// Free permits and the two FIFO lines of waiter ids.
pub struct SemaphoreState {
    available: usize,
    high: Vec<u64>,
    low: Vec<u64>,
}

impl SemaphoreState {
    pub closed spec fn free(&self) -> nat {
        self.available as nat
    }

    pub closed spec fn high_line(&self) -> Seq<u64> {
        self.high@
    }

    pub closed spec fn low_line(&self) -> Seq<u64> {
        self.low@
    }

    pub fn new(permits: usize) -> (r: SemaphoreState)
        ensures
            r.free() == permits,
            r.high_line() == Seq::<u64>::empty(),
            r.low_line() == Seq::<u64>::empty(),
    {
        SemaphoreState { available: permits, high: Vec::new(), low: Vec::new() }
    }

    /// Takes a permit at once when one is free, and, for low priority, no
    /// high-priority waiter is in line; otherwise puts `waiter` at the end
    /// of its line. Returns whether the permit was taken.
    pub fn try_acquire(&mut self, is_high: bool, waiter: u64) -> (r: bool)
        ensures
            r == (old(self).free() > 0 && (is_high || old(self).high_line().len() == 0)),
            r ==> final(self).free() == old(self).free() - 1 && final(self).high_line() == old(self).high_line()
                && final(self).low_line() == old(self).low_line(),
            !r ==> final(self).free() == old(self).free(),
            !r && is_high ==> final(self).high_line() == old(self).high_line().push(waiter)
                && final(self).low_line() == old(self).low_line(),
            !r && !is_high ==> final(self).low_line() == old(self).low_line().push(waiter)
                && final(self).high_line() == old(self).high_line(),
    {
        let can_take = if is_high {
            self.available > 0
        } else {
            self.available > 0 && self.high.len() == 0
        };
        if can_take {
            self.available -= 1;
            return true;
        }
        if is_high {
            self.high.push(waiter);
        } else {
            self.low.push(waiter);
        }
        false
    }

    /// Gives a permit back (a permit dropped, or a woken waiter that was
    /// gone).
    pub fn release(&mut self)
        requires
            old(self).free() < usize::MAX,
        ensures
            final(self).free() == old(self).free() + 1,
            final(self).high_line() == old(self).high_line(),
            final(self).low_line() == old(self).low_line(),
    {
        self.available += 1;
    }

    /// Hands a free permit to the next waiter: the first in the high line,
    /// else the first in the low line. `None` when no permit is free or no
    /// one waits. A waiter of low priority is never served while one of high
    /// priority waits.
    pub fn notify_next(&mut self) -> (r: Option<u64>)
        ensures
            old(self).free() == 0 || (old(self).high_line().len() == 0 && old(self).low_line().len() == 0)
                ==> r is None && final(self).free() == old(self).free() && final(self).high_line()
                == old(self).high_line() && final(self).low_line() == old(self).low_line(),
            old(self).free() > 0 && old(self).high_line().len() > 0 ==> r == Some(old(self).high_line()[0])
                && final(self).high_line() == old(self).high_line().drop_first() && final(self).low_line()
                == old(self).low_line() && final(self).free() == old(self).free() - 1,
            old(self).free() > 0 && old(self).high_line().len() == 0 && old(self).low_line().len() > 0 ==> r
                == Some(old(self).low_line()[0]) && final(self).low_line() == old(self).low_line().drop_first()
                && final(self).high_line() == old(self).high_line() && final(self).free() == old(self).free() - 1,
    {
        if self.available == 0 {
            return None;
        }
        if self.high.len() > 0 {
            let w = self.high.remove(0);
            self.available -= 1;
            assert(self.high@ =~= old(self).high@.drop_first());
            return Some(w);
        }
        if self.low.len() > 0 {
            let w = self.low.remove(0);
            self.available -= 1;
            assert(self.low@ =~= old(self).low@.drop_first());
            return Some(w);
        }
        None
    }
}

} // verus!

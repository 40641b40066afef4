//! Pages of wakers: two bits of state for each of 64 tasks.

use crate::bits::{has_bit, lemma_and_not, lemma_clear_bit, lemma_set_bit, lemma_zero_has_no_bit};
use vstd::prelude::*;

verus! {

/// The number of tasks whose state one page holds.
pub const WAKER_PAGE_SIZE: usize = 64;

/// The page of a task.
pub open spec fn page_of(key: int) -> int {
    key / 64
}

/// The index of a task within its page.
pub open spec fn offset_of(key: int) -> int {
    key % 64
}

/// The state of up to 64 tasks, one bit of each word for each task.
#[derive(Clone, Copy, Debug, PartialEq, Eq, Structural)]
pub struct WakerPage {
    /// Bit `i` is set when task `i` has been woken and not been taken since.
    pub notified: u64,
    /// Bit `i` is set when task `i` has been dropped and not been taken since.
    pub dropped: u64,
}

impl WakerPage {
    /// Task `i` has been woken.
    pub open spec fn is_notified(self, i: int) -> bool {
        has_bit(self.notified, i)
    }

    /// Task `i` has been dropped.
    pub open spec fn is_dropped(self, i: int) -> bool {
        has_bit(self.dropped, i)
    }

    /// Task `i` is waiting for its turn: it has been woken and has not been dropped.
    pub open spec fn is_ready(self, i: int) -> bool {
        self.is_notified(i) && !self.is_dropped(i)
    }

    /// The tasks of this page that wait for their turn.
    pub open spec fn ready(self) -> Set<int> {
        Set::new(|i: int| self.is_ready(i))
    }

    /// Some task of this page waits for its turn.
    pub open spec fn has_ready(self) -> bool {
        exists|i: int| #[trigger] self.is_ready(i)
    }

    /// The page on which no task has been woken or dropped.
    pub open spec fn blank() -> WakerPage {
        WakerPage { notified: 0, dropped: 0 }
    }

    /// The page after the state of a new task `i` was prepared.
    pub open spec fn initialized(self, i: int) -> WakerPage {
        WakerPage {
            notified: self.notified | (1u64 << (i as u64)),
            dropped: self.dropped & !(1u64 << (i as u64)),
        }
    }

    /// The page after task `i` was woken.
    pub open spec fn woken(self, i: int) -> WakerPage {
        WakerPage { notified: self.notified | (1u64 << (i as u64)), dropped: self.dropped }
    }

    /// The page after task `i` was marked as dropped.
    pub open spec fn marked_dropped(self, i: int) -> WakerPage {
        WakerPage { notified: self.notified, dropped: self.dropped | (1u64 << (i as u64)) }
    }

    /// The page after the state of task `i` was forgotten.
    pub open spec fn cleared(self, i: int) -> WakerPage {
        WakerPage {
            notified: self.notified & !(1u64 << (i as u64)),
            dropped: self.dropped & !(1u64 << (i as u64)),
        }
    }

    /// A page on which no task has been woken or dropped.
    pub fn new() -> (page: WakerPage)
        ensures
            page == WakerPage::blank(),
    {
        WakerPage { notified: 0, dropped: 0 }
    }

    /// Prepares the state of a new task, which starts out woken.
    pub fn initialize(&mut self, ix: usize)
        requires
            ix < WAKER_PAGE_SIZE,
        ensures
            *final(self) == old(self).initialized(ix as int),
            forall|i: int| #[trigger]
                final(self).is_notified(i) == (i == ix || old(self).is_notified(i)),
            forall|i: int| #[trigger]
                final(self).is_dropped(i) == (i != ix && old(self).is_dropped(i)),
    {
        let bit: u64 = ix as u64;
        proof {
            lemma_set_bit(self.notified, bit);
            lemma_clear_bit(self.dropped, bit);
        }
        self.notified = self.notified | (1u64 << bit);
        self.dropped = self.dropped & !(1u64 << bit);
    }

    /// Wakes a task.
    pub fn wake(&mut self, ix: usize)
        requires
            ix < WAKER_PAGE_SIZE,
        ensures
            *final(self) == old(self).woken(ix as int),
            forall|i: int| #[trigger]
                final(self).is_notified(i) == (i == ix || old(self).is_notified(i)),
            final(self).dropped == old(self).dropped,
    {
        let bit: u64 = ix as u64;
        proof {
            lemma_set_bit(self.notified, bit);
        }
        self.notified = self.notified | (1u64 << bit);
    }

    /// Marks a task as dropped. It is not ready any more, even if it is woken again.
    pub fn mark_dropped(&mut self, ix: usize)
        requires
            ix < WAKER_PAGE_SIZE,
        ensures
            *final(self) == old(self).marked_dropped(ix as int),
            final(self).notified == old(self).notified,
            forall|i: int| #[trigger]
                final(self).is_dropped(i) == (i == ix || old(self).is_dropped(i)),
    {
        let bit: u64 = ix as u64;
        proof {
            lemma_set_bit(self.dropped, bit);
        }
        self.dropped = self.dropped | (1u64 << bit);
    }

    /// Forgets the state of a task.
    pub fn clear(&mut self, ix: usize)
        requires
            ix < WAKER_PAGE_SIZE,
        ensures
            *final(self) == old(self).cleared(ix as int),
            forall|i: int| #[trigger]
                final(self).is_notified(i) == (i != ix && old(self).is_notified(i)),
            forall|i: int| #[trigger]
                final(self).is_dropped(i) == (i != ix && old(self).is_dropped(i)),
    {
        let bit: u64 = ix as u64;
        proof {
            lemma_clear_bit(self.notified, bit);
            lemma_clear_bit(self.dropped, bit);
        }
        self.notified = self.notified & !(1u64 << bit);
        self.dropped = self.dropped & !(1u64 << bit);
    }

    /// Takes the tasks that are ready, and leaves no task woken. A task that was dropped is not
    /// returned: it must not be polled.
    pub fn take_notified(&mut self) -> (word: u64)
        ensures
            forall|i: int| #[trigger] has_bit(word, i) == old(self).is_ready(i),
            final(self).notified == 0,
            final(self).dropped == old(self).dropped,
    {
        let word: u64 = self.notified & !self.dropped;
        proof {
            lemma_and_not(self.notified, self.dropped);
        }
        self.notified = 0;
        word
    }

    /// Takes the tasks that were dropped, and leaves no task dropped.
    pub fn take_dropped(&mut self) -> (word: u64)
        ensures
            word == old(self).dropped,
            final(self).notified == old(self).notified,
            final(self).dropped == 0,
    {
        let word: u64 = self.dropped;
        self.dropped = 0;
        word
    }
}

/// What preparing, waking, dropping and forgetting a task mean for each task of the page.
pub proof fn lemma_page_updates(page: WakerPage, ix: int)
    requires
        0 <= ix < WAKER_PAGE_SIZE,
    ensures
        forall|i: int| #[trigger]
            page.initialized(ix).is_notified(i) == (i == ix || page.is_notified(i)),
        forall|i: int| #[trigger]
            page.initialized(ix).is_dropped(i) == (i != ix && page.is_dropped(i)),
        forall|i: int| #[trigger] page.woken(ix).is_notified(i) == (i == ix || page.is_notified(i)),
        forall|i: int| #[trigger]
            page.marked_dropped(ix).is_dropped(i) == (i == ix || page.is_dropped(i)),
        forall|i: int| #[trigger]
            page.cleared(ix).is_notified(i) == (i != ix && page.is_notified(i)),
        forall|i: int| #[trigger]
            page.cleared(ix).is_dropped(i) == (i != ix && page.is_dropped(i)),
{
    lemma_set_bit(page.notified, ix as u64);
    lemma_set_bit(page.dropped, ix as u64);
    lemma_clear_bit(page.notified, ix as u64);
    lemma_clear_bit(page.dropped, ix as u64);
}

/// No task is ready on a blank page.
pub proof fn lemma_blank_page()
    ensures
        forall|i: int| !#[trigger] WakerPage::blank().is_notified(i),
        forall|i: int| !#[trigger] WakerPage::blank().is_dropped(i),
        forall|i: int| !#[trigger] WakerPage::blank().is_ready(i),
{
    lemma_zero_has_no_bit();
}

} // verus!

//! The tasks of one processor, sorted by priority.

use crate::bits::has_bit;
use crate::change_laws::{law_insert_by_task, law_remove_by_task, law_take_by_task,
    law_wake_by_task};
use crate::key::{key_of, key_offset, key_page, key_position, key_priority, key_slot,
    lemma_key_parts, split_key, TASK_NUM_PER_PRIORITY};
use crate::observe::{law_task_is_found_in_its_slot, seen_dropped, seen_ready, seen_woken, stored,
    times_due};
use crate::scan::{lemma_resume_in_range, lemma_resume_keeps_lengths, lemma_wf_with_more_pages,
    pages_of, position, tasks_of, vacant_of, Scan, ScanView};
use crate::slab::{slab_limit, TaskSlab};
use crate::task::Task;
use crate::waker_page::{offset_of, page_of, WakerPage, WAKER_PAGE_SIZE};
use vstd::prelude::*;

verus! {

/// The priority of a task that is inserted without one.
pub const DEFAULT_PRIORITY: usize = 4;

/// The number of priorities. A smaller number is served first.
pub const MAX_PRIORITY: usize = 32;

/// The largest number of pages of one priority: a key is a 64-bit word, and each priority has an
/// equal share of the keys, in pages of 64 keys.
pub open spec fn page_limit() -> int {
    usize::MAX as int / 2048
}

/// The keys of one priority fit into its share of the 64-bit words, and into a slab.
pub proof fn lemma_page_limit()
    ensures
        64 * page_limit() < slab_limit(),
        slab_limit() <= usize::MAX / 2,
        64 * page_limit() <= TASK_NUM_PER_PRIORITY,
{
}

/// The tasks of one priority, and the pages that hold their state. Task `key` of the slab is task
/// `key % 64` of page `key / 64`.
pub struct Inner {
    pub slab: TaskSlab,
    pub pages: Vec<WakerPage>,
}

impl Inner {
    /// The tasks, each under its key.
    pub open spec fn tasks(self) -> Map<nat, Task> {
        self.slab.tasks()
    }

    /// The keys that were freed and have not been handed out since, the latest last.
    pub open spec fn vacant(self) -> Seq<nat> {
        self.slab.vacant()
    }

    /// The key that the next task is given: the key that was freed last, or else the number of
    /// tasks.
    pub open spec fn next_key(self) -> nat {
        self.slab.next_key()
    }

    /// Each key that was handed out is in use or was freed, and has a place on a page.
    pub open spec fn wf(self) -> bool {
        &&& self.slab.wf()
        &&& self.slab.span() <= 64 * self.pages@.len()
        &&& self.pages@.len() <= page_limit()
    }

    /// No tasks and no pages.
    pub fn new() -> (inner: Inner)
        ensures
            inner.wf(),
            inner.tasks() == Map::<nat, Task>::empty(),
            inner.vacant() == Seq::<nat>::empty(),
            inner.pages@ == Seq::<WakerPage>::empty(),
    {
        Inner { slab: TaskSlab::new(), pages: Vec::new() }
    }

    /// Another task can be added: it is given a key that has a place on a page, or there can be
    /// another page.
    pub open spec fn has_room(self) -> bool {
        self.next_key() < 64 * self.pages@.len() || self.pages@.len() < page_limit()
    }

    /// The pages after a task with the key `key` was added.
    pub open spec fn pages_with(self, key: int) -> Seq<WakerPage> {
        let pages = if key < 64 * self.pages@.len() {
            self.pages@
        } else {
            self.pages@.push(WakerPage::blank())
        };
        let page_ix = page_of(key);
        pages.update(page_ix, pages[page_ix].initialized(offset_of(key)))
    }

    /// Our pages hold 64 contiguous tasks, so simple arithmetic gives the page of a task and its
    /// index within the page.
    pub fn page(&self, key: u64) -> (found: (&WakerPage, usize))
        requires
            key < 64 * self.pages@.len(),
        ensures
            *found.0 == self.pages@[page_of(key as int)],
            found.1 == offset_of(key as int),
    {
        let page_ix: u64 = key / WAKER_PAGE_SIZE as u64;
        let subpage_ix: u64 = key % WAKER_PAGE_SIZE as u64;
        assert(page_ix < self.pages.len());
        (&self.pages[page_ix as usize], subpage_ix as usize)
    }

    /// Adds a task and returns its key, by which the task is found in the slab. The task starts
    /// out woken.
    pub fn insert(&mut self, task: Task) -> (key: u64)
        requires
            old(self).wf(),
            old(self).has_room(),
        ensures
            final(self).wf(),
            key == old(self).next_key(),
            !old(self).tasks().contains_key(key as nat),
            key < 64 * final(self).pages@.len(),
            final(self).tasks() == old(self).tasks().insert(key as nat, task),
            final(self).vacant() == if old(self).vacant().len() > 0 {
                old(self).vacant().drop_last()
            } else {
                old(self).vacant()
            },
            final(self).pages@ == old(self).pages_with(key as int),
            final(self).pages@.len() <= old(self).pages@.len() + 1,
    {
        proof {
            lemma_page_limit();
        }
        let key: usize = self.slab.insert(task);
        let ghost slab = self.slab;
        let ghost before = self.pages@;

        // Add a new page to hold the state of the task if the pages are filled.
        while key >= self.pages.len() * WAKER_PAGE_SIZE
            invariant
                key <= 64 * before.len(),
                before.len() <= page_limit(),
                self.pages@ == before || (key >= 64 * before.len() && self.pages@ == before.push(
                    WakerPage::blank(),
                )),
                self.slab == slab,
            decreases before.len() + 1 - self.pages@.len(),
        {
            self.pages.push(WakerPage::new());
        }
        let page_ix: usize = key / WAKER_PAGE_SIZE;
        let subpage_ix: usize = key % WAKER_PAGE_SIZE;
        self.pages[page_ix].initialize(subpage_ix);
        key as u64
    }

    /// Removes a task and forgets its state.
    pub fn remove(&mut self, key: usize)
        requires
            old(self).wf(),
            key < 64 * old(self).pages@.len(),
        ensures
            final(self).wf(),
            final(self).tasks() == old(self).tasks().remove(key as nat),
            final(self).vacant() == if old(self).tasks().contains_key(key as nat) {
                old(self).vacant().push(key as nat)
            } else {
                old(self).vacant()
            },
            ({
                let page_ix = page_of(key as int);
                final(self).pages@ == old(self).pages@.update(
                    page_ix,
                    old(self).pages@[page_ix].cleared(offset_of(key as int)),
                )
            }),
    {
        let page_ix: usize = key / WAKER_PAGE_SIZE;
        let offset: usize = key % WAKER_PAGE_SIZE;
        proof {
            lemma_page_limit();
        }
        self.pages[page_ix].clear(offset);
        self.slab.remove(key);
    }

    /// Takes the tasks of a page that are ready, and leaves the page blank.
    pub fn take_page(&mut self, page_idx: usize) -> (notified: u64)
        requires
            page_idx < old(self).pages@.len(),
        ensures
            forall|i: int| #[trigger]
                has_bit(notified, i) == old(self).pages@[page_idx as int].is_ready(i),
            final(self).pages@ == old(self).pages@.update(page_idx as int, WakerPage::blank()),
            final(self).tasks() == old(self).tasks(),
            final(self).vacant() == old(self).vacant(),
    {
        let notified: u64 = self.pages[page_idx].take_notified();
        let _dropped: u64 = self.pages[page_idx].take_dropped();
        assert(self.pages@ =~= old(self).pages@.update(page_idx as int, WakerPage::blank()));
        notified
    }

    /// Wakes a task.
    pub fn wake(&mut self, page_idx: usize, subpage_idx: usize)
        requires
            page_idx < old(self).pages@.len(),
            subpage_idx < WAKER_PAGE_SIZE,
        ensures
            final(self).pages@ == old(self).pages@.update(
                page_idx as int,
                old(self).pages@[page_idx as int].woken(subpage_idx as int),
            ),
            final(self).tasks() == old(self).tasks(),
            final(self).vacant() == old(self).vacant(),
    {
        self.pages[page_idx].wake(subpage_idx);
    }
}

/// The task with the key `key`, if there is one.
pub open spec fn task_at(tasks: Seq<Map<nat, Task>>, key: u64) -> Option<Task> {
    if tasks[key_priority(key)].contains_key(key_slot(key) as nat) {
        Some(tasks[key_priority(key)][key_slot(key) as nat])
    } else {
        None
    }
}

/// The pages after the task at a position was marked as dropped.
pub open spec fn dropped_at(pages: Seq<Seq<WakerPage>>, at: (int, int, int)) -> Seq<
    Seq<WakerPage>,
> {
    let (p, j, b) = at;
    pages.update(p, pages[p].update(j, pages[p][j].marked_dropped(b)))
}

/// The position of the task with a key, if there is one.
pub open spec fn position_of_key(key: Option<u64>) -> Option<(int, int, int)> {
    match key {
        Some(k) => Some(key_position(k)),
        None => None,
    }
}

/// The position of the task that was taken, if there is one.
pub open spec fn taken_position(taken: Option<(u64, Option<Task>)>) -> Option<(int, int, int)> {
    match taken {
        Some((key, _)) => Some(key_position(key)),
        None => None,
    }
}

/// Goes on with a scan, and looks up the task that it comes to.
pub fn next_task(scan: &mut Scan, inners: &mut Vec<Inner>) -> (taken: Option<(u64, Option<Task>)>)
    requires
        old(scan)@.wf(pages_of(old(inners)@)),
        forall|p: int| 0 <= p < MAX_PRIORITY ==> #[trigger] old(inners)@[p].wf(),
    ensures
        old(scan)@.resumes(
            pages_of(old(inners)@),
            final(scan)@,
            pages_of(final(inners)@),
            taken_position(taken),
        ),
        taken matches Some((key, task)) ==> task == task_at(tasks_of(old(inners)@), key),
        tasks_of(final(inners)@) == tasks_of(old(inners)@),
        vacant_of(final(inners)@) == vacant_of(old(inners)@),
        final(scan)@.wf(pages_of(final(inners)@)),
        final(inners)@.len() == old(inners)@.len(),
        forall|p: int| 0 <= p < MAX_PRIORITY ==> #[trigger] final(inners)@[p].wf(),
{
    let ghost state = scan@;
    let ghost pages = pages_of(inners@);
    let hit: Option<(usize, usize, usize)> = scan.resume(inners);
    proof {
        assert forall|p: int| 0 <= p < MAX_PRIORITY implies #[trigger] inners@[p].wf() by {
            assert(old(inners)@[p].wf());
            assert(pages[p] == old(inners)@[p].pages@);
            assert(pages_of(inners@)[p] == inners@[p].pages@);
            assert(tasks_of(inners@)[p] == inners@[p].tasks());
            assert(tasks_of(old(inners)@)[p] == old(inners)@[p].tasks());
            assert(vacant_of(inners@)[p] == inners@[p].vacant());
            assert(vacant_of(old(inners)@)[p] == old(inners)@[p].vacant());
            lemma_resume_keeps_lengths(state, pages, scan@, pages_of(inners@), position(hit));
        }
    }
    match hit {
        Some((priority, page_idx, subpage_idx)) => {
            proof {
                lemma_resume_in_range(state, pages, scan@, pages_of(inners@), position(hit));
                lemma_page_limit();
                assert(inners@[priority as int].wf());
                assert(pages_of(inners@)[priority as int] == inners@[priority as int].pages@);
            }
            let slot: usize = page_idx * WAKER_PAGE_SIZE + subpage_idx;
            let key: u64 = (priority as u64) * TASK_NUM_PER_PRIORITY + slot as u64;
            proof {
                lemma_key_parts(key, priority as int, slot as int);
            }
            let ghost resumed = inners@;
            let task: Option<Task> = inners[priority].slab.get(slot);
            proof {
                assert(pages_of(inners@) =~= pages_of(resumed));
                assert(tasks_of(inners@) =~= tasks_of(resumed));
                assert(vacant_of(inners@) =~= vacant_of(resumed));
                assert forall|p: int| 0 <= p < MAX_PRIORITY implies #[trigger] inners@[p].wf() by {
                    assert(resumed[p].wf());
                }
            }
            Some((key, task))
        },
        None => None,
    }
}

/// The tasks of one processor.
pub struct TaskCollection {
    /// The tasks of each priority.
    pub inners: Vec<Inner>,
    pub task_num: usize,
    /// The scan that hands out the tasks.
    pub scan: Scan,
}

impl TaskCollection {
    /// The pages of each priority.
    pub open spec fn pages(self) -> Seq<Seq<WakerPage>> {
        pages_of(self.inners@)
    }

    /// The tasks of each priority, each under its key within the priority.
    pub open spec fn tasks(self) -> Seq<Map<nat, Task>> {
        tasks_of(self.inners@)
    }

    /// The freed keys of each priority, the latest last.
    pub open spec fn vacant(self) -> Seq<Seq<nat>> {
        vacant_of(self.inners@)
    }

    /// There is a slab for each priority, each task has a place on a page, and the scan is within
    /// the pages.
    pub open spec fn wf(self) -> bool {
        &&& self.inners@.len() == MAX_PRIORITY
        &&& forall|p: int| 0 <= p < MAX_PRIORITY ==> #[trigger] self.inners@[p].wf()
        &&& self.scan@.wf(self.pages())
    }

    /// There is a page for the task with the key `key`.
    pub open spec fn has_page(self, key: u64) -> bool {
        key_page(key) < self.pages()[key_priority(key)].len()
    }

    /// No task was ever added.
    pub open spec fn is_fresh(self) -> bool {
        &&& self.task_num == 0
        &&& self.scan@ == ScanView::ended()
        &&& forall|p: int| 0 <= p < MAX_PRIORITY ==> #[trigger]
            self.pages()[p] == Seq::<WakerPage>::empty()
        &&& forall|p: int| 0 <= p < MAX_PRIORITY ==> #[trigger]
            self.tasks()[p] == Map::<nat, Task>::empty()
        &&& forall|p: int| 0 <= p < MAX_PRIORITY ==> #[trigger]
            self.vacant()[p] == Seq::<nat>::empty()
    }

    /// A collection without tasks.
    pub fn new() -> (collection: TaskCollection)
        ensures
            collection.wf(),
            collection.is_fresh(),
    {
        let mut inners: Vec<Inner> = Vec::new();
        let mut priority: usize = 0;
        while priority < MAX_PRIORITY
            invariant
                priority <= MAX_PRIORITY,
                inners@.len() == priority,
                forall|p: int| 0 <= p < priority ==> #[trigger] inners@[p].wf(),
                forall|p: int| #![trigger inners@[p]] 0 <= p < priority ==> {
                    &&& inners@[p].pages@ == Seq::<WakerPage>::empty()
                    &&& inners@[p].tasks() == Map::<nat, Task>::empty()
                    &&& inners@[p].vacant() == Seq::<nat>::empty()
                },
            decreases MAX_PRIORITY - priority,
        {
            inners.push(Inner::new());
            priority = priority + 1;
        }
        TaskCollection { inners, task_num: 0, scan: Scan::new() }
    }

    /// Returns the priority, the page and the index within the page of the task with a key.
    pub fn parse_key(&self, key: u64) -> (parsed: (usize, &WakerPage, usize))
        requires
            self.wf(),
            self.has_page(key),
        ensures
            parsed.0 == key_priority(key),
            *parsed.1 == self.pages()[key_priority(key)][key_page(key)],
            parsed.2 == key_offset(key),
    {
        let (priority, page_ix, subpage_ix): (u64, u64, u64) = split_key(key);
        assert(self.pages()[priority as int] == self.inners@[priority as int].pages@);
        assert(page_ix < self.inners[priority as int].pages.len());
        (
            priority as usize,
            &self.inners[priority as usize].pages[page_ix as usize],
            subpage_ix as usize,
        )
    }

    /// The collection becomes `after` when `task` is added with the priority `priority`, and the
    /// task is given the key `key`.
    pub open spec fn inserts(
        self,
        after: TaskCollection,
        priority: int,
        task: Task,
        key: u64,
    ) -> bool {
        let inner = self.inners@[priority];
        let slot = inner.next_key();
        &&& key == key_of(priority, slot as int)
        &&& key_priority(key) == priority
        &&& key_slot(key) == slot
        &&& !self.tasks()[priority].contains_key(slot)
        &&& after.tasks() == self.tasks().update(priority, inner.tasks().insert(slot, task))
        &&& after.vacant() == self.vacant().update(
            priority,
            if inner.vacant().len() > 0 {
                inner.vacant().drop_last()
            } else {
                inner.vacant()
            },
        )
        &&& after.pages() == self.pages().update(priority, inner.pages_with(slot as int))
        &&& after.has_page(key)
        &&& after.pages()[priority].len() <= self.pages()[priority].len() + 1
        &&& after.task_num == if self.task_num == usize::MAX {
            0
        } else {
            self.task_num + 1
        }
        &&& after.scan@ == self.scan@
    }

    /// Adds a task with the default priority.
    pub fn insert(&mut self, task: Task) -> (key: u64)
        requires
            old(self).wf(),
            old(self).inners@[DEFAULT_PRIORITY as int].has_room(),
        ensures
            final(self).wf(),
            old(self).inserts(*final(self), DEFAULT_PRIORITY as int, task, key),
            stored(*final(self), key) == Some(task),
            seen_ready(final(self).pages(), key),
    {
        self.priority_insert(DEFAULT_PRIORITY, task)
    }

    /// Adds a task with the given priority. The task starts out woken.
    pub fn priority_insert(&mut self, priority: usize, task: Task) -> (key: u64)
        requires
            old(self).wf(),
            priority < MAX_PRIORITY,
            old(self).inners@[priority as int].has_room(),
        ensures
            final(self).wf(),
            old(self).inserts(*final(self), priority as int, task, key),
            stored(*final(self), key) == Some(task),
            seen_ready(final(self).pages(), key),
            key as int / 0x0800_0000_0000_0000 == priority,
            forall|other: u64|
                other != key ==> #[trigger] stored(*final(self), other) == stored(
                    *old(self),
                    other,
                ),
    {
        let ghost before = *self;
        assert(before.pages()[priority as int] == before.inners@[priority as int].pages@);
        let slot: u64 = self.inners[priority].insert(task);
        self.task_num = self.task_num.wrapping_add(1);
        proof {
            lemma_page_limit();
            assert(self.inners@[priority as int].wf());
            assert(self.pages()[priority as int] == self.inners@[priority as int].pages@);
            assert(self.pages() =~= before.pages().update(
                priority as int,
                before.inners@[priority as int].pages_with(slot as int),
            ));
            assert(self.tasks() =~= before.tasks().update(
                priority as int,
                self.inners@[priority as int].tasks(),
            ));
            assert(self.vacant() =~= before.vacant().update(
                priority as int,
                self.inners@[priority as int].vacant(),
            ));
            lemma_wf_with_more_pages(self.scan@, before.pages(), self.pages());
            assert(key_of(priority as int, slot as int) <= u64::MAX);
            lemma_key_parts(
                key_of(priority as int, slot as int) as u64,
                priority as int,
                slot as int,
            );
        }
        let key: u64 = slot + (priority as u64) * TASK_NUM_PER_PRIORITY;
        proof {
            law_insert_by_task(before, *self, priority as int, task, key, key);
            assert forall|other: u64| other != key implies #[trigger] stored(*self, other)
                == stored(before, other) by {
                law_insert_by_task(before, *self, priority as int, task, key, other);
            }
        }
        key
    }

    /// The collection becomes `after` when the task with the key `key` is removed. When there is
    /// no such task, only the count changes, and the key is marked as dropped.
    pub open spec fn removes(self, after: TaskCollection, key: u64) -> bool {
        let (p, slot) = (key_priority(key), key_slot(key) as nat);
        &&& after.tasks() == self.tasks().update(p, self.tasks()[p].remove(slot))
        &&& after.vacant() == self.vacant().update(
            p,
            if self.tasks()[p].contains_key(slot) {
                self.vacant()[p].push(slot)
            } else {
                self.vacant()[p]
            },
        )
        &&& after.pages() == dropped_at(self.pages(), key_position(key))
        &&& after.task_num == if self.task_num == 0 {
            usize::MAX as int
        } else {
            self.task_num - 1
        }
        &&& after.scan@ == self.scan@
    }

    /// Removes a task, and marks it as dropped.
    pub fn remove_task(&mut self, key: u64)
        requires
            old(self).wf(),
            old(self).has_page(key),
        ensures
            final(self).wf(),
            old(self).removes(*final(self), key),
            stored(*final(self), key) is None,
            seen_dropped(final(self).pages(), key),
            forall|other: u64|
                other != key ==> #[trigger] stored(*final(self), other) == stored(
                    *old(self),
                    other,
                ),
            forall|other: u64|
                other != key ==> #[trigger] times_due(
                    final(self).scan@,
                    final(self).pages(),
                    other,
                ) == times_due(old(self).scan@, old(self).pages(), other),
    {
        let ghost before = *self;
        let (priority, page_ix, offset): (u64, u64, u64) = split_key(key);
        let slot: u64 = key % TASK_NUM_PER_PRIORITY;
        let ghost p = priority as int;
        proof {
            lemma_page_limit();
            assert(before.inners@[p].wf());
            assert(before.pages()[p] == before.inners@[p].pages@);
            assert(page_ix < self.inners[p].pages.len());
        }
        self.inners[priority as usize].pages[page_ix as usize].mark_dropped(offset as usize);
        self.inners[priority as usize].slab.remove(slot as usize);
        self.task_num = self.task_num.wrapping_sub(1);
        proof {
            assert(self.inners@[p].wf());
            assert(self.pages() =~= dropped_at(before.pages(), key_position(key)));
            assert(self.tasks() =~= before.tasks().update(p, self.inners@[p].tasks()));
            assert(self.vacant() =~= before.vacant().update(p, self.inners@[p].vacant()));
            lemma_wf_with_more_pages(self.scan@, before.pages(), self.pages());
            law_remove_by_task(before, *self, key, key);
            assert forall|other: u64| other != key implies #[trigger] stored(*self, other)
                == stored(before, other) by {
                law_remove_by_task(before, *self, key, other);
            }
            assert forall|other: u64| other != key implies #[trigger] times_due(
                self.scan@,
                self.pages(),
                other,
            ) == times_due(before.scan@, before.pages(), other) by {
                law_remove_by_task(before, *self, key, other);
            }
        }
    }

    /// The number of tasks.
    pub fn task_num(&self) -> (task_num: usize)
        ensures
            task_num == self.task_num,
    {
        self.task_num
    }

    /// The collection becomes `after` when the task with the key `key` is woken.
    pub open spec fn wakes(self, after: TaskCollection, key: u64) -> bool {
        let p = key_priority(key);
        &&& after.tasks() == self.tasks()
        &&& after.vacant() == self.vacant()
        &&& after.pages() == self.pages().update(
            p,
            self.pages()[p].update(
                key_page(key),
                self.pages()[p][key_page(key)].woken(key_offset(key)),
            ),
        )
        &&& after.task_num == self.task_num
        &&& after.scan@ == self.scan@
    }

    /// Wakes a task: it is handed out again.
    pub fn wake(&mut self, key: u64)
        requires
            old(self).wf(),
            old(self).has_page(key),
        ensures
            final(self).wf(),
            old(self).wakes(*final(self), key),
            seen_woken(final(self).pages(), key),
            forall|other: u64|
                other != key ==> #[trigger] times_due(
                    final(self).scan@,
                    final(self).pages(),
                    other,
                ) == times_due(old(self).scan@, old(self).pages(), other),
    {
        let ghost before = *self;
        let (priority, page_ix, offset): (u64, u64, u64) = split_key(key);
        let ghost p = priority as int;
        proof {
            assert(before.inners@[p].wf());
            assert(before.pages()[p] == before.inners@[p].pages@);
            assert(page_ix < self.inners[p].pages.len());
        }
        self.inners[priority as usize].wake(page_ix as usize, offset as usize);
        proof {
            assert(self.inners@[p].wf());
            assert(self.pages() =~= before.pages().update(
                p,
                before.pages()[p].update(
                    page_ix as int,
                    before.pages()[p][page_ix as int].woken(offset as int),
                ),
            ));
            assert(self.tasks() =~= before.tasks());
            assert(self.vacant() =~= before.vacant());
            lemma_wf_with_more_pages(self.scan@, before.pages(), self.pages());
            law_wake_by_task(before, *self, key, key);
            assert forall|other: u64| other != key implies #[trigger] times_due(
                self.scan@,
                self.pages(),
                other,
            ) == times_due(before.scan@, before.pages(), other) by {
                law_wake_by_task(before, *self, key, other);
            }
        }
    }

    /// Marks a task as dropped, and leaves it in its slab.
    pub fn mark_dropped(&mut self, priority: usize, page_idx: usize, subpage_idx: usize)
        requires
            old(self).wf(),
            priority < MAX_PRIORITY,
            page_idx < old(self).pages()[priority as int].len(),
            subpage_idx < WAKER_PAGE_SIZE,
        ensures
            final(self).wf(),
            final(self).pages() == dropped_at(
                old(self).pages(),
                (priority as int, page_idx as int, subpage_idx as int),
            ),
            final(self).tasks() == old(self).tasks(),
            final(self).vacant() == old(self).vacant(),
            final(self).task_num == old(self).task_num,
            final(self).scan == old(self).scan,
    {
        let ghost before = *self;
        let ghost p = priority as int;
        proof {
            assert(before.inners@[p].wf());
            assert(before.pages()[p] == before.inners@[p].pages@);
        }
        self.inners[priority].pages[page_idx].mark_dropped(subpage_idx);
        proof {
            assert(self.inners@[p].wf());
            assert(self.pages() =~= dropped_at(
                before.pages(),
                (p, page_idx as int, subpage_idx as int),
            ));
            assert(self.tasks() =~= before.tasks());
            assert(self.vacant() =~= before.vacant());
            lemma_wf_with_more_pages(self.scan@, before.pages(), self.pages());
        }
    }

    /// The collection becomes `after` when the tasks that a scan in the state `state` has taken and
    /// has still to hand out are woken again.
    pub open spec fn takes_back(self, after: TaskCollection, state: ScanView) -> bool {
        &&& state.gives_back(self.pages(), after.pages())
        &&& after.tasks() == self.tasks()
        &&& after.vacant() == self.vacant()
        &&& after.task_num == self.task_num
        &&& after.scan == self.scan
    }

    /// Wakes the tasks again that a scan has taken and has still to hand out.
    pub fn take_back(&mut self, scan: &mut Scan)
        requires
            old(self).wf(),
            old(scan)@.wf(old(self).pages()),
        ensures
            final(self).wf(),
            old(self).takes_back(*final(self), old(scan)@),
            final(scan)@ == old(scan)@.without_pending(),
            final(scan)@.wf(final(self).pages()),
            final(self).pages().len() == old(self).pages().len(),
            forall|p: int| 0 <= p < old(self).pages().len() ==> #[trigger]
                final(self).pages()[p].len() == old(self).pages()[p].len(),
    {
        let ghost before = *self;
        scan.give_back(&mut self.inners);
        proof {
            assert forall|p: int| 0 <= p < MAX_PRIORITY implies #[trigger] self.inners@[p].wf() by {
                assert(before.inners@[p].wf());
                assert(before.pages()[p] == before.inners@[p].pages@);
                assert(before.tasks()[p] == before.inners@[p].tasks());
                assert(before.vacant()[p] == before.inners@[p].vacant());
                assert(self.pages()[p] == self.inners@[p].pages@);
                assert(self.tasks()[p] == self.inners@[p].tasks());
                assert(self.vacant()[p] == self.inners@[p].vacant());
            }
            lemma_wf_with_more_pages(self.scan@, before.pages(), self.pages());
            lemma_wf_with_more_pages(scan@, before.pages(), self.pages());
        }
    }

    /// The collection becomes `after` when its scan goes on to the task with the key `taken`, or
    /// finds no task. The tasks stay where they are.
    pub open spec fn takes(self, after: TaskCollection, taken: Option<u64>) -> bool {
        &&& self.scan@.resumes(self.pages(), after.scan@, after.pages(), position_of_key(taken))
        &&& after.tasks() == self.tasks()
        &&& after.vacant() == self.vacant()
        &&& after.task_num == self.task_num
    }

    /// The next task that is handed out, if there is one, is in its slab.
    pub open spec fn next_is_live(self) -> bool {
        forall|key: u64, after: TaskCollection| #[trigger]
            self.takes(after, Some(key)) ==> task_at(self.tasks(), key) is Some
    }

    /// Goes on with the scan of this collection, up to the next task. Returns the key of the task
    /// and what the slab holds under that key, or `None` when no task is ready.
    pub fn generator(&mut self) -> (taken: Option<(u64, Option<Task>)>)
        requires
            old(self).wf(),
        ensures
            final(self).wf(),
            match taken {
                Some((key, task)) => {
                    &&& old(self).takes(*final(self), Some(key))
                    &&& task == task_at(old(self).tasks(), key)
                    &&& task == stored(*old(self), key)
                },
                None => old(self).takes(*final(self), None),
            },
            forall|key: u64|
                #![trigger seen_dropped(final(self).pages(), key)]
                !seen_dropped(old(self).pages(), key) ==> !seen_dropped(final(self).pages(), key),
            forall|key: u64|
                #![trigger times_due(final(self).scan@, final(self).pages(), key)]
                times_due(final(self).scan@, final(self).pages(), key) == times_due(
                    old(self).scan@,
                    old(self).pages(),
                    key,
                ) - (if taken is Some && (taken->0).0 == key {
                    1int
                } else {
                    0
                }),
    {
        let ghost before = *self;
        let taken: Option<(u64, Option<Task>)> = next_task(&mut self.scan, &mut self.inners);
        proof {
            let ghost key_taken = match taken {
                Some((key, _)) => Some(key),
                None => None,
            };
            assert(before.takes(*self, key_taken));
            assert forall|key: u64| !seen_dropped(before.pages(), key) implies !#[trigger]
                seen_dropped(self.pages(), key) by {
                law_take_by_task(before, *self, key_taken, key);
            }
            assert forall|key: u64| #[trigger]
                times_due(self.scan@, self.pages(), key) == times_due(
                    before.scan@,
                    before.pages(),
                    key,
                ) - (if taken is Some && (taken->0).0 == key {
                    1int
                } else {
                    0
                }) by {
                law_take_by_task(before, *self, key_taken, key);
            }
            if let Some((key, _)) = taken {
                law_task_is_found_in_its_slot(before, key);
            }
        }
        taken
    }

    /// Takes the next task that is ready. Returns its key and the task, or `None` when no task is
    /// ready.
    pub fn take_task(&mut self) -> (taken: Option<(u64, Task)>)
        requires
            old(self).wf(),
            old(self).next_is_live(),
        ensures
            final(self).wf(),
            match taken {
                Some((key, task)) => {
                    &&& old(self).takes(*final(self), Some(key))
                    &&& task_at(old(self).tasks(), key) == Some(task)
                    &&& stored(*old(self), key) == Some(task)
                },
                None => old(self).takes(*final(self), None),
            },
    {
        match self.generator() {
            Some((key, Some(task))) => Some((key, task)),
            _ => None,
        }
    }
}

} // verus!

//! What the operations on a task collection promise together.

use crate::key::{key_of, key_offset, key_page, key_position, key_priority, key_slot,
    TASK_NUM_PER_PRIORITY};
use crate::scan::ScanView;
use crate::scan_laws::{is_pending, is_waiting, law_handed_out_once, outstanding};
use crate::task::Task;
use crate::task_collection::{page_limit, task_at, TaskCollection, MAX_PRIORITY};
use crate::waker_page::{lemma_blank_page, lemma_page_updates, WakerPage};
use vstd::prelude::*;

verus! {

/// A key is made of a priority, a page and an index within the page, and of nothing else.
pub proof fn law_key_layout(key: u64)
    ensures
        0 <= key_priority(key) < MAX_PRIORITY,
        0 <= key_page(key),
        0 <= key_offset(key) < 64,
        key == key_of(key_priority(key), 64 * key_page(key) + key_offset(key)),
        key_slot(key) == 64 * key_page(key) + key_offset(key),
{
}

/// Tasks of different priorities, and different tasks of one priority, have different keys.
pub proof fn law_keys_are_unique(priority1: int, slot1: int, priority2: int, slot2: int)
    requires
        0 <= slot1 < TASK_NUM_PER_PRIORITY,
        0 <= slot2 < TASK_NUM_PER_PRIORITY,
        key_of(priority1, slot1) == key_of(priority2, slot2),
    ensures
        priority1 == priority2,
        slot1 == slot2,
{
}

/// A new task is found under its key, under which there was none, and it waits. Nothing changes for
/// other tasks.
pub proof fn law_inserted_task_waits(
    before: TaskCollection,
    after: TaskCollection,
    priority: int,
    task: Task,
    key: u64,
    other: u64,
)
    requires
        before.wf(),
        after.wf(),
        0 <= priority < MAX_PRIORITY,
        before.inserts(after, priority, task, key),
    ensures
        task_at(before.tasks(), key) is None,
        task_at(after.tasks(), key) == Some(task),
        is_waiting(after.pages(), key),
        other != key ==> task_at(after.tasks(), other) == task_at(before.tasks(), other),
        other != key ==> is_waiting(after.pages(), other) == is_waiting(before.pages(), other),
{
    let (p, j, b) = key_position(key);
    let (op, oj, ob) = key_position(other);
    let inner = before.inners@[priority];
    lemma_blank_page();
    lemma_page_updates(inner.pages@[j], b);
    lemma_page_updates(WakerPage::blank(), b);
    assert(before.pages()[priority] == inner.pages@);
    assert(after.pages()[priority] == inner.pages_with(key_slot(key)));
    assert(before.tasks()[priority] == inner.tasks());
    if op == p && oj == j && other != key {
        assert(ob != b);
        if j < inner.pages@.len() {
            assert(inner.pages@[j].initialized(b).is_ready(ob) == inner.pages@[j].is_ready(ob));
        }
    }
}

/// A task that was removed does not wait and is gone. Nothing changes for other tasks.
pub proof fn law_removed_task_does_not_wait(
    before: TaskCollection,
    after: TaskCollection,
    key: u64,
    other: u64,
)
    requires
        before.wf(),
        before.has_page(key),
        before.removes(after, key),
    ensures
        task_at(after.tasks(), key) is None,
        !is_waiting(after.pages(), key),
        other != key ==> task_at(after.tasks(), other) == task_at(before.tasks(), other),
        other != key ==> is_waiting(after.pages(), other) == is_waiting(before.pages(), other),
{
    let (p, j, b) = key_position(key);
    let (op, oj, ob) = key_position(other);
    lemma_page_updates(before.pages()[p][j], b);
    if op == p && oj == j && other != key {
        assert(ob != b);
        assert(after.pages()[p][j].is_ready(ob) == before.pages()[p][j].is_ready(ob));
    }
}

/// Removing a task undoes adding it: the tasks and their number are as before, and the next task
/// of that priority is given the same key again.
pub proof fn law_remove_undoes_insert(
    before: TaskCollection,
    added: TaskCollection,
    after: TaskCollection,
    priority: int,
    task: Task,
    key: u64,
)
    requires
        before.wf(),
        after.wf(),
        0 <= priority < MAX_PRIORITY,
        before.inserts(added, priority, task, key),
        added.removes(after, key),
    ensures
        after.tasks() == before.tasks(),
        after.task_num == before.task_num,
        after.inners@[priority].next_key() == before.inners@[priority].next_key(),
{
    let slot = key_slot(key) as nat;
    assert(before.tasks()[priority] == before.inners@[priority].tasks());
    assert(after.tasks()[priority] == after.inners@[priority].tasks());
    assert(after.vacant()[priority] == after.inners@[priority].vacant());
    assert(before.tasks()[priority].insert(slot, task).remove(slot) =~= before.tasks()[priority]);
    assert(after.tasks() =~= before.tasks());
}

/// A task that is woken waits, unless it is marked as dropped. Nothing changes for other tasks.
pub proof fn law_woken_task_waits(
    before: TaskCollection,
    after: TaskCollection,
    key: u64,
    other: u64,
)
    requires
        before.wf(),
        before.has_page(key),
        before.wakes(after, key),
    ensures
        is_waiting(after.pages(), key) == !before.pages()[key_priority(key)][key_page(
            key,
        )].is_dropped(key_offset(key)),
        other != key ==> is_waiting(after.pages(), other) == is_waiting(before.pages(), other),
{
    let (p, j, b) = key_position(key);
    let (op, oj, ob) = key_position(other);
    lemma_page_updates(before.pages()[p][j], b);
    if op == p && oj == j && other != key {
        assert(ob != b);
        assert(after.pages()[p][j].is_ready(ob) == before.pages()[p][j].is_ready(ob));
    }
}

/// Waking a task again before it is taken changes nothing.
pub proof fn law_waking_twice_is_waking_once(
    before: TaskCollection,
    once: TaskCollection,
    twice: TaskCollection,
    key: u64,
)
    requires
        before.wf(),
        before.has_page(key),
        before.wakes(once, key),
        once.wakes(twice, key),
    ensures
        twice.pages() == once.pages(),
        twice.tasks() == once.tasks(),
{
    let (p, j, b) = key_position(key);
    let word = before.pages()[p][j].notified;
    let bit = b as u64;
    assert((word | (1u64 << bit)) | (1u64 << bit) == word | (1u64 << bit)) by (bit_vector);
    assert(twice.pages()[p] =~= once.pages()[p]);
    assert(twice.pages() =~= once.pages());
}

/// A task that was removed does not wait when it is woken, as long as no scan has come by.
pub proof fn law_waking_a_removed_task_is_in_vain(
    before: TaskCollection,
    removed: TaskCollection,
    after: TaskCollection,
    key: u64,
)
    requires
        before.wf(),
        removed.wf(),
        before.has_page(key),
        before.removes(removed, key),
        removed.wakes(after, key),
    ensures
        !is_waiting(after.pages(), key),
{
    let (p, j, b) = key_position(key);
    lemma_page_updates(before.pages()[p][j], b);
    assert(before.pages()[p][j].marked_dropped(b).is_dropped(b));
    assert(after.pages()[p][j] == removed.pages()[p][j].woken(b));
    assert(after.pages()[p][j].is_dropped(b));
}

/// Each task that is outstanding is in its slab.
pub open spec fn no_stale(
    state: ScanView,
    pages: Seq<Seq<WakerPage>>,
    tasks: Seq<Map<nat, Task>>,
) -> bool {
    forall|key: u64| #[trigger]
        outstanding(state, pages, key) > 0 ==> task_at(tasks, key) is Some
}

/// In a new collection nothing is outstanding.
pub proof fn law_new_collection_has_no_stale(c: TaskCollection)
    requires
        c.wf(),
        c.is_fresh(),
    ensures
        no_stale(c.scan@, c.pages(), c.tasks()),
{
    assert forall|key: u64| outstanding(c.scan@, c.pages(), key) == 0 by {
        assert(c.pages()[key_priority(key)] == Seq::<WakerPage>::empty());
    }
}

/// When each outstanding task is in its slab, so is the task that is taken next.
pub proof fn law_no_stale_means_next_is_live(c: TaskCollection)
    requires
        c.wf(),
        no_stale(c.scan@, c.pages(), c.tasks()),
    ensures
        c.next_is_live(),
{
    assert forall|key: u64, after: TaskCollection| #[trigger]
        c.takes(after, Some(key)) implies task_at(c.tasks(), key) is Some by {
        law_handed_out_once(c.scan@, c.pages(), after.scan@, after.pages(), key, key);
    }
}

/// Adding a task keeps each outstanding task in its slab, for any scan of the collection.
pub proof fn law_insert_keeps_no_stale(
    before: TaskCollection,
    after: TaskCollection,
    state: ScanView,
    priority: int,
    task: Task,
    key: u64,
)
    requires
        before.wf(),
        after.wf(),
        0 <= priority < MAX_PRIORITY,
        before.inserts(after, priority, task, key),
        no_stale(state, before.pages(), before.tasks()),
    ensures
        no_stale(state, after.pages(), after.tasks()),
{
    assert forall|other: u64| #[trigger]
        outstanding(state, after.pages(), other) > 0 implies task_at(
        after.tasks(),
        other,
    ) is Some by {
        law_inserted_task_waits(before, after, priority, task, key, other);
        assert(other != key ==> outstanding(state, before.pages(), other) > 0);
    }
}

/// Waking a task that is in its slab keeps each outstanding task in its slab.
pub proof fn law_wake_keeps_no_stale(
    before: TaskCollection,
    after: TaskCollection,
    state: ScanView,
    key: u64,
)
    requires
        before.wf(),
        before.has_page(key),
        task_at(before.tasks(), key) is Some,
        before.wakes(after, key),
        no_stale(state, before.pages(), before.tasks()),
    ensures
        no_stale(state, after.pages(), after.tasks()),
{
    assert forall|other: u64| #[trigger]
        outstanding(state, after.pages(), other) > 0 implies task_at(
        after.tasks(),
        other,
    ) is Some by {
        law_woken_task_waits(before, after, key, other);
        assert(other != key ==> outstanding(state, before.pages(), other) > 0);
    }
}

/// Removing a task keeps each outstanding task in its slab, unless the scan had already taken the
/// task that is removed.
pub proof fn law_remove_keeps_no_stale(
    before: TaskCollection,
    after: TaskCollection,
    state: ScanView,
    key: u64,
)
    requires
        before.wf(),
        before.has_page(key),
        before.removes(after, key),
        !is_pending(state, key),
        no_stale(state, before.pages(), before.tasks()),
    ensures
        no_stale(state, after.pages(), after.tasks()),
{
    assert forall|other: u64| #[trigger]
        outstanding(state, after.pages(), other) > 0 implies task_at(
        after.tasks(),
        other,
    ) is Some by {
        law_removed_task_does_not_wait(before, after, key, other);
        assert(other != key ==> outstanding(state, before.pages(), other) > 0);
    }
}

/// Taking a task keeps each outstanding task in its slab.
pub proof fn law_take_keeps_no_stale(
    state: ScanView,
    pages: Seq<Seq<WakerPage>>,
    tasks: Seq<Map<nat, Task>>,
    state1: ScanView,
    pages1: Seq<Seq<WakerPage>>,
    taken: u64,
)
    requires
        state.wf(pages),
        state.resumes(pages, state1, pages1, Some(key_position(taken))),
        no_stale(state, pages, tasks),
    ensures
        no_stale(state1, pages1, tasks),
{
    assert forall|other: u64| #[trigger]
        outstanding(state1, pages1, other) > 0 implies task_at(tasks, other) is Some by {
        law_handed_out_once(state, pages, state1, pages1, taken, other);
        assert(outstanding(state, pages, other) > 0);
    }
}

/// The number of tasks of all priorities.
pub open spec fn total(tasks: Seq<Map<nat, Task>>) -> nat
    decreases tasks.len(),
{
    if tasks.len() == 0 {
        0
    } else {
        total(tasks.drop_last()) + tasks.last().dom().len()
    }
}

/// Changing the tasks of one priority changes the number of all tasks by as much.
proof fn lemma_total_update(tasks: Seq<Map<nat, Task>>, p: int, changed: Map<nat, Task>)
    requires
        0 <= p < tasks.len(),
    ensures
        total(tasks.update(p, changed)) == total(tasks) - tasks[p].dom().len()
            + changed.dom().len(),
    decreases tasks.len(),
{
    let updated = tasks.update(p, changed);
    if p == tasks.len() - 1 {
        assert(updated.drop_last() =~= tasks.drop_last());
    } else {
        assert(updated.drop_last() =~= tasks.drop_last().update(p, changed));
        lemma_total_update(tasks.drop_last(), p, changed);
    }
}

/// The count of a collection is the number of its tasks.
pub open spec fn is_counted(c: TaskCollection) -> bool {
    c.task_num == total(c.tasks())
}

/// A collection without tasks counts none.
pub proof fn law_new_collection_is_counted(c: TaskCollection)
    requires
        c.wf(),
        c.is_fresh(),
    ensures
        is_counted(c),
{
    lemma_total_of_none(c.tasks());
}

/// No tasks of any priority are no tasks.
proof fn lemma_total_of_none(tasks: Seq<Map<nat, Task>>)
    requires
        forall|p: int| 0 <= p < tasks.len() ==> #[trigger]
            tasks[p] == Map::<nat, Task>::empty(),
    ensures
        total(tasks) == 0,
    decreases tasks.len(),
{
    if tasks.len() > 0 {
        assert(tasks.last() == tasks[tasks.len() - 1]);
        assert(tasks.last().dom() =~= Set::<nat>::empty());
        lemma_total_of_none(tasks.drop_last());
    }
}

/// Adding a task counts it.
pub proof fn law_insert_counts(
    before: TaskCollection,
    after: TaskCollection,
    priority: int,
    task: Task,
    key: u64,
)
    requires
        before.wf(),
        0 <= priority < MAX_PRIORITY,
        before.inserts(after, priority, task, key),
        is_counted(before),
    ensures
        is_counted(after),
        total(after.tasks()) == total(before.tasks()) + 1,
{
    let inner = before.inners@[priority];
    assert(inner.wf());
    assert(before.tasks()[priority] == inner.tasks());
    assert forall|p: int| 0 <= p < before.tasks().len() implies (#[trigger] before.tasks()[p]).dom().len()
        <= 64 * page_limit() by {
        assert(before.inners@[p].wf());
        assert(before.tasks()[p] == before.inners@[p].tasks());
    }
    lemma_total_at_most(before.tasks(), 64 * page_limit());
    lemma_total_update(
        before.tasks(),
        priority,
        inner.tasks().insert(key_slot(key) as nat, task),
    );
}

/// Removing a task that is there counts it no more.
pub proof fn law_remove_counts(before: TaskCollection, after: TaskCollection, key: u64)
    requires
        before.wf(),
        task_at(before.tasks(), key) is Some,
        before.removes(after, key),
        is_counted(before),
    ensures
        is_counted(after),
        total(after.tasks()) == total(before.tasks()) - 1,
{
    let p = key_priority(key);
    assert(before.inners@[p].wf());
    assert(before.tasks()[p] == before.inners@[p].tasks());
    assert(before.tasks()[p].contains_key(key_slot(key) as nat));
    lemma_total_update(before.tasks(), p, before.tasks()[p].remove(key_slot(key) as nat));
    lemma_total_at_least(before.tasks(), p);
}

/// With at most `bound` tasks of each priority there are at most `bound` times as many tasks as
/// there are priorities.
proof fn lemma_total_at_most(tasks: Seq<Map<nat, Task>>, bound: int)
    requires
        forall|p: int| 0 <= p < tasks.len() ==> (#[trigger] tasks[p]).dom().len() <= bound,
    ensures
        total(tasks) <= tasks.len() * bound,
    decreases tasks.len(),
{
    if tasks.len() > 0 {
        assert(tasks.last() == tasks[tasks.len() - 1]);
        lemma_total_at_most(tasks.drop_last(), bound);
        let n = tasks.len() as int;
        assert(n * bound == (n - 1) * bound + bound) by (nonlinear_arith);
    }
}

/// There are at least as many tasks as there are of one priority.
proof fn lemma_total_at_least(tasks: Seq<Map<nat, Task>>, p: int)
    requires
        0 <= p < tasks.len(),
    ensures
        tasks[p].dom().len() <= total(tasks),
    decreases tasks.len(),
{
    if p < tasks.len() - 1 {
        lemma_total_at_least(tasks.drop_last(), p);
    }
}

} // verus!

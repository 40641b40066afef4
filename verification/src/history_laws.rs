//! What a task collection promises over any sequence of operations.

use crate::change_laws::{law_insert_by_task, law_remove_by_task, law_take_by_task,
    law_wake_by_task};
use crate::collection_laws::{is_counted, law_insert_counts, law_insert_keeps_no_stale,
    law_inserted_task_waits, law_new_collection_has_no_stale, law_new_collection_is_counted,
    law_remove_counts, law_removed_task_does_not_wait, law_woken_task_waits, no_stale, total};
use crate::executor::{Executor, ExecutorAction, ExecutorEvent};
use crate::key::{key_offset, key_page, key_position, key_priority, key_slot, TASK_NUM_PER_PRIORITY};
use crate::observe::{law_task_is_found_in_its_slot, stored};
use crate::scan::ScanView;
use crate::scan_laws::{backlog, is_pending, is_run, law_handed_out_once,
    law_rests_when_nothing_is_outstanding, law_rests_without_backlog, law_run_ascends,
    law_run_hands_out_what_is_outstanding, law_run_works_off_the_backlog, lemma_ended_has_no_work,
    lemma_keys_finite, outstanding, pending_keys, times, waiting_keys};
use crate::task::Task;
use crate::task_collection::{position_of_key, task_at, TaskCollection, DEFAULT_PRIORITY,
    MAX_PRIORITY};
use crate::waker_page::{lemma_blank_page, WakerPage};
use vstd::prelude::*;

verus! {

/// An operation on a task collection.
pub enum Operation {
    /// The task was added with the priority and given the key.
    Insert { priority: int, task: Task, key: u64 },
    /// The task with the key was removed.
    Remove { key: u64 },
    /// The task with the key was woken.
    Wake { key: u64 },
    /// The task with the key was taken, or there was none to take.
    Take { taken: Option<u64> },
    /// An executor went on after an event, asked for an action, and became another.
    Execute {
        executor: Executor,
        event: ExecutorEvent,
        after: Executor,
        action: ExecutorAction,
    },
}

/// The operation turns one collection into the other.
pub open spec fn applies(
    before: TaskCollection,
    operation: Operation,
    after: TaskCollection,
) -> bool {
    match operation {
        Operation::Insert { priority, task, key } => {
            &&& 0 <= priority < MAX_PRIORITY
            &&& before.inserts(after, priority, task, key)
        },
        Operation::Remove { key } => before.has_page(key) && before.removes(after, key),
        Operation::Wake { key } => before.has_page(key) && before.wakes(after, key),
        Operation::Take { taken } => before.takes(after, taken),
        Operation::Execute { executor, event, after: executor1, action } => {
            &&& executor.wf(before.pages())
            &&& event is Polled <==> executor.is_running_future
            &&& executor.runs(executor1, before, after, event, action)
        },
    }
}

/// The operations turn each collection into the next.
pub open spec fn is_history(collections: Seq<TaskCollection>, operations: Seq<Operation>) -> bool {
    &&& collections.len() == operations.len() + 1
    &&& forall|i: int| 0 <= i < collections.len() ==> #[trigger] collections[i].wf()
    &&& forall|i: int|
        0 <= i < operations.len() ==> applies(
            collections[i],
            #[trigger] operations[i],
            collections[i + 1],
        )
}

/// A history without its last operation is a history.
proof fn lemma_shorter_history(collections: Seq<TaskCollection>, operations: Seq<Operation>)
    requires
        is_history(collections, operations),
        operations.len() > 0,
    ensures
        is_history(collections.drop_last(), operations.drop_last()),
{
    let (c, o) = (collections.drop_last(), operations.drop_last());
    assert forall|i: int| 0 <= i < c.len() implies #[trigger] c[i].wf() by {
        assert(collections[i].wf());
    }
    assert forall|i: int| 0 <= i < o.len() implies applies(c[i], #[trigger] o[i], c[i + 1]) by {
        assert(o[i] == operations[i]);
    }
}

/// A history without its first operation is a history, in which a task is not removed that was not
/// removed in the whole one.
proof fn lemma_later_history(
    collections: Seq<TaskCollection>,
    operations: Seq<Operation>,
    key: u64,
)
    requires
        is_history(collections, operations),
        operations.len() > 0,
        forall|m: int|
            0 <= m < operations.len() ==> #[trigger] operations[m] != (Operation::Remove { key }),
    ensures
        is_history(collections.skip(1), operations.skip(1)),
        forall|m: int|
            0 <= m < operations.skip(1).len() ==> #[trigger] operations.skip(1)[m] != (
            Operation::Remove { key }),
{
    let (c, o) = (collections.skip(1), operations.skip(1));
    assert forall|m: int| 0 <= m < c.len() implies #[trigger] c[m].wf() by {
        assert(collections[m + 1].wf());
    }
    assert forall|m: int| 0 <= m < o.len() implies applies(c[m], #[trigger] o[m], c[m + 1]) by {
        assert(o[m] == operations[m + 1]);
    }
    assert forall|m: int| 0 <= m < o.len() implies #[trigger] o[m] != (Operation::Remove {
        key,
    }) by {
        assert(o[m] == operations[m + 1]);
    }
}

/// There is a page for each task.
pub proof fn law_live_key_has_page(c: TaskCollection, key: u64)
    requires
        c.wf(),
        task_at(c.tasks(), key) is Some,
    ensures
        c.has_page(key),
{
    let p = key_priority(key);
    assert(c.inners@[p].wf());
    assert(c.tasks()[p] == c.inners@[p].tasks());
    assert(c.pages()[p] == c.inners@[p].pages@);
    assert(c.inners@[p].tasks().contains_key(key_slot(key) as nat));
}

/// A task stays under its key until it is removed, whatever else is done: adding, waking and taking
/// tasks, having executors poll them, and removing others.
pub proof fn law_task_stays_until_removed(
    collections: Seq<TaskCollection>,
    operations: Seq<Operation>,
    key: u64,
    task: Task,
    i: int,
)
    requires
        is_history(collections, operations),
        task_at(collections[0].tasks(), key) == Some(task),
        forall|m: int|
            0 <= m < operations.len() ==> #[trigger] operations[m] != (Operation::Remove { key }),
        0 <= i < collections.len(),
    ensures
        task_at(collections[i].tasks(), key) == Some(task),
        collections[i].has_page(key),
    decreases i,
{
    if i > 0 {
        law_task_stays_until_removed(collections, operations, key, task, i - 1);
        let (before, after) = (collections[i - 1], collections[i]);
        assert(before.wf() && after.wf());
        let operation = operations[i - 1];
        assert(applies(before, operation, after));
        match operation {
            Operation::Insert { priority, task: added, key: given } => {
                law_inserted_task_waits(before, after, priority, added, given, key);
            },
            Operation::Remove { key: removed } => {
                law_removed_task_does_not_wait(before, after, removed, key);
            },
            Operation::Wake { .. } | Operation::Take { .. } | Operation::Execute { .. } => {},
        }
    }
    assert(collections[i].wf());
    law_live_key_has_page(collections[i], key);
}

/// A task that was added and not removed since is, when its key is taken, the task that was added.
/// Its key still has the parts under which it was added, and taking it removes nothing.
pub proof fn law_taken_task_is_the_one_that_was_added(
    collections: Seq<TaskCollection>,
    operations: Seq<Operation>,
    priority: int,
    task: Task,
    key: u64,
    i: int,
)
    requires
        is_history(collections, operations),
        operations.len() > 0,
        operations[0] == (Operation::Insert { priority, task, key }),
        forall|m: int|
            0 <= m < operations.len() ==> #[trigger] operations[m] != (Operation::Remove { key }),
        1 <= i < operations.len(),
        operations[i] == (Operation::Take { taken: Some(key) }),
    ensures
        task_at(collections[i].tasks(), key) == Some(task),
        task_at(collections[i + 1].tasks(), key) == Some(task),
        collections[i + 1].task_num == collections[i].task_num,
        collections[i].has_page(key),
        key_priority(key) == priority,
{
    let (c, o) = (collections.skip(1), operations.skip(1));
    assert(applies(collections[0], operations[0], collections[1]));
    assert(collections[0].wf() && collections[1].wf());
    law_inserted_task_waits(collections[0], collections[1], priority, task, key, key);
    lemma_later_history(collections, operations, key);
    law_task_stays_until_removed(c, o, key, task, i - 1);
    assert(c[i - 1] == collections[i]);
    assert(applies(collections[i], operations[i], collections[i + 1]));
}

/// The task that is stored under a key stays the same as long as the key is not removed.
proof fn lemma_stored_task_stays(
    collections: Seq<TaskCollection>,
    operations: Seq<Operation>,
    key: u64,
    task: Task,
    from: int,
    to: int,
)
    requires
        is_history(collections, operations),
        0 <= from <= to < collections.len(),
        stored(collections[from], key) == Some(task),
        forall|m: int|
            from <= m < to ==> #[trigger] operations[m] != (Operation::Remove { key }),
    ensures
        stored(collections[to], key) == Some(task),
    decreases to - from,
{
    if from < to {
        let n = to - 1;
        lemma_stored_task_stays(collections, operations, key, task, from, n);
        let (before, after) = (collections[n], collections[n + 1]);
        assert(before.wf() && after.wf());
        assert(applies(before, operations[n], after));
        match operations[n] {
            Operation::Insert { priority, task: added, key: given } => {
                law_insert_by_task(before, after, priority, added, given, key);
            },
            Operation::Remove { key: removed } => {
                law_remove_by_task(before, after, removed, key);
            },
            Operation::Wake { key: woken } => {
                law_wake_by_task(before, after, woken, key);
            },
            Operation::Take { taken } => {
                law_take_by_task(before, after, taken, key);
            },
            Operation::Execute { .. } => {
                law_task_is_found_in_its_slot(before, key);
                law_task_is_found_in_its_slot(after, key);
            },
        }
    }
}

/// Whenever an executor asks for a task to be polled, it is the task that was added under that key
/// and not removed since, whatever was added, removed, woken, taken or polled in between.
pub proof fn law_polled_task_is_the_one_that_was_added(
    collections: Seq<TaskCollection>,
    operations: Seq<Operation>,
    added: int,
    polled: int,
)
    requires
        is_history(collections, operations),
        0 <= added < polled < operations.len(),
        operations[added] is Insert,
        operations[polled] is Execute,
        operations[polled]->action is Poll,
        operations[polled]->action->Poll_key == operations[added]->Insert_key,
        forall|m: int|
            added < m < polled ==> #[trigger] operations[m] != (Operation::Remove {
                key: operations[added]->Insert_key,
            }),
    ensures
        operations[polled]->action->task == operations[added]->task,
        operations[polled]->action->task.future == operations[added]->task.future,
        stored(collections[polled], operations[added]->Insert_key) == Some(
            operations[added]->task,
        ),
        stored(collections[polled + 1], operations[added]->Insert_key) == Some(
            operations[added]->task,
        ),
{
    let (task, key) = (operations[added]->task, operations[added]->Insert_key);
    let (before, after) = (collections[added], collections[added + 1]);
    assert(before.wf() && after.wf());
    assert(applies(before, operations[added], after));
    law_insert_by_task(before, after, operations[added]->priority, task, key, key);
    lemma_stored_task_stays(collections, operations, key, task, added + 1, polled);
    lemma_stored_task_stays(collections, operations, key, task, added + 1, polled + 1);
    assert(collections[polled].wf());
    assert(applies(collections[polled], operations[polled], collections[polled + 1]));
    law_task_is_found_in_its_slot(collections[polled], key);
}

/// An executor never finds that a task is not there which was added and not removed since.
pub proof fn law_added_task_is_never_stale(
    collections: Seq<TaskCollection>,
    operations: Seq<Operation>,
    added: int,
    met: int,
)
    requires
        is_history(collections, operations),
        0 <= added < met < operations.len(),
        operations[added] is Insert,
        operations[met] is Execute,
        forall|m: int|
            added < m < met ==> #[trigger] operations[m] != (Operation::Remove {
                key: operations[added]->Insert_key,
            }),
    ensures
        operations[met]->action != (ExecutorAction::Stale { key: operations[added]->Insert_key }),
{
    let (task, key) = (operations[added]->task, operations[added]->Insert_key);
    let (before, after) = (collections[added], collections[added + 1]);
    assert(before.wf() && after.wf());
    assert(applies(before, operations[added], after));
    law_insert_by_task(before, after, operations[added]->priority, task, key, key);
    lemma_stored_task_stays(collections, operations, key, task, added + 1, met);
    assert(collections[met].wf());
    assert(applies(collections[met], operations[met], collections[met + 1]));
    law_task_is_found_in_its_slot(collections[met], key);
}

/// The slot of a key that was removed stays empty as long as no task is given that key.
proof fn lemma_removed_slot_stays_empty(
    collections: Seq<TaskCollection>,
    operations: Seq<Operation>,
    key: u64,
    from: int,
    to: int,
)
    requires
        is_history(collections, operations),
        0 <= from <= to < collections.len(),
        stored(collections[from], key) is None,
        forall|m: int|
            from <= m < to ==> (#[trigger] operations[m] is Insert ==> operations[m]->Insert_key
                != key),
    ensures
        stored(collections[to], key) is None,
    decreases to - from,
{
    if from < to {
        let n = to - 1;
        lemma_removed_slot_stays_empty(collections, operations, key, from, n);
        let (before, after) = (collections[n], collections[n + 1]);
        assert(before.wf() && after.wf());
        assert(applies(before, operations[n], after));
        match operations[n] {
            Operation::Insert { priority, task: added, key: given } => {
                law_insert_by_task(before, after, priority, added, given, key);
            },
            Operation::Remove { key: removed } => {
                law_remove_by_task(before, after, removed, key);
            },
            Operation::Wake { key: woken } => {
                law_wake_by_task(before, after, woken, key);
            },
            Operation::Take { taken } => {
                law_take_by_task(before, after, taken, key);
            },
            Operation::Execute { .. } => {
                law_task_is_found_in_its_slot(before, key);
                law_task_is_found_in_its_slot(after, key);
            },
        }
    }
}

/// A task that was removed is not polled any more, unless its key is given to another task.
pub proof fn law_removed_task_is_not_polled(
    collections: Seq<TaskCollection>,
    operations: Seq<Operation>,
    removed: int,
    polled: int,
)
    requires
        is_history(collections, operations),
        0 <= removed < polled < operations.len(),
        operations[removed] is Remove,
        operations[polled] is Execute,
        operations[polled]->action is Poll,
        forall|m: int|
            removed < m < polled ==> (#[trigger] operations[m] is Insert
                ==> operations[m]->Insert_key != operations[removed]->Remove_key),
    ensures
        operations[polled]->action->Poll_key != operations[removed]->Remove_key,
{
    let key = operations[removed]->Remove_key;
    let (before, after) = (collections[removed], collections[removed + 1]);
    assert(before.wf() && after.wf());
    assert(applies(before, operations[removed], after));
    law_remove_by_task(before, after, key, key);
    lemma_removed_slot_stays_empty(collections, operations, key, removed + 1, polled);
    assert(collections[polled].wf());
    assert(applies(collections[polled], operations[polled], collections[polled + 1]));
    law_task_is_found_in_its_slot(collections[polled], operations[polled]->action->Poll_key);
}

/// The key that a task was given is taken apart into the priority with which the task was added,
/// its page and its index within the page.
pub proof fn law_key_of_added_task_is_taken_apart(
    before: TaskCollection,
    after: TaskCollection,
    priority: int,
    task: Task,
    key: u64,
)
    requires
        before.wf(),
        0 <= priority < MAX_PRIORITY,
        before.inserts(after, priority, task, key),
    ensures
        after.has_page(key),
        key_priority(key) == priority,
        key_page(key) == (key % TASK_NUM_PER_PRIORITY) / 64,
        key_offset(key) == key % 64,
        key_slot(key) == before.inners@[priority].next_key(),
{
}

/// Two tasks that are there together have different keys, and the key of the task with the smaller
/// priority is the smaller one.
pub proof fn law_keys_of_live_tasks_are_ordered_by_priority(
    collections: Seq<TaskCollection>,
    operations: Seq<Operation>,
    priority1: int,
    task1: Task,
    key1: u64,
    priority2: int,
    task2: Task,
    key2: u64,
)
    requires
        is_history(collections, operations),
        operations.len() >= 2,
        operations[0] == (Operation::Insert { priority: priority1, task: task1, key: key1 }),
        operations.last() == (Operation::Insert { priority: priority2, task: task2, key: key2 }),
        forall|m: int|
            0 <= m < operations.len() ==> #[trigger] operations[m] != (Operation::Remove {
                key: key1,
            }),
    ensures
        key1 != key2,
        priority1 < priority2 ==> key1 < key2,
        priority1 > priority2 ==> key1 > key2,
{
    let n = operations.len() - 1;
    let (c, o) = (collections.skip(1), operations.skip(1));
    assert(applies(collections[0], operations[0], collections[1]));
    assert(collections[0].wf() && collections[1].wf());
    law_inserted_task_waits(collections[0], collections[1], priority1, task1, key1, key1);
    lemma_later_history(collections, operations, key1);
    law_task_stays_until_removed(c, o, key1, task1, n - 1);
    assert(c[n - 1] == collections[n]);
    assert(applies(collections[n], operations[n], collections[n + 1]));
    assert(collections[n].wf() && collections[n + 1].wf());
    law_inserted_task_waits(collections[n], collections[n + 1], priority2, task2, key2, key2);
}

/// The number of operations that added a task.
pub open spec fn insertions(operations: Seq<Operation>) -> int
    decreases operations.len(),
{
    if operations.len() == 0 {
        0
    } else {
        insertions(operations.drop_last()) + (if operations.last() is Insert {
            1int
        } else {
            0
        })
    }
}

/// The number of operations that removed a task.
pub open spec fn removals(operations: Seq<Operation>) -> int
    decreases operations.len(),
{
    if operations.len() == 0 {
        0
    } else {
        removals(operations.drop_last()) + (if operations.last() is Remove {
            1int
        } else {
            0
        })
    }
}

/// The number of tasks is that of the tasks in all slabs, and that of the insertions without the
/// removals, as long as only tasks are removed that are there. Taking, waking and polling tasks does
/// not change it.
pub proof fn law_task_num_counts_insertions_and_removals(
    collections: Seq<TaskCollection>,
    operations: Seq<Operation>,
)
    requires
        is_history(collections, operations),
        collections[0].is_fresh(),
        forall|i: int|
            0 <= i < operations.len() ==> (#[trigger] operations[i] matches Operation::Remove {
                key,
            } ==> task_at(collections[i].tasks(), key) is Some),
    ensures
        collections.last().task_num == insertions(operations) - removals(operations),
        collections.last().task_num == total(collections.last().tasks()),
    decreases operations.len(),
{
    assert(collections[0].wf());
    if operations.len() == 0 {
        law_new_collection_is_counted(collections[0]);
    } else {
        let n = operations.len() - 1;
        let (c, o) = (collections.drop_last(), operations.drop_last());
        lemma_shorter_history(collections, operations);
        assert forall|i: int| 0 <= i < o.len() implies (#[trigger] o[i] matches Operation::Remove {
            key,
        } ==> task_at(c[i].tasks(), key) is Some) by {
            assert(o[i] == operations[i]);
        }
        law_task_num_counts_insertions_and_removals(c, o);
        let (before, after) = (collections[n], collections[n + 1]);
        assert(before.wf() && after.wf());
        assert(c.last() == before);
        assert(is_counted(before));
        assert(operations[n] == operations.last());
        assert(applies(before, operations[n], after));
        match operations[n] {
            Operation::Insert { priority, task, key } => {
                law_insert_counts(before, after, priority, task, key);
            },
            Operation::Remove { key } => {
                law_remove_counts(before, after, key);
            },
            Operation::Wake { .. } | Operation::Take { .. } | Operation::Execute { .. } => {},
        }
    }
}

/// A collection whose scan found no task: nothing is outstanding, and no page holds any state.
pub proof fn law_rested_collection_is_blank(
    before: TaskCollection,
    rested: TaskCollection,
    key: u64,
    p: int,
    j: int,
)
    requires
        before.wf(),
        rested.wf(),
        before.takes(rested, None),
        0 <= p < MAX_PRIORITY,
        0 <= j < rested.pages()[p].len(),
    ensures
        rested.scan@ == ScanView::ended(),
        outstanding(rested.scan@, rested.pages(), key) == 0,
        rested.pages()[p][j] == WakerPage::blank(),
{
    law_rests_when_nothing_is_outstanding(
        before.scan@,
        before.pages(),
        rested.scan@,
        rested.pages(),
        key,
    );
}

/// Nothing is outstanding in a collection whose scan found no task.
proof fn lemma_rested(before: TaskCollection, rested: TaskCollection)
    requires
        before.wf(),
        rested.wf(),
        before.takes(rested, None),
    ensures
        rested.scan@ == ScanView::ended(),
        forall|key: u64| #[trigger] outstanding(rested.scan@, rested.pages(), key) == 0,
{
    assert forall|key: u64| #[trigger] outstanding(rested.scan@, rested.pages(), key) == 0 by {
        law_rests_when_nothing_is_outstanding(
            before.scan@,
            before.pages(),
            rested.scan@,
            rested.pages(),
            key,
        );
    }
}

/// When only the task with the key `key` is outstanding, it is taken next, and then none.
proof fn lemma_only_outstanding_task_is_taken(
    c: TaskCollection,
    key: u64,
    after: TaskCollection,
    taken: Option<u64>,
    last: TaskCollection,
    taken1: Option<u64>,
)
    requires
        c.wf(),
        after.wf(),
        forall|k: u64| #[trigger] outstanding(c.scan@, c.pages(), k) == (if k == key {
            1int
        } else {
            0
        }),
        c.takes(after, taken),
        after.takes(last, taken1),
    ensures
        taken == Some(key),
        taken1 is None,
{
    assert(outstanding(c.scan@, c.pages(), key) == 1);
    match taken {
        None => {
            law_rests_when_nothing_is_outstanding(
                c.scan@,
                c.pages(),
                after.scan@,
                after.pages(),
                key,
            );
        },
        Some(k) => {
            law_handed_out_once(c.scan@, c.pages(), after.scan@, after.pages(), k, k);
            if let Some(k1) = taken1 {
                law_handed_out_once(c.scan@, c.pages(), after.scan@, after.pages(), k, k1);
                assert(outstanding(c.scan@, c.pages(), k1) == (if k1 == key {
                    1int
                } else {
                    0
                }));
                law_handed_out_once(after.scan@, after.pages(), last.scan@, last.pages(), k1, k1);
            }
        },
    }
}

/// When the scan found no task and nothing was woken or added since, it finds no task again.
pub proof fn law_nothing_is_taken_twice(
    before: TaskCollection,
    rested: TaskCollection,
    after: TaskCollection,
    taken: Option<u64>,
)
    requires
        before.wf(),
        rested.wf(),
        before.takes(rested, None),
        rested.takes(after, taken),
    ensures
        taken is None,
{
    if let Some(key) = taken {
        lemma_rested(before, rested);
        assert(outstanding(rested.scan@, rested.pages(), key) == 0);
        law_handed_out_once(
            rested.scan@,
            rested.pages(),
            after.scan@,
            after.pages(),
            key,
            key,
        );
    }
}

/// When the scan found no task and one task is woken, that task is taken next, and then none.
pub proof fn law_woken_task_is_taken_next(
    before: TaskCollection,
    rested: TaskCollection,
    key: u64,
    woken: TaskCollection,
    after: TaskCollection,
    taken: Option<u64>,
    last: TaskCollection,
    taken1: Option<u64>,
)
    requires
        before.wf(),
        rested.wf(),
        woken.wf(),
        after.wf(),
        before.takes(rested, None),
        rested.has_page(key),
        rested.wakes(woken, key),
        woken.takes(after, taken),
        after.takes(last, taken1),
    ensures
        taken == Some(key),
        taken1 is None,
{
    let (p, j, b) = key_position(key);
    lemma_rested(before, rested);
    law_rested_collection_is_blank(before, rested, key, p, j);
    lemma_blank_page();
    assert(!rested.pages()[p][j].is_dropped(b));
    assert forall|k: u64| #[trigger] outstanding(woken.scan@, woken.pages(), k) == (if k == key {
        1int
    } else {
        0
    }) by {
        assert(outstanding(rested.scan@, rested.pages(), k) == 0);
        law_woken_task_waits(rested, woken, key, k);
    }
    lemma_only_outstanding_task_is_taken(woken, key, after, taken, last, taken1);
}

/// When the scan found no task and one task is added, that task is taken next, and then none.
pub proof fn law_added_task_is_taken_next(
    before: TaskCollection,
    rested: TaskCollection,
    priority: int,
    task: Task,
    key: u64,
    added: TaskCollection,
    after: TaskCollection,
    taken: Option<u64>,
    last: TaskCollection,
    taken1: Option<u64>,
)
    requires
        before.wf(),
        rested.wf(),
        added.wf(),
        after.wf(),
        before.takes(rested, None),
        0 <= priority < MAX_PRIORITY,
        rested.inserts(added, priority, task, key),
        added.takes(after, taken),
        after.takes(last, taken1),
    ensures
        taken == Some(key),
        task_at(added.tasks(), key) == Some(task),
        taken1 is None,
        rested.task_num < usize::MAX ==> added.task_num == rested.task_num + 1,
{
    lemma_rested(before, rested);
    assert forall|k: u64| #[trigger] outstanding(added.scan@, added.pages(), k) == (if k == key {
        1int
    } else {
        0
    }) by {
        assert(outstanding(rested.scan@, rested.pages(), k) == 0);
        law_inserted_task_waits(rested, added, priority, task, key, k);
    }
    law_inserted_task_waits(rested, added, priority, task, key, key);
    lemma_only_outstanding_task_is_taken(added, key, after, taken, last, taken1);
}

/// Tasks are added one by one, and given the keys `keys`.
pub open spec fn is_filling(
    collections: Seq<TaskCollection>,
    priorities: Seq<int>,
    tasks: Seq<Task>,
    keys: Seq<u64>,
) -> bool {
    &&& collections.len() == keys.len() + 1
    &&& priorities.len() == keys.len()
    &&& tasks.len() == keys.len()
    &&& forall|i: int| 0 <= i < collections.len() ==> #[trigger] collections[i].wf()
    &&& forall|i: int| 0 <= i < keys.len() ==> 0 <= #[trigger] priorities[i] < MAX_PRIORITY
    &&& forall|i: int|
        0 <= i < keys.len() ==> collections[i].inserts(
            collections[i + 1],
            priorities[i],
            tasks[i],
            #[trigger] keys[i],
        )
}

/// In a collection to which tasks were only added, each of them is outstanding once.
proof fn lemma_filling(
    collections: Seq<TaskCollection>,
    priorities: Seq<int>,
    tasks: Seq<Task>,
    keys: Seq<u64>,
)
    requires
        is_filling(collections, priorities, tasks, keys),
        collections[0].is_fresh(),
    ensures
        ({
            let c = collections.last();
            &&& c.wf()
            &&& c.scan@ == ScanView::ended()
            &&& no_stale(c.scan@, c.pages(), c.tasks())
            &&& forall|key: u64| #[trigger] outstanding(c.scan@, c.pages(), key) == times(keys, key)
            &&& backlog(c.scan@, c.pages()) == keys.len()
        }),
    decreases keys.len(),
{
    let c = collections.last();
    assert(collections[collections.len() - 1].wf());
    lemma_keys_finite(c.scan@, c.pages());
    if keys.len() == 0 {
        law_new_collection_has_no_stale(c);
        assert forall|key: u64| #[trigger] outstanding(c.scan@, c.pages(), key) == 0 by {
            assert(c.pages()[key_priority(key)] == Seq::<WakerPage>::empty());
        }
        assert forall|k: int| !waiting_keys(c.pages()).contains(k) by {
            if 0 <= k <= u64::MAX {
                assert(outstanding(c.scan@, c.pages(), k as u64) == 0);
            }
        }
        assert(waiting_keys(c.pages()) =~= Set::<int>::empty());
        assert(pending_keys(c.scan@) =~= Set::<int>::empty());
    } else {
        let n = keys.len() - 1;
        let key = keys[n];
        let b = collections[n];
        let (c0, p0, t0, k0) = (
            collections.drop_last(),
            priorities.drop_last(),
            tasks.drop_last(),
            keys.drop_last(),
        );
        assert forall|i: int| 0 <= i < c0.len() implies #[trigger] c0[i].wf() by {
            assert(collections[i].wf());
        }
        assert forall|i: int| 0 <= i < k0.len() implies 0 <= #[trigger] p0[i] < MAX_PRIORITY by {
            assert(p0[i] == priorities[i]);
        }
        assert forall|i: int| 0 <= i < k0.len() implies c0[i].inserts(
            c0[i + 1],
            p0[i],
            t0[i],
            #[trigger] k0[i],
        ) by {
            assert(k0[i] == keys[i]);
        }
        lemma_filling(c0, p0, t0, k0);
        assert(c0.last() == b);
        assert(b.inserts(c, priorities[n], tasks[n], key));
        law_insert_keeps_no_stale(b, c, c.scan@, priorities[n], tasks[n], key);
        law_inserted_task_waits(b, c, priorities[n], tasks[n], key, key);
        assert(outstanding(b.scan@, b.pages(), key) == 0);
        assert forall|k: u64| #[trigger]
            outstanding(c.scan@, c.pages(), k) == times(keys, k) by {
            law_inserted_task_waits(b, c, priorities[n], tasks[n], key, k);
            assert(outstanding(b.scan@, b.pages(), k) == times(k0, k));
            assert(keys.last() == key);
        }
        lemma_keys_finite(b.scan@, b.pages());
        assert(waiting_keys(c.pages()) =~= waiting_keys(b.pages()).insert(key as int)) by {
            assert forall|k: int|
                waiting_keys(c.pages()).contains(k) == waiting_keys(b.pages()).insert(
                    key as int,
                ).contains(k) by {
                if 0 <= k <= u64::MAX {
                    law_inserted_task_waits(b, c, priorities[n], tasks[n], key, k as u64);
                }
            }
        }
        assert(!waiting_keys(b.pages()).contains(key as int));
        assert(pending_keys(c.scan@) =~= Set::<int>::empty());
        assert(pending_keys(b.scan@) =~= Set::<int>::empty());
    }
}

/// When tasks were added to a new collection and nothing else was done, the scan hands out each of
/// them once, in the order of their keys, and then finds no task: as long as it has handed out
/// fewer tasks than were added it finds another one, and when it has handed out as many they are
/// all that were added.
pub proof fn law_added_tasks_are_taken_in_order(
    collections: Seq<TaskCollection>,
    priorities: Seq<int>,
    tasks: Seq<Task>,
    keys: Seq<u64>,
    states: Seq<ScanView>,
    pages: Seq<Seq<Seq<WakerPage>>>,
    taken: Seq<u64>,
    state1: ScanView,
    pages1: Seq<Seq<WakerPage>>,
    next: Option<u64>,
)
    requires
        is_filling(collections, priorities, tasks, keys),
        collections[0].is_fresh(),
        is_run(states, pages, taken),
        states[0] == collections.last().scan@,
        pages[0] == collections.last().pages(),
        states.last().resumes(pages.last(), state1, pages1, position_of_key(next)),
    ensures
        taken.len() <= keys.len(),
        next is None <==> taken.len() == keys.len(),
        forall|i: int, j: int| 0 <= i < j < taken.len() ==> taken[i] < taken[j],
        forall|key: u64| #[trigger] times(taken, key) <= times(keys, key) <= 1,
        taken.len() == keys.len() ==> forall|key: u64| #[trigger]
            times(taken, key) == times(keys, key),
        forall|i: int| 0 <= i < taken.len() ==> keys.contains(#[trigger] taken[i]),
{
    lemma_filling(collections, priorities, tasks, keys);
    lemma_ended_has_no_work(pages[0]);
    law_run_works_off_the_backlog(states, pages, taken);
    law_rests_without_backlog(states.last(), pages.last(), state1, pages1, next);
    assert forall|i: int, j: int| 0 <= i < j < taken.len() implies taken[i] < taken[j] by {
        law_run_ascends(states, pages, taken, i, j);
    }
    assert forall|key: u64| #[trigger] times(taken, key) <= times(keys, key) <= 1 by {
        law_run_hands_out_what_is_outstanding(states, pages, taken, key);
        assert(outstanding(states[0], pages[0], key) == times(keys, key));
        assert(!is_pending(states[0], key));
    }
    if taken.len() == keys.len() {
        assert forall|key: u64| #[trigger] times(taken, key) == times(keys, key) by {
            law_run_hands_out_what_is_outstanding(states, pages, taken, key);
            law_rests_when_nothing_is_outstanding(
                states.last(),
                pages.last(),
                state1,
                pages1,
                key,
            );
            assert(outstanding(states[0], pages[0], key) == times(keys, key));
        }
    }
    assert forall|i: int| 0 <= i < taken.len() implies keys.contains(#[trigger] taken[i]) by {
        lemma_times_of_element(taken, i);
        assert(times(taken, taken[i]) <= times(keys, taken[i]));
        lemma_times_means_contains(keys, taken[i]);
    }
}

/// An element of a sequence occurs in it.
proof fn lemma_times_of_element(s: Seq<u64>, i: int)
    requires
        0 <= i < s.len(),
    ensures
        times(s, s[i]) >= 1,
    decreases s.len(),
{
    if i < s.len() - 1 {
        lemma_times_of_element(s.drop_last(), i);
    }
}

/// What occurs in a sequence is an element of it.
proof fn lemma_times_means_contains(s: Seq<u64>, key: u64)
    requires
        times(s, key) >= 1,
    ensures
        s.contains(key),
    decreases s.len(),
{
    if s.last() == key {
        assert(s[s.len() - 1] == key);
    } else {
        lemma_times_means_contains(s.drop_last(), key);
        let i = choose|i: int| 0 <= i < s.drop_last().len() && s.drop_last()[i] == key;
        assert(s[i] == key);
    }
}

/// Two collections hold the same tasks in the same state.
pub open spec fn same_state(a: TaskCollection, b: TaskCollection) -> bool {
    &&& a.tasks() == b.tasks()
    &&& a.vacant() == b.vacant()
    &&& a.pages() == b.pages()
    &&& a.task_num == b.task_num
    &&& a.scan@ == b.scan@
}

/// Adding a task without a priority is adding it with the default priority, which is 4: it gives
/// the same key and the same state.
pub proof fn law_insert_uses_the_default_priority(
    a: TaskCollection,
    a1: TaskCollection,
    b: TaskCollection,
    b1: TaskCollection,
    task: Task,
    key_a: u64,
    key_b: u64,
)
    requires
        a.wf(),
        b.wf(),
        same_state(a, b),
        a.inserts(a1, DEFAULT_PRIORITY as int, task, key_a),
        b.inserts(b1, 4, task, key_b),
    ensures
        key_a == key_b,
        same_state(a1, b1),
{
    law_inserting_is_determined(a, a1, b, b1, 4, task, key_a, key_b);
}

/// The key of a new task and the state of the collection depend on nothing but the state before,
/// the priority and the task.
pub proof fn law_inserting_is_determined(
    a: TaskCollection,
    a1: TaskCollection,
    b: TaskCollection,
    b1: TaskCollection,
    priority: int,
    task: Task,
    key_a: u64,
    key_b: u64,
)
    requires
        a.wf(),
        b.wf(),
        0 <= priority < MAX_PRIORITY,
        same_state(a, b),
        a.inserts(a1, priority, task, key_a),
        b.inserts(b1, priority, task, key_b),
    ensures
        key_a == key_b,
        same_state(a1, b1),
{
    assert(a.tasks()[priority] == a.inners@[priority].tasks());
    assert(b.tasks()[priority] == b.inners@[priority].tasks());
    assert(a.vacant()[priority] == a.inners@[priority].vacant());
    assert(b.vacant()[priority] == b.inners@[priority].vacant());
    assert(a.pages()[priority] == a.inners@[priority].pages@);
    assert(b.pages()[priority] == b.inners@[priority].pages@);
}

} // verus!

//! What each change of a collection does to each task: to the one that it is about, and to every
//! other.

use crate::key::{key_offset, key_position, key_priority, key_slot};
use crate::observe::{bit_is_set, is_paged, law_collection_is_its_slabs_and_pages,
    law_key_is_priority_and_slot, law_task_is_found_in_its_slot, law_task_is_observed, page_for,
    seen_dropped, seen_held, seen_ready, seen_woken, stored, times_due};
use crate::scan::ScanView;
use crate::scan_laws::{is_run, law_run_to_rest_hands_out_all, times};
use crate::step_laws::{law_page_operations_by_bits, law_step_drops_and_wakes_no_task,
    law_step_hands_out_what_is_due};
use crate::task::Task;
use crate::task_collection::{dropped_at, Inner, TaskCollection};
use crate::waker_page::{offset_of, page_of, WakerPage};
use vstd::prelude::*;

verus! {

/// Marking the task `key` as dropped sets its bit among the dropped, and changes no other bit.
pub proof fn law_drop_by_task(pages: Seq<Seq<WakerPage>>, key: u64, other: u64)
    requires
        pages.len() == 32,
        is_paged(pages, key),
    ensures
        is_paged(dropped_at(pages, key_position(key)), other) == is_paged(pages, other),
        seen_dropped(dropped_at(pages, key_position(key)), key),
        seen_woken(dropped_at(pages, key_position(key)), other) == seen_woken(pages, other),
        other != key ==> seen_dropped(dropped_at(pages, key_position(key)), other) == seen_dropped(
            pages,
            other,
        ),
{
    law_key_is_priority_and_slot(key);
    law_key_is_priority_and_slot(other);
    let (p, j, b) = key_position(key);
    let page = pages[p][j];
    law_page_operations_by_bits(page, b, b);
    law_page_operations_by_bits(page, b, key_offset(other));
}

/// A collection to which no task was ever added stores no task, counts none, has none woken or marked
/// as dropped, and its scan holds none.
pub proof fn law_new_collection_is_empty(collection: TaskCollection, key: u64)
    requires
        collection.wf(),
        collection.is_fresh(),
    ensures
        stored(collection, key) is None,
        collection.task_num == 0,
        !seen_woken(collection.pages(), key),
        !seen_dropped(collection.pages(), key),
        !seen_held(collection.scan@, key),
        collection.inners@.len() == 32,
        collection.inners@[key as int / 0x0800_0000_0000_0000].slab.vacant() == Seq::<nat>::empty(),
        collection.inners@[key as int / 0x0800_0000_0000_0000].pages@
            == Seq::<WakerPage>::empty(),
{
    law_key_is_priority_and_slot(key);
    law_collection_is_its_slabs_and_pages(collection, key_priority(key));
    law_task_is_found_in_its_slot(collection, key);
}

/// There is a page for a key when the pages of its priority reach up to it, and there is room for
/// another task as long as the pages are not at their limit.
pub proof fn law_page_and_room(collection: TaskCollection, key: u64, priority: int)
    requires
        collection.wf(),
        0 <= priority < 32,
    ensures
        collection.has_page(key) == is_paged(collection.pages(), key),
        collection.inners@[priority].pages@.len() < usize::MAX / 2048
            ==> collection.inners@[priority].has_room(),
        collection.inners@[priority].slab.vacant().len() > 0
            ==> collection.inners@[priority].has_room(),
        collection.inners@[priority].slab.tasks().dom().len() < 64
            * collection.inners@[priority].pages@.len()
            ==> collection.inners@[priority].has_room(),
{
    law_key_is_priority_and_slot(key);
    let inner = collection.inners@[priority];
    assert(inner.wf());
    if inner.slab.vacant().len() > 0 {
        let i = inner.slab.vacant().len() - 1;
        assert(inner.slab.vacant()[i] == inner.slab.vacant().last());
    }
}

/// Within a priority, slot `slot` has bit `slot % 64` of page `slot / 64`. Adding a task in that slot
/// prepares its bits and changes no other, and adds a blank page when there is none for the slot.
pub proof fn law_slot_is_prepared_on_its_page(inner: Inner, slot: int, other: int)
    requires
        0 <= slot <= 64 * inner.pages@.len(),
        0 <= other,
        other / 64 < inner.pages_with(slot).len(),
    ensures
        page_of(slot) == slot / 64,
        offset_of(slot) == slot % 64,
        inner.pages_with(slot).len() == if slot / 64 < inner.pages@.len() {
            inner.pages@.len()
        } else {
            inner.pages@.len() + 1
        },
        bit_is_set(inner.pages_with(slot)[slot / 64].notified, slot % 64),
        !bit_is_set(inner.pages_with(slot)[slot / 64].dropped, slot % 64),
        other != slot ==> bit_is_set(inner.pages_with(slot)[other / 64].notified, other % 64) == (
        other / 64 < inner.pages@.len() && bit_is_set(
            inner.pages@[other / 64].notified,
            other % 64,
        )),
        other != slot ==> bit_is_set(inner.pages_with(slot)[other / 64].dropped, other % 64) == (
        other / 64 < inner.pages@.len() && bit_is_set(inner.pages@[other / 64].dropped, other % 64)),
{
    let filled = if slot < 64 * inner.pages@.len() {
        inner.pages@
    } else {
        inner.pages@.push(WakerPage::blank())
    };
    law_page_operations_by_bits(filled[slot / 64], slot % 64, slot % 64);
    law_page_operations_by_bits(filled[slot / 64], slot % 64, other % 64);
    law_page_operations_by_bits(filled[other / 64], 0, other % 64);
}

/// Adding a task gives it a key that no task had, with the given priority in its upper bits. The
/// task is stored under the key, is woken and is not marked as dropped. Nothing changes for any
/// other task: what is stored, woken, marked as dropped or held by the scan stays so. The count goes
/// up by one.
pub proof fn law_insert_by_task(
    before: TaskCollection,
    after: TaskCollection,
    priority: int,
    task: Task,
    key: u64,
    other: u64,
)
    requires
        before.wf(),
        after.wf(),
        0 <= priority < 32,
        before.inserts(after, priority, task, key),
    ensures
        key as int / 0x0800_0000_0000_0000 == priority,
        stored(before, key) is None,
        stored(after, key) == Some(task),
        seen_woken(after.pages(), key),
        !seen_dropped(after.pages(), key),
        other != key ==> {
            &&& stored(after, other) == stored(before, other)
            &&& seen_woken(after.pages(), other) == seen_woken(before.pages(), other)
            &&& seen_dropped(after.pages(), other) == seen_dropped(before.pages(), other)
            &&& times_due(after.scan@, after.pages(), other) == times_due(
                before.scan@,
                before.pages(),
                other,
            )
        },
        seen_held(after.scan@, other) == seen_held(before.scan@, other),
        after.scan@ == before.scan@,
        before.task_num < usize::MAX ==> after.task_num == before.task_num + 1,
        before.task_num == usize::MAX ==> after.task_num == 0,
{
    law_key_is_priority_and_slot(key);
    law_key_is_priority_and_slot(other);
    law_collection_is_its_slabs_and_pages(before, priority);
    law_collection_is_its_slabs_and_pages(after, priority);
    law_collection_is_its_slabs_and_pages(before, key_priority(other));
    law_collection_is_its_slabs_and_pages(after, key_priority(other));
    let (p, j, b) = key_position(key);
    let (kp, kj, kb) = key_position(other);
    let (pages, pages1) = (before.pages(), after.pages());
    let slot = key_slot(key);
    let old_pages = before.inners@[p].pages@;
    let filled = if slot < 64 * old_pages.len() {
        old_pages
    } else {
        old_pages.push(WakerPage::blank())
    };
    assert(pages1[p] == filled.update(j, filled[j].initialized(b)));
    law_page_operations_by_bits(filled[j], b, b);
    law_page_operations_by_bits(filled[j], b, kb);
    assert(page_for(pages1, key) == filled[j].initialized(b));
    if kp == p && slot >= 64 * old_pages.len() {
        assert(j == old_pages.len());
    }
}

/// The keys of a priority are given out one after the other: a key that was freed is given out again
/// before a new one is, the last first, and a new one continues the numbering.
pub proof fn law_insert_reuses_the_last_freed_key(
    before: TaskCollection,
    after: TaskCollection,
    priority: int,
    task: Task,
    key: u64,
)
    requires
        before.wf(),
        after.wf(),
        0 <= priority < 32,
        before.inserts(after, priority, task, key),
    ensures
        ({
            let slab = before.inners@[priority].slab;
            let slab1 = after.inners@[priority].slab;
            let slot = key as int % 0x0800_0000_0000_0000;
            if slab.vacant().len() > 0 {
                slot == slab.vacant().last() && slab1.vacant() == slab.vacant().drop_last()
            } else {
                slot == slab.tasks().dom().len() && slab1.vacant() == slab.vacant()
            }
        }),
        forall|p: int| 0 <= p < 32 && p != priority ==> #[trigger] after.inners@[p].slab.vacant()
            == before.inners@[p].slab.vacant(),
        forall|p: int| 0 <= p < 32 && p != priority ==> #[trigger] after.inners@[p].pages@
            == before.inners@[p].pages@,
        after.inners@[priority].pages@.len() == if (key as int % 0x0800_0000_0000_0000) / 64
            < before.inners@[priority].pages@.len() {
            before.inners@[priority].pages@.len()
        } else {
            before.inners@[priority].pages@.len() + 1
        },
{
    law_key_is_priority_and_slot(key);
    assert(after.inners@.len() == 32 && before.inners@.len() == 32);
    assert forall|p: int| 0 <= p < 32 implies (#[trigger] after.inners@[p]).slab.vacant()
        == after.vacant()[p] && after.inners@[p].pages@ == after.pages()[p]
        && before.inners@[p].slab.vacant() == before.vacant()[p] && before.inners@[p].pages@
        == before.pages()[p] by {
        law_collection_is_its_slabs_and_pages(before, p);
        law_collection_is_its_slabs_and_pages(after, p);
    }
}

/// Removing a task empties the slot of its key, marks the key as dropped, and takes one off the
/// count. Nothing changes for any other task, and nothing about how often it is still to be handed
/// out: what the scan had taken and not handed out yet, it still holds.
pub proof fn law_remove_by_task(
    before: TaskCollection,
    after: TaskCollection,
    key: u64,
    other: u64,
)
    requires
        before.wf(),
        after.wf(),
        is_paged(before.pages(), key),
        before.removes(after, key),
    ensures
        stored(after, key) is None,
        seen_dropped(after.pages(), key),
        seen_woken(after.pages(), key) == seen_woken(before.pages(), key),
        other != key ==> {
            &&& stored(after, other) == stored(before, other)
            &&& seen_woken(after.pages(), other) == seen_woken(before.pages(), other)
            &&& seen_dropped(after.pages(), other) == seen_dropped(before.pages(), other)
            &&& times_due(after.scan@, after.pages(), other) == times_due(
                before.scan@,
                before.pages(),
                other,
            )
        },
        seen_held(after.scan@, other) == seen_held(before.scan@, other),
        after.scan@ == before.scan@,
        before.task_num > 0 ==> after.task_num == before.task_num - 1,
        before.task_num == 0 ==> after.task_num == usize::MAX,
{
    law_key_is_priority_and_slot(key);
    law_key_is_priority_and_slot(other);
    law_drop_by_task(before.pages(), key, other);
    law_drop_by_task(before.pages(), key, key);
    law_collection_is_its_slabs_and_pages(before, key_priority(key));
    law_collection_is_its_slabs_and_pages(after, key_priority(key));
    law_collection_is_its_slabs_and_pages(before, key_priority(other));
    law_collection_is_its_slabs_and_pages(after, key_priority(other));
}

/// Removing a task frees its key, unless it was free already. The keys of other priorities and the
/// number of pages stay as they are.
pub proof fn law_remove_frees_the_key(before: TaskCollection, after: TaskCollection, key: u64)
    requires
        before.wf(),
        after.wf(),
        is_paged(before.pages(), key),
        before.removes(after, key),
    ensures
        ({
            let p = key as int / 0x0800_0000_0000_0000;
            let slot = (key as int % 0x0800_0000_0000_0000) as nat;
            after.inners@[p].slab.vacant() == if stored(before, key) is Some {
                before.inners@[p].slab.vacant().push(slot)
            } else {
                before.inners@[p].slab.vacant()
            }
        }),
        forall|p: int|
            0 <= p < 32 && p != key as int / 0x0800_0000_0000_0000 ==> #[trigger]
                after.inners@[p].slab.vacant() == before.inners@[p].slab.vacant(),
        forall|p: int| 0 <= p < 32 ==> #[trigger] after.inners@[p].pages@.len()
            == before.inners@[p].pages@.len(),
{
    law_key_is_priority_and_slot(key);
    assert(after.inners@.len() == 32 && before.inners@.len() == 32);
    law_task_is_found_in_its_slot(before, key);
    assert forall|p: int| 0 <= p < 32 implies (#[trigger] after.inners@[p]).slab.vacant()
        == after.vacant()[p] && after.inners@[p].pages@ == after.pages()[p]
        && before.inners@[p].slab.vacant() == before.vacant()[p] && before.inners@[p].pages@
        == before.pages()[p] by {
        law_collection_is_its_slabs_and_pages(before, p);
        law_collection_is_its_slabs_and_pages(after, p);
    }
}

/// Waking a task sets its bit among the woken, whatever its priority, and changes nothing else: not
/// whether it is marked as dropped, not what is stored, and nothing for any other task.
pub proof fn law_wake_by_task(
    before: TaskCollection,
    after: TaskCollection,
    key: u64,
    other: u64,
)
    requires
        before.wf(),
        after.wf(),
        is_paged(before.pages(), key),
        before.wakes(after, key),
    ensures
        seen_woken(after.pages(), key),
        other != key ==> seen_woken(after.pages(), other) == seen_woken(before.pages(), other),
        seen_dropped(after.pages(), other) == seen_dropped(before.pages(), other),
        seen_held(after.scan@, other) == seen_held(before.scan@, other),
        stored(after, other) == stored(before, other),
        other != key ==> times_due(after.scan@, after.pages(), other) == times_due(
            before.scan@,
            before.pages(),
            other,
        ),
        after.scan@ == before.scan@,
        after.task_num == before.task_num,
        forall|p: int| 0 <= p < 32 ==> #[trigger] after.inners@[p].slab.vacant()
            == before.inners@[p].slab.vacant(),
        forall|p: int| 0 <= p < 32 ==> #[trigger] after.inners@[p].pages@.len()
            == before.inners@[p].pages@.len(),
{
    law_key_is_priority_and_slot(key);
    law_key_is_priority_and_slot(other);
    assert(after.inners@.len() == 32 && before.inners@.len() == 32);
    law_task_is_found_in_its_slot(before, other);
    law_task_is_found_in_its_slot(after, other);
    let (p, j, b) = key_position(key);
    let page = before.pages()[p][j];
    law_page_operations_by_bits(page, b, b);
    law_page_operations_by_bits(page, b, key_offset(other));
    assert forall|p: int| 0 <= p < 32 implies (#[trigger] after.inners@[p]).slab.vacant()
        == after.vacant()[p] && after.inners@[p].pages@ == after.pages()[p]
        && before.inners@[p].slab.vacant() == before.vacant()[p] && before.inners@[p].pages@
        == before.pages()[p] by {
        law_collection_is_its_slabs_and_pages(before, p);
        law_collection_is_its_slabs_and_pages(after, p);
    }
}

/// Taking the next task changes only how often that task is due. No task is marked as dropped or
/// woken by it, and every task stays stored.
pub proof fn law_take_by_task(
    before: TaskCollection,
    after: TaskCollection,
    taken: Option<u64>,
    other: u64,
)
    requires
        before.wf(),
        after.wf(),
        before.takes(after, taken),
    ensures
        taken matches Some(key) ==> times_due(before.scan@, before.pages(), key) >= 1,
        times_due(after.scan@, after.pages(), other) == times_due(
            before.scan@,
            before.pages(),
            other,
        ) - (if taken == Some(other) {
            1int
        } else {
            0
        }),
        taken is None ==> times_due(before.scan@, before.pages(), other) == 0,
        is_paged(after.pages(), other) == is_paged(before.pages(), other),
        !seen_dropped(before.pages(), other) ==> !seen_dropped(after.pages(), other),
        !seen_woken(before.pages(), other) ==> !seen_woken(after.pages(), other),
        stored(after, other) == stored(before, other),
        after.task_num == before.task_num,
        forall|p: int| 0 <= p < 32 ==> #[trigger] after.inners@[p].slab.vacant()
            == before.inners@[p].slab.vacant(),
{
    law_step_drops_and_wakes_no_task(
        before.scan@,
        before.pages(),
        after.scan@,
        after.pages(),
        taken,
        other,
    );
    law_step_hands_out_what_is_due(
        before.scan@,
        before.pages(),
        after.scan@,
        after.pages(),
        taken,
        other,
    );
    law_task_is_found_in_its_slot(before, other);
    law_task_is_found_in_its_slot(after, other);
    assert(after.inners@.len() == 32 && before.inners@.len() == 32);
    assert forall|p: int| 0 <= p < 32 implies (#[trigger] after.inners@[p]).slab.vacant()
        == after.vacant()[p] && before.inners@[p].slab.vacant() == before.vacant()[p] by {
        law_collection_is_its_slabs_and_pages(before, p);
        law_collection_is_its_slabs_and_pages(after, p);
    }
}

/// Waking the tasks again that a scan holds sets their bits among the woken, and changes nothing
/// else.
pub proof fn law_take_back_by_task(
    before: TaskCollection,
    after: TaskCollection,
    state: ScanView,
    key: u64,
)
    requires
        before.wf(),
        after.wf(),
        state.wf(before.pages()),
        before.takes_back(after, state),
    ensures
        seen_woken(after.pages(), key) == (seen_woken(before.pages(), key) || seen_held(state, key)),
        seen_dropped(after.pages(), key) == seen_dropped(before.pages(), key),
        is_paged(after.pages(), key) == is_paged(before.pages(), key),
        !seen_held(state.without_pending(), key),
        stored(after, key) == stored(before, key),
        after.scan == before.scan,
        after.task_num == before.task_num,
{
    law_key_is_priority_and_slot(key);
    law_task_is_found_in_its_slot(before, key);
    law_task_is_found_in_its_slot(after, key);
    let (pages, pages1) = (before.pages(), after.pages());
    let (p, j, _) = state.position();
    let (kp, kj, kb) = key_position(key);
    if exists|b: int| state.pending.contains(b) {
        if kp == p && kj == j {
            assert(pages1[p][j].is_notified(kb) == (pages[p][j].is_notified(kb)
                || state.pending.contains(kb)));
            assert(pages1[p][j].is_notified(kb) == bit_is_set(pages1[p][j].notified, kb));
            assert(pages[p][j].is_notified(kb) == bit_is_set(pages[p][j].notified, kb));
        } else {
            assert(pages1[kp].len() == pages[kp].len());
        }
    }
}

/// A task that is taken and then woken waits again, at every priority and however far the scan has
/// come, unless it was marked as dropped before.
pub proof fn law_taken_task_can_be_woken_again(
    before: TaskCollection,
    after: TaskCollection,
    woken: TaskCollection,
    key: u64,
)
    requires
        before.wf(),
        after.wf(),
        woken.wf(),
        before.takes(after, Some(key)),
        after.wakes(woken, key),
        !seen_dropped(before.pages(), key),
    ensures
        is_paged(after.pages(), key),
        seen_ready(woken.pages(), key),
        times_due(woken.scan@, woken.pages(), key) >= 1,
{
    law_take_by_task(before, after, Some(key), key);
    law_key_is_priority_and_slot(key);
    assert(is_paged(before.pages(), key));
    law_wake_by_task(after, woken, key, key);
}

/// A task that is taken and then woken is handed out again before the scan rests.
pub proof fn law_taken_and_woken_task_is_taken_again(
    before: TaskCollection,
    after: TaskCollection,
    woken: TaskCollection,
    key: u64,
    states: Seq<ScanView>,
    pages: Seq<Seq<Seq<WakerPage>>>,
    taken: Seq<u64>,
    state1: ScanView,
    pages1: Seq<Seq<WakerPage>>,
)
    requires
        before.wf(),
        after.wf(),
        woken.wf(),
        before.takes(after, Some(key)),
        after.wakes(woken, key),
        !seen_dropped(before.pages(), key),
        is_run(states, pages, taken),
        states[0] == woken.scan@,
        pages[0] == woken.pages(),
        states.last().resumes(pages.last(), state1, pages1, None),
    ensures
        times(taken, key) >= 1,
{
    law_taken_task_can_be_woken_again(before, after, woken, key);
    law_run_to_rest_hands_out_all(states, pages, taken, state1, pages1, key);
    law_task_is_observed(woken.scan@, woken.pages(), key);
}

} // verus!

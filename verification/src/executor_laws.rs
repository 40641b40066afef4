//! What each step of an executor does: which task it asks for, what becomes of the others, and when
//! it yields, waits and ends.

use crate::change_laws::{law_drop_by_task, law_take_back_by_task};
use crate::executor::{initial_stack, Executor, ExecutorAction, ExecutorEvent, ExecutorState};
use crate::key::{key_of, key_position, lemma_key_parts};
use crate::observe::{is_paged, law_key_is_priority_and_slot, law_task_is_found_in_its_slot,
    page_for, seen_dropped, seen_held, seen_ready, seen_woken, stored, times_due};
use crate::scan::{lemma_wf_with_more_pages, ScanView};
use crate::step_laws::{is_ahead, law_step_blanks_pages_or_keeps_them,
    law_step_blanks_the_pages_it_passes, law_step_drops_and_wakes_no_task,
    law_step_hands_out_the_smallest_key, law_step_hands_out_what_is_due,
    law_step_holds_the_rest_of_the_page, law_step_keeps_other_pages};
use crate::task_collection::TaskCollection;
use crate::waker_page::WakerPage;
use vstd::prelude::*;

verus! {

/// The task with the key `key` is the one that a scan handed out last.
pub open spec fn is_current(state: ScanView, key: u64) -> bool {
    &&& key as int / 0x0800_0000_0000_0000 == state.priority
    &&& (key as int % 0x0800_0000_0000_0000) / 64 == state.page_idx - 1
    &&& key as int % 64 == state.subpage_idx
}

/// With this event the task with the key `key` is finished: it was polled last, and its future is
/// ready.
pub open spec fn finishes(executor: Executor, event: ExecutorEvent, key: u64) -> bool {
    event == (ExecutorEvent::Polled { ready: true }) && is_current(executor.scan@, key)
}

/// How often the task with the key `key` is still to be polled when the executor goes on after the
/// event: a task that is finished does not count as waiting.
pub open spec fn times_due_after(
    executor: Executor,
    pages: Seq<Seq<WakerPage>>,
    event: ExecutorEvent,
    key: u64,
) -> int {
    (if seen_held(executor.scan@, key) {
        1int
    } else {
        0
    }) + (if seen_ready(pages, key) && !finishes(executor, event, key) {
        1int
    } else {
        0
    })
}

/// The key of the task that the action is about, if it is about one.
pub open spec fn key_in(action: ExecutorAction) -> Option<u64> {
    match action {
        ExecutorAction::Poll { key, .. } => Some(key),
        ExecutorAction::Stale { key } => Some(key),
        ExecutorAction::Yield | ExecutorAction::Wait | ExecutorAction::Exit => None,
    }
}

/// A task that an executor asks to have polled is the one that is stored under its key, and the
/// executor says that a task is not there only when none is stored under its key. The executor
/// takes no task out of its slab, and does not touch the count or the scan of the collection.
pub proof fn law_executor_polls_the_stored_task(
    executor: Executor,
    after: Executor,
    tasks: TaskCollection,
    tasks1: TaskCollection,
    event: ExecutorEvent,
    action: ExecutorAction,
    key: u64,
)
    requires
        tasks.wf(),
        tasks1.wf(),
        executor.runs(after, tasks, tasks1, event, action),
    ensures
        action matches ExecutorAction::Poll { key: polled, task } ==> stored(tasks, polled)
            == Some(task) && stored(tasks1, polled) == Some(task),
        action matches ExecutorAction::Stale { key: missing } ==> stored(tasks, missing) is None,
        stored(tasks1, key) == stored(tasks, key),
        tasks1.task_num == tasks.task_num,
        tasks1.scan == tasks.scan,
        forall|p: int| 0 <= p < 32 ==> #[trigger] tasks1.inners@[p].slab.vacant()
            == tasks.inners@[p].slab.vacant(),
{
    law_task_is_found_in_its_slot(tasks, key);
    law_task_is_found_in_its_slot(tasks1, key);
    match action {
        ExecutorAction::Poll { key: polled, .. } => {
            law_task_is_found_in_its_slot(tasks, polled);
            law_task_is_found_in_its_slot(tasks1, polled);
        },
        ExecutorAction::Stale { key: missing } => {
            law_task_is_found_in_its_slot(tasks, missing);
        },
        _ => {},
    }
    assert(tasks.inners@.len() == 32 && tasks1.inners@.len() == 32);
    assert forall|p: int| 0 <= p < 32 implies #[trigger] tasks1.inners@[p].slab.vacant()
        == tasks.inners@[p].slab.vacant() by {
        assert(tasks1.vacant()[p] == tasks1.inners@[p].vacant());
        assert(tasks.vacant()[p] == tasks.inners@[p].vacant());
    }
}

/// What an executor is left with after each action: it runs a future exactly while it has asked for
/// a poll, it has yielded exactly when it said so, and its stack is where it was. A weak executor
/// ends when its future was polled, and only then. An executor that yielded waits next, and only
/// such a one waits.
pub proof fn law_executor_actions(
    executor: Executor,
    after: Executor,
    tasks: TaskCollection,
    tasks1: TaskCollection,
    event: ExecutorEvent,
    action: ExecutorAction,
)
    requires
        tasks.wf(),
        executor.wf(tasks.pages()),
        event is Polled <==> executor.is_running_future,
        executor.runs(after, tasks, tasks1, event, action),
    ensures
        action is Exit <==> executor.state == ExecutorState::WEAK && executor.is_running_future,
        action is Exit ==> after.state == ExecutorState::KILLED,
        !(action is Exit) ==> after.state == executor.state,
        action is Wait <==> executor.yielded,
        after.is_running_future <==> action is Poll,
        after.yielded <==> action is Yield,
        after.stack_base == executor.stack_base,
        after.context == executor.context,
        after.trapfrmae == executor.trapfrmae,
{
}

/// An executor that waits touches no task.
pub proof fn law_waiting_executor_touches_no_task(
    executor: Executor,
    after: Executor,
    tasks: TaskCollection,
    tasks1: TaskCollection,
    event: ExecutorEvent,
)
    requires
        executor.runs(after, tasks, tasks1, event, ExecutorAction::Wait),
    ensures
        tasks1.pages() == tasks.pages(),
        after.scan == executor.scan,
{
}

/// An executor that ends wakes the tasks again that its scan holds, and holds none any more. It
/// marks no task as dropped.
pub proof fn law_ending_executor_by_task(
    executor: Executor,
    after: Executor,
    tasks: TaskCollection,
    tasks1: TaskCollection,
    event: ExecutorEvent,
    key: u64,
)
    requires
        tasks.wf(),
        tasks1.wf(),
        executor.wf(tasks.pages()),
        executor.runs(after, tasks, tasks1, event, ExecutorAction::Exit),
    ensures
        seen_woken(tasks1.pages(), key) == (seen_woken(tasks.pages(), key) || seen_held(
            executor.scan@,
            key,
        )),
        seen_dropped(tasks1.pages(), key) == seen_dropped(tasks.pages(), key),
        !seen_held(after.scan@, key),
{
    law_take_back_by_task(tasks, tasks1, executor.scan@, key);
}

/// The pages on which an executor goes on after an event differ from those before the event in one
/// bit at most: the task that is finished is marked as dropped.
proof fn lemma_pages_at_event(
    executor: Executor,
    pages: Seq<Seq<WakerPage>>,
    event: ExecutorEvent,
    key: u64,
)
    requires
        executor.wf(pages),
        event is Polled <==> executor.is_running_future,
        forall|p: int|
            0 <= p < pages.len() ==> 64 * (#[trigger] pages[p].len()) <= 0x0800_0000_0000_0000,
    ensures
        executor.scan@.wf(executor.pages_at(pages, event)),
        executor.pages_at(pages, event).len() == pages.len(),
        forall|p: int| 0 <= p < pages.len() ==> #[trigger]
            executor.pages_at(pages, event)[p].len() == pages[p].len(),
        is_paged(executor.pages_at(pages, event), key) == is_paged(pages, key),
        seen_woken(executor.pages_at(pages, event), key) == seen_woken(pages, key),
        finishes(executor, event, key) ==> seen_dropped(executor.pages_at(pages, event), key),
        !finishes(executor, event, key) ==> seen_dropped(executor.pages_at(pages, event), key)
            == seen_dropped(pages, key),
        is_ahead(executor.scan@, executor.pages_at(pages, event), key) == is_ahead(
            executor.scan@,
            pages,
            key,
        ),
{
    let state = executor.scan@;
    let pages1 = executor.pages_at(pages, event);
    lemma_wf_with_more_pages(state, pages, pages1);
    if event == (ExecutorEvent::Polled { ready: true }) {
        let (p, j, b) = state.position();
        assert(j < pages[p].len());
        let slot = 64 * j + b;
        let last = key_of(p, slot) as u64;
        lemma_key_parts(last, p, slot);
        law_key_is_priority_and_slot(last);
        law_key_is_priority_and_slot(key);
        assert(key_position(last) == (p, j, b));
        law_drop_by_task(pages, last, key);
        assert(is_current(state, last));
        assert(is_current(state, key) ==> key == last);
    }
}

/// The keys of a collection fit into the share of its priority.
proof fn lemma_pages_fit(tasks: TaskCollection)
    requires
        tasks.wf(),
    ensures
        tasks.pages().len() == 32,
        forall|p: int|
            0 <= p < tasks.pages().len() ==> 64 * (#[trigger] tasks.pages()[p].len())
                <= 0x0800_0000_0000_0000,
{
    assert forall|p: int| 0 <= p < tasks.pages().len() implies 64 * (
    #[trigger] tasks.pages()[p].len()) <= 0x0800_0000_0000_0000 by {
        assert(tasks.inners@[p].wf());
        assert(tasks.pages()[p] == tasks.inners@[p].pages@);
        crate::task_collection::lemma_page_limit();
    }
}

/// An executor that neither ends nor waits looks for the next task. It asks for a task that is due,
/// which is then due once less, and nothing changes about how often any other task is due. It yields
/// only when no task is due. A task that is finished is not due any more, also when it was woken
/// while it was polled. No other task is marked as dropped, and none is woken.
pub proof fn law_executor_step_by_task(
    executor: Executor,
    after: Executor,
    tasks: TaskCollection,
    tasks1: TaskCollection,
    event: ExecutorEvent,
    action: ExecutorAction,
    key: u64,
)
    requires
        tasks.wf(),
        executor.wf(tasks.pages()),
        event is Polled <==> executor.is_running_future,
        executor.runs(after, tasks, tasks1, event, action),
        !(action is Exit),
        !(action is Wait),
    ensures
        key_in(action) matches Some(k) ==> times_due_after(executor, tasks.pages(), event, k) >= 1,
        times_due(after.scan@, tasks1.pages(), key) == times_due_after(
            executor,
            tasks.pages(),
            event,
            key,
        ) - (if key_in(action) == Some(key) {
            1int
        } else {
            0
        }),
        action is Yield <==> key_in(action) is None,
        action is Yield ==> times_due_after(executor, tasks.pages(), event, key) == 0,
        is_paged(tasks1.pages(), key) == is_paged(tasks.pages(), key),
        !seen_dropped(tasks.pages(), key) && !finishes(executor, event, key) ==> !seen_dropped(
            tasks1.pages(),
            key,
        ),
        !seen_woken(tasks.pages(), key) ==> !seen_woken(tasks1.pages(), key),
        key_in(action) matches Some(k) ==> is_current(after.scan@, k),
{
    lemma_pages_fit(tasks);
    lemma_pages_at_event(executor, tasks.pages(), event, key);
    let pages = executor.pages_at(tasks.pages(), event);
    let state = executor.scan@;
    law_step_hands_out_what_is_due(
        state,
        pages,
        after.scan@,
        tasks1.pages(),
        key_in(action),
        key,
    );
    law_step_drops_and_wakes_no_task(
        state,
        pages,
        after.scan@,
        tasks1.pages(),
        key_in(action),
        key,
    );
    if let Some(k) = key_in(action) {
        lemma_pages_at_event(executor, tasks.pages(), event, k);
        law_step_holds_the_rest_of_the_page(state, pages, after.scan@, tasks1.pages(), k, k);
    }
}

/// The task with the key `key` is one that the pass of the executor can still come to after the
/// event.
pub open spec fn is_in_executor_pass(
    executor: Executor,
    pages: Seq<Seq<WakerPage>>,
    event: ExecutorEvent,
    key: u64,
) -> bool {
    ||| seen_held(executor.scan@, key)
    ||| {
        &&& seen_ready(pages, key)
        &&& !finishes(executor, event, key)
        &&& is_ahead(executor.scan@, pages, key)
    }
}

/// An executor asks for the smallest key that its pass can still come to. When there is none, it
/// begins a new pass, and asks for the smallest key that waits.
pub proof fn law_executor_asks_for_the_smallest_key(
    executor: Executor,
    after: Executor,
    tasks: TaskCollection,
    tasks1: TaskCollection,
    event: ExecutorEvent,
    action: ExecutorAction,
    taken: u64,
    key: u64,
)
    requires
        tasks.wf(),
        executor.wf(tasks.pages()),
        event is Polled <==> executor.is_running_future,
        executor.runs(after, tasks, tasks1, event, action),
        key_in(action) == Some(taken),
    ensures
        is_in_executor_pass(executor, tasks.pages(), event, key) ==> is_in_executor_pass(
            executor,
            tasks.pages(),
            event,
            taken,
        ) && taken <= key,
        !is_in_executor_pass(executor, tasks.pages(), event, taken) && seen_ready(
            tasks.pages(),
            key,
        ) && !finishes(executor, event, key) ==> taken <= key,
{
    lemma_pages_fit(tasks);
    lemma_pages_at_event(executor, tasks.pages(), event, key);
    lemma_pages_at_event(executor, tasks.pages(), event, taken);
    let pages = executor.pages_at(tasks.pages(), event);
    law_step_hands_out_the_smallest_key(
        executor.scan@,
        pages,
        after.scan@,
        tasks1.pages(),
        taken,
        key,
    );
}

/// When an executor asks for a task, it holds exactly the other tasks of the same page that were due
/// with it. A page is left blank or keeps its bits, with the mark of the task that is finished. While
/// the pass goes on, the pages behind it and those that it has not come to keep their bits.
pub proof fn law_executor_takes_whole_pages(
    executor: Executor,
    after: Executor,
    tasks: TaskCollection,
    tasks1: TaskCollection,
    event: ExecutorEvent,
    action: ExecutorAction,
    taken: u64,
    key: u64,
)
    requires
        tasks.wf(),
        executor.wf(tasks.pages()),
        event is Polled <==> executor.is_running_future,
        executor.runs(after, tasks, tasks1, event, action),
        key_in(action) == Some(taken),
        is_paged(tasks.pages(), key),
    ensures
        seen_held(after.scan@, key) ==> key as int / 64 == taken as int / 64 && key != taken,
        key as int / 64 == taken as int / 64 && key != taken ==> seen_held(after.scan@, key) == (
        if seen_held(executor.scan@, taken) {
            seen_held(executor.scan@, key)
        } else {
            seen_ready(tasks.pages(), key) && !finishes(executor, event, key)
        }),
        ({
            ||| page_for(tasks1.pages(), key).notified == 0 && page_for(
                tasks1.pages(),
                key,
            ).dropped == 0
            ||| {
                &&& seen_woken(tasks1.pages(), key) == seen_woken(tasks.pages(), key)
                &&& seen_dropped(tasks1.pages(), key) == (seen_dropped(tasks.pages(), key)
                    || finishes(executor, event, key))
            }
        }),
        seen_held(executor.scan@, taken) || (is_in_executor_pass(
            executor,
            tasks.pages(),
            event,
            taken,
        ) && key as int / 64 != taken as int / 64 && (taken < key || !is_ahead(
            executor.scan@,
            tasks.pages(),
            key,
        ))) || (key as int / 64 != taken as int / 64 && taken < key && !is_ahead(
            executor.scan@,
            tasks.pages(),
            key,
        )) ==> {
            &&& seen_woken(tasks1.pages(), key) == seen_woken(tasks.pages(), key)
            &&& seen_dropped(tasks1.pages(), key) == (seen_dropped(tasks.pages(), key) || finishes(
                executor,
                event,
                key,
            ))
        },
{
    lemma_pages_fit(tasks);
    lemma_pages_at_event(executor, tasks.pages(), event, key);
    lemma_pages_at_event(executor, tasks.pages(), event, taken);
    let pages = executor.pages_at(tasks.pages(), event);
    let (state, state1, pages1) = (executor.scan@, after.scan@, tasks1.pages());
    law_key_is_priority_and_slot(key);
    law_key_is_priority_and_slot(taken);
    law_step_holds_the_rest_of_the_page(state, pages, state1, pages1, taken, key);
    let (p, j, b) = key_position(key);
    law_step_blanks_pages_or_keeps_them(state, pages, state1, pages1, Some(taken), p, j);
    if key as int / 64 != taken as int / 64 {
        law_step_keeps_other_pages(state, pages, state1, pages1, taken, key);
    }
}

/// The pages that the scan of an executor passes are left blank, as far as the key that it asks for,
/// or all of them when it yields.
pub proof fn law_executor_blanks_the_pages_it_passes(
    executor: Executor,
    after: Executor,
    tasks: TaskCollection,
    tasks1: TaskCollection,
    event: ExecutorEvent,
    action: ExecutorAction,
    key: u64,
)
    requires
        tasks.wf(),
        executor.wf(tasks.pages()),
        event is Polled <==> executor.is_running_future,
        executor.runs(after, tasks, tasks1, event, action),
        !(action is Exit),
        !(action is Wait),
        is_paged(tasks.pages(), key),
        match key_in(action) {
            Some(k) => if is_in_executor_pass(executor, tasks.pages(), event, k) {
                is_ahead(executor.scan@, tasks.pages(), key) && key as int / 64 <= k as int / 64
            } else {
                is_ahead(executor.scan@, tasks.pages(), key) || key as int / 64 <= k as int / 64
            },
            None => true,
        },
    ensures
        page_for(tasks1.pages(), key).notified == 0,
        page_for(tasks1.pages(), key).dropped == 0,
{
    lemma_pages_fit(tasks);
    lemma_pages_at_event(executor, tasks.pages(), event, key);
    if let Some(k) = key_in(action) {
        lemma_pages_at_event(executor, tasks.pages(), event, k);
    }
    law_step_blanks_the_pages_it_passes(
        executor.scan@,
        executor.pages_at(tasks.pages(), event),
        after.scan@,
        tasks1.pages(),
        key_in(action),
        key,
    );
}

/// A new stack holds the address of the executor in its uppermost word, and right below that word a
/// trap frame of 34 words, which starts the executor in supervisor mode with a stack that holds only
/// that word.
pub proof fn law_new_stack_layout(executor_addr: int, stack_top: int, executor_entry: int)
    requires
        280 <= stack_top <= usize::MAX,
        0 <= executor_addr <= usize::MAX,
        0 <= executor_entry <= usize::MAX,
    ensures
        ({
            let stack = initial_stack(executor_addr, stack_top, executor_entry);
            &&& stack.executor_slot + 8 == stack_top
            &&& stack.executor_addr == executor_addr
            &&& stack.frame_addr + 34 * 8 == stack.executor_slot
            &&& stack.frame.sp == stack.executor_slot
            &&& stack.frame.sstatus == 0x100
            &&& stack.frame.sepc == executor_entry
        }),
{
}

/// An executor that has not run yet holds no task, runs no future, and neither yielded nor became
/// weak.
pub proof fn law_new_executor_holds_no_task(executor: Executor, key: u64)
    requires
        executor.is_new(),
    ensures
        !seen_held(executor.scan@, key),
        !is_current(executor.scan@, key),
        !executor.is_running_future,
        !executor.yielded,
        executor.state != ExecutorState::WEAK,
        executor.state != ExecutorState::KILLED,
{
    law_key_is_priority_and_slot(key);
}

/// An executor that becomes weak keeps everything but the tasks that it holds.
pub proof fn law_weak_executor_keeps_its_future(executor: Executor, weak: Executor, key: u64)
    requires
        executor.weakens(weak),
    ensures
        weak.state == ExecutorState::WEAK,
        weak.is_running_future == executor.is_running_future,
        weak.yielded == executor.yielded,
        weak.stack_base == executor.stack_base,
        weak.context == executor.context,
        weak.trapfrmae == executor.trapfrmae,
        is_current(weak.scan@, key) == is_current(executor.scan@, key),
        !seen_held(weak.scan@, key),
{
}

} // verus!

//! What callers can rely on: how the results of calls relate to their arguments and to each other.
//!
//! A law of a call speaks of the value before it (`old`), the value after it (`final`) and its
//! result. Where two calls follow each other, the second begins with what the first left.

use crate::change_laws::{law_insert_by_task, law_new_collection_is_empty, law_remove_by_task,
    law_take_by_task, law_taken_task_can_be_woken_again, law_wake_by_task};
use crate::executor::{Executor, ExecutorAction, ExecutorEvent, ExecutorState, InitialStack};
use crate::executor_laws::{finishes, key_in, law_executor_actions,
    law_executor_polls_the_stored_task, law_executor_step_by_task, law_new_stack_layout,
    times_due_after};
use crate::key::split_key;
use crate::observe::{is_paged, law_key_is_priority_and_slot, law_task_is_found_in_its_slot,
    seen_dropped, seen_held, seen_ready, seen_woken, stored, times_due};
use crate::runtime::{fewest_task_cpu, handle_timeout, priority_spawn, run, run_executor, spawn,
    yeild, ExecutorRuntime, RunAction, RunEvent, RunPhase, Stack, Switch};
use crate::task::{Task, TaskState};
use crate::task_collection::TaskCollection;
use crate::turn_laws::{is_weak, is_weak_turn, law_executor_numbers,
    law_running_an_executor_is_its_step, law_spawn_goes_to_the_fewest_tasks,
    law_spawned_future_is_stored, law_start_and_timeout, law_strong_executor_follows_the_weak_ones,
    law_replaced_executor_becomes_weak, law_weak_executor_is_switched_to};
use vstd::prelude::*;

verus! {

/// Taking a key apart gives its upper 5 bits, the 53 bits below, and its lower 6 bits: put together
/// again they are the key.
pub proof fn law_split_key_can_be_undone(key: u64, parts: (u64, u64, u64))
    requires
        call_ensures(split_key, (key,), parts),
    ensures
        parts.0 * 0x0800_0000_0000_0000 + parts.1 * 64 + parts.2 == key,
        parts.0 < 32,
        parts.1 < 0x0020_0000_0000_0000,
        parts.2 < 64,
{
    law_key_is_priority_and_slot(key);
}

/// A new collection stores no task, counts none, and has none that is woken, marked as dropped or
/// held by its scan.
pub proof fn law_creating_a_collection(collection: TaskCollection, key: u64)
    requires
        call_ensures(TaskCollection::new, (), collection),
    ensures
        stored(collection, key) is None,
        collection.task_num == 0,
        !seen_woken(collection.pages(), key),
        !seen_dropped(collection.pages(), key),
        !seen_held(collection.scan@, key),
{
    law_new_collection_is_empty(collection, key);
}

/// A new runtime has its first executor and no other, and no task. It starts with that executor.
pub proof fn law_creating_a_runtime(
    cpu_id: u8,
    strong_executor: Executor,
    runtime: ExecutorRuntime,
    key: u64,
)
    requires
        strong_executor.is_new(),
        call_ensures(ExecutorRuntime::new, (cpu_id, strong_executor), runtime),
    ensures
        runtime.cpu_id == cpu_id,
        runtime.strong_executor == strong_executor,
        runtime.weak_executor_vec@.len() == 0,
        runtime.current_executor is None,
        runtime.phase == RunPhase::Start,
        stored(runtime.task_collection, key) is None,
        runtime.task_collection.task_num == 0,
        !seen_woken(runtime.task_collection.pages(), key),
{
    law_new_collection_is_empty(runtime.task_collection, key);
}

/// A task that is added is stored under the key that is returned, and waits. Other tasks stay as they
/// are.
pub proof fn law_adding_a_task(
    collection: &mut TaskCollection,
    priority: usize,
    task: Task,
    key: u64,
    other: u64,
)
    requires
        old(collection).wf(),
        priority < 32,
        call_ensures(TaskCollection::priority_insert, (collection, priority, task), key),
    ensures
        key as int / 0x0800_0000_0000_0000 == priority,
        stored(*old(collection), key) is None,
        stored(*final(collection), key) == Some(task),
        seen_ready(final(collection).pages(), key),
        other != key ==> {
            &&& stored(*final(collection), other) == stored(*old(collection), other)
            &&& seen_dropped(final(collection).pages(), other) == seen_dropped(
                old(collection).pages(),
                other,
            )
            &&& times_due(final(collection).scan@, final(collection).pages(), other) == times_due(
                old(collection).scan@,
                old(collection).pages(),
                other,
            )
        },
        old(collection).task_num < usize::MAX ==> final(collection).task_num
            == old(collection).task_num + 1,
{
    law_insert_by_task(*old(collection), *final(collection), priority as int, task, key, other);
}

/// A task that is added without a priority is added with the priority 4.
pub proof fn law_adding_a_task_without_priority(
    collection: &mut TaskCollection,
    task: Task,
    key: u64,
)
    requires
        old(collection).wf(),
        call_ensures(TaskCollection::insert, (collection, task), key),
    ensures
        key as int / 0x0800_0000_0000_0000 == 4,
        stored(*final(collection), key) == Some(task),
        seen_ready(final(collection).pages(), key),
{
    law_insert_by_task(*old(collection), *final(collection), 4, task, key, key);
}

/// Removing a task takes it out of its slab and marks it as dropped. For any other task nothing
/// changes: it is still stored, and still to be handed out as often as before, also when the scan
/// had already taken it.
pub proof fn law_removing_a_task(collection: &mut TaskCollection, key: u64, other: u64)
    requires
        old(collection).wf(),
        is_paged(old(collection).pages(), key),
        call_ensures(TaskCollection::remove_task, (collection, key), ()),
    ensures
        stored(*final(collection), key) is None,
        seen_dropped(final(collection).pages(), key),
        other != key ==> {
            &&& stored(*final(collection), other) == stored(*old(collection), other)
            &&& seen_dropped(final(collection).pages(), other) == seen_dropped(
                old(collection).pages(),
                other,
            )
            &&& times_due(final(collection).scan@, final(collection).pages(), other) == times_due(
                old(collection).scan@,
                old(collection).pages(),
                other,
            )
        },
        old(collection).task_num > 0 ==> final(collection).task_num == old(collection).task_num - 1,
{
    law_remove_by_task(*old(collection), *final(collection), key, other);
}

/// Waking a task makes it wait, unless it is marked as dropped. For any other task nothing changes.
pub proof fn law_waking_a_task(collection: &mut TaskCollection, key: u64, other: u64)
    requires
        old(collection).wf(),
        is_paged(old(collection).pages(), key),
        call_ensures(TaskCollection::wake, (collection, key), ()),
    ensures
        seen_woken(final(collection).pages(), key),
        seen_dropped(final(collection).pages(), other) == seen_dropped(
            old(collection).pages(),
            other,
        ),
        stored(*final(collection), other) == stored(*old(collection), other),
        seen_held(final(collection).scan@, other) == seen_held(old(collection).scan@, other),
        other != key ==> seen_woken(final(collection).pages(), other) == seen_woken(
            old(collection).pages(),
            other,
        ),
        final(collection).task_num == old(collection).task_num,
{
    law_wake_by_task(*old(collection), *final(collection), key, other);
}

/// The task that is handed out next was due, and is due once less. For any other task nothing
/// changes, no task is marked as dropped, and every task stays stored. Only when none is due, none is
/// handed out.
pub proof fn law_taking_a_task(
    collection: &mut TaskCollection,
    taken: Option<(u64, Option<Task>)>,
    other: u64,
)
    requires
        old(collection).wf(),
        call_ensures(TaskCollection::generator, (collection,), taken),
    ensures
        taken matches Some((key, task)) ==> {
            &&& times_due(old(collection).scan@, old(collection).pages(), key) >= 1
            &&& task == stored(*old(collection), key)
        },
        times_due(final(collection).scan@, final(collection).pages(), other) == times_due(
            old(collection).scan@,
            old(collection).pages(),
            other,
        ) - (if taken is Some && (taken->0).0 == other {
            1int
        } else {
            0
        }),
        taken is None ==> times_due(old(collection).scan@, old(collection).pages(), other) == 0,
        !seen_dropped(old(collection).pages(), other) ==> !seen_dropped(
            final(collection).pages(),
            other,
        ),
        stored(*final(collection), other) == stored(*old(collection), other),
        final(collection).task_num == old(collection).task_num,
{
    let key_taken = match taken {
        Some((key, _)) => Some(key),
        None => None,
    };
    law_take_by_task(*old(collection), *final(collection), key_taken, other);
    if let Some((key, _)) = taken {
        law_task_is_found_in_its_slot(*old(collection), key);
    }
}

/// A task that is taken is the one that is stored under its key, and taking it leaves it there. None
/// is taken only when none is due.
pub proof fn law_taking_a_live_task(
    collection: &mut TaskCollection,
    taken: Option<(u64, Task)>,
    other: u64,
)
    requires
        old(collection).wf(),
        call_ensures(TaskCollection::take_task, (collection,), taken),
    ensures
        taken matches Some((key, task)) ==> {
            &&& stored(*old(collection), key) == Some(task)
            &&& times_due(old(collection).scan@, old(collection).pages(), key) >= 1
        },
        taken is None ==> times_due(old(collection).scan@, old(collection).pages(), other) == 0,
        stored(*final(collection), other) == stored(*old(collection), other),
        final(collection).task_num == old(collection).task_num,
{
    let key_taken = match taken {
        Some((key, _)) => Some(key),
        None => None,
    };
    law_take_by_task(*old(collection), *final(collection), key_taken, other);
    if let Some((key, _)) = taken {
        law_task_is_found_in_its_slot(*old(collection), key);
    }
}

/// A task that is handed out and then woken waits again, at every priority, unless it was marked as
/// dropped: what the first call left, the second call begins with.
pub proof fn law_waking_a_task_that_was_taken(
    taking: &mut TaskCollection,
    waking: &mut TaskCollection,
    key: u64,
    task: Option<Task>,
)
    requires
        old(taking).wf(),
        call_ensures(TaskCollection::generator, (taking,), Some((key, task))),
        *final(taking) == *old(waking),
        call_ensures(TaskCollection::wake, (waking, key), ()),
        !seen_dropped(old(taking).pages(), key),
    ensures
        seen_ready(final(waking).pages(), key),
        times_due(final(waking).scan@, final(waking).pages(), key) >= 1,
{
    law_taken_task_can_be_woken_again(*old(taking), *final(taking), *final(waking), key);
}

/// What an executor asks to have polled is stored under its key. It yields only when no task is due,
/// and hands out no task in vain: the one that it asks for was due, and is due once less. A task that
/// is finished is marked as dropped, and no other is.
pub proof fn law_running_an_executor(
    executor: &mut Executor,
    tasks: &mut TaskCollection,
    event: ExecutorEvent,
    action: ExecutorAction,
    key: u64,
)
    requires
        old(tasks).wf(),
        old(executor).wf(old(tasks).pages()),
        event is Polled <==> old(executor).is_running_future,
        call_ensures(Executor::run, (executor, tasks, event), action),
    ensures
        action matches ExecutorAction::Poll { key: polled, task } ==> stored(*old(tasks), polled)
            == Some(task),
        action is Exit <==> old(executor).state == ExecutorState::WEAK
            && old(executor).is_running_future,
        action is Wait <==> old(executor).yielded,
        final(executor).is_running_future <==> action is Poll,
        final(executor).yielded <==> action is Yield,
        stored(*final(tasks), key) == stored(*old(tasks), key),
        final(tasks).task_num == old(tasks).task_num,
        action is Yield ==> times_due_after(*old(executor), old(tasks).pages(), event, key) == 0,
        key_in(action) == Some(key) ==> times_due_after(
            *old(executor),
            old(tasks).pages(),
            event,
            key,
        ) >= 1,
        !(action is Exit) && !(action is Wait) ==> {
            &&& times_due(final(executor).scan@, final(tasks).pages(), key) == times_due_after(
                *old(executor),
                old(tasks).pages(),
                event,
                key,
            ) - (if key_in(action) == Some(key) {
                1int
            } else {
                0
            })
            &&& !seen_dropped(old(tasks).pages(), key) && !finishes(*old(executor), event, key)
                ==> !seen_dropped(final(tasks).pages(), key)
        },
{
    law_executor_actions(
        *old(executor),
        *final(executor),
        *old(tasks),
        *final(tasks),
        event,
        action,
    );
    law_executor_polls_the_stored_task(
        *old(executor),
        *final(executor),
        *old(tasks),
        *final(tasks),
        event,
        action,
        key,
    );
    if !(action is Exit) && !(action is Wait) {
        law_executor_step_by_task(
            *old(executor),
            *final(executor),
            *old(tasks),
            *final(tasks),
            event,
            action,
            key,
        );
    }
}

/// A task that was added with one call is the one that an executor asks to have polled under that key
/// in the next.
pub proof fn law_polling_a_task_that_was_added(
    adding: &mut TaskCollection,
    priority: usize,
    task: Task,
    key: u64,
    executor: &mut Executor,
    tasks: &mut TaskCollection,
    event: ExecutorEvent,
    polled: Task,
)
    requires
        old(adding).wf(),
        priority < 32,
        call_ensures(TaskCollection::priority_insert, (adding, priority, task), key),
        *final(adding) == *old(tasks),
        old(executor).wf(old(tasks).pages()),
        event is Polled <==> old(executor).is_running_future,
        call_ensures(
            Executor::run,
            (executor, tasks, event),
            ExecutorAction::Poll { key, task: polled },
        ),
    ensures
        polled == task,
{
}

/// In the turn of the weak executors, each executor that is there and is weak is switched to, or one
/// before it that is weak too, whatever the priority of its future.
pub proof fn law_going_on_with_a_runtime(
    runtime: &mut ExecutorRuntime,
    action: RunAction,
    from: int,
    count: int,
    k: int,
)
    requires
        old(runtime).wf(),
        call_ensures(run, (runtime, RunEvent::Resumed), action),
        is_weak_turn(*old(runtime), from, count),
        from <= k < count,
        is_weak(*old(runtime), k),
    ensures
        action is Switch,
        exists|e: usize|
            from <= e <= k && #[trigger] is_weak(*old(runtime), e as int) && action
                == RunAction::Switch(Switch { save: Stack::Runtime, load: Stack::Executor(e) }),
        final(runtime).current_executor is Some,
        final(runtime).current_executor->0 <= k,
        final(runtime).phase is Weak,
        final(runtime).phase->next <= k + 1,
        final(runtime).task_collection == old(runtime).task_collection,
        final(runtime).weak_executor_vec@[k] == old(runtime).weak_executor_vec@[k],
{
    let e = law_weak_executor_is_switched_to(
        *old(runtime),
        *final(runtime),
        action,
        from,
        count,
        k,
    );
    assert(is_weak(*old(runtime), (e as usize) as int));
}

/// A runtime that starts switches to its strong executor. One whose strong executor came back in the
/// middle of a future asks for a new executor. One whose strong executor came back of its own accord
/// waits if no executor ever became weak.
pub proof fn law_going_on_with_the_strong_executor(
    runtime: &mut ExecutorRuntime,
    action: RunAction,
)
    requires
        old(runtime).wf(),
        call_ensures(run, (runtime, RunEvent::Resumed), action),
    ensures
        old(runtime).phase == RunPhase::Start ==> action == RunAction::Switch(
            Switch {
                save: Stack::Runtime,
                load: Stack::Executor(old(runtime).weak_executor_vec.len()),
            },
        ),
        old(runtime).phase == RunPhase::Strong && old(runtime).strong_executor.is_running_future
            ==> action == RunAction::Create && final(runtime).phase == RunPhase::Replacing,
        old(runtime).phase == RunPhase::Strong && !old(runtime).strong_executor.is_running_future
            && old(runtime).weak_executor_vec@.len() == 0 ==> action == RunAction::Wait
            && final(runtime).phase == RunPhase::Start,
        final(runtime).strong_executor == old(runtime).strong_executor,
        final(runtime).task_collection == old(runtime).task_collection,
{
    law_start_and_timeout(*old(runtime), *final(runtime), action);
}

/// When no weak executor is left in the turn, the strong executor is switched to.
pub proof fn law_going_on_behind_the_weak_executors(
    runtime: &mut ExecutorRuntime,
    action: RunAction,
    from: int,
    count: int,
)
    requires
        old(runtime).wf(),
        call_ensures(run, (runtime, RunEvent::Resumed), action),
        is_weak_turn(*old(runtime), from, count),
        old(runtime).weak_executor_vec@.len() > 0,
        forall|k: int| from <= k < count ==> !#[trigger] is_weak(*old(runtime), k),
    ensures
        action == RunAction::Switch(
            Switch {
                save: Stack::Runtime,
                load: Stack::Executor(old(runtime).weak_executor_vec.len()),
            },
        ),
        final(runtime).phase == RunPhase::Strong,
        final(runtime).current_executor == Some(old(runtime).weak_executor_vec.len()),
{
    assert(old(runtime).weak_executor_vec.len() > 0);
    law_strong_executor_follows_the_weak_ones(
        *old(runtime),
        *final(runtime),
        action,
        from,
        count,
    );
}

/// A new executor takes the place of the strong one. The old one becomes weak under the number that
/// it had, and keeps the future that it is running. What it held waits again.
pub proof fn law_going_on_with_a_new_executor(
    runtime: &mut ExecutorRuntime,
    fresh: Executor,
    action: RunAction,
    key: u64,
)
    requires
        old(runtime).wf(),
        fresh.is_new(),
        call_ensures(run, (runtime, RunEvent::Created(fresh)), action),
    ensures
        final(runtime).strong_executor == fresh,
        is_weak(*final(runtime), old(runtime).weak_executor_vec@.len() as int),
        ({
            let n = old(runtime).weak_executor_vec@.len() as int;
            final(runtime).weak_executor_vec@[n]->0.is_running_future
                == old(runtime).strong_executor.is_running_future
        }),
        final(runtime).weak_executor_vec@.len() == old(runtime).weak_executor_vec@.len() + 1,
        action == RunAction::Switch(
            Switch {
                save: Stack::Runtime,
                load: Stack::Executor(final(runtime).weak_executor_vec.len()),
            },
        ),
        seen_woken(final(runtime).task_collection.pages(), key) == (seen_woken(
            old(runtime).task_collection.pages(),
            key,
        ) || seen_held(old(runtime).strong_executor.scan@, key)),
        seen_dropped(final(runtime).task_collection.pages(), key) == seen_dropped(
            old(runtime).task_collection.pages(),
            key,
        ),
        stored(final(runtime).task_collection, key) == stored(old(runtime).task_collection, key),
{
    law_replaced_executor_becomes_weak(*old(runtime), *final(runtime), fresh, action, key);
}

/// Removing a task of a runtime takes it out of its slab and marks it as dropped, changes nothing for
/// other tasks, and touches no executor.
pub proof fn law_removing_a_task_of_a_runtime(runtime: &mut ExecutorRuntime, key: u64, other: u64)
    requires
        old(runtime).wf(),
        is_paged(old(runtime).task_collection.pages(), key),
        call_ensures(ExecutorRuntime::remove_task, (runtime, key), ()),
    ensures
        stored(final(runtime).task_collection, key) is None,
        seen_dropped(final(runtime).task_collection.pages(), key),
        other != key ==> stored(final(runtime).task_collection, other) == stored(
            old(runtime).task_collection,
            other,
        ),
        other != key ==> seen_ready(final(runtime).task_collection.pages(), other) == seen_ready(
            old(runtime).task_collection.pages(),
            other,
        ),
        final(runtime).strong_executor == old(runtime).strong_executor,
        final(runtime).weak_executor_vec == old(runtime).weak_executor_vec,
        final(runtime).current_executor == old(runtime).current_executor,
        final(runtime).phase == old(runtime).phase,
{
    law_remove_by_task(
        old(runtime).task_collection,
        final(runtime).task_collection,
        key,
        other,
    );
}

/// Waking a task of a runtime wakes it and no other, and touches no executor.
pub proof fn law_waking_a_task_of_a_runtime(runtime: &mut ExecutorRuntime, key: u64, other: u64)
    requires
        old(runtime).wf(),
        is_paged(old(runtime).task_collection.pages(), key),
        call_ensures(ExecutorRuntime::wake, (runtime, key), ()),
    ensures
        seen_woken(final(runtime).task_collection.pages(), key),
        other != key ==> seen_woken(final(runtime).task_collection.pages(), other) == seen_woken(
            old(runtime).task_collection.pages(),
            other,
        ),
        seen_dropped(final(runtime).task_collection.pages(), other) == seen_dropped(
            old(runtime).task_collection.pages(),
            other,
        ),
        stored(final(runtime).task_collection, other) == stored(
            old(runtime).task_collection,
            other,
        ),
        final(runtime).strong_executor == old(runtime).strong_executor,
        final(runtime).weak_executor_vec == old(runtime).weak_executor_vec,
        final(runtime).current_executor == old(runtime).current_executor,
        final(runtime).phase == old(runtime).phase,
{
    law_wake_by_task(old(runtime).task_collection, final(runtime).task_collection, key, other);
}

/// A timer interrupt switches to the runtime exactly when the current executor is in the middle of a
/// future. The stack that is saved is that of the current executor.
pub proof fn law_handling_a_timeout(runtime: ExecutorRuntime, switch: Option<Switch>)
    requires
        runtime.wf(),
        runtime.current_executor is Some,
        call_ensures(handle_timeout, (&runtime,), switch),
    ensures
        runtime.current_executor->0 == runtime.weak_executor_vec@.len() ==> (switch is Some
            <==> runtime.strong_executor.is_running_future),
        runtime.current_executor->0 < runtime.weak_executor_vec@.len() ==> (switch is Some <==> (
        runtime.weak_executor_vec@[runtime.current_executor->0 as int] matches Some(executor)
            && executor.is_running_future)),
        switch is Some ==> switch->0 == (Switch {
            save: Stack::Executor(runtime.current_executor->0),
            load: Stack::Runtime,
        }),
{
    law_executor_numbers(runtime, runtime.current_executor->0 as int);
}

/// An executor that gives the processor back saves its own stack and loads that of the runtime.
pub proof fn law_yielding(runtime: ExecutorRuntime, switch: Switch)
    requires
        runtime.current_executor is Some,
        call_ensures(yeild, (&runtime,), switch),
    ensures
        switch.save == Stack::Executor(runtime.current_executor->0),
        switch.load == Stack::Runtime,
{
}

/// Running an executor of a runtime changes no other executor.
pub proof fn law_running_an_executor_of_a_runtime(
    runtime: &mut ExecutorRuntime,
    e: usize,
    event: ExecutorEvent,
    action: ExecutorAction,
    k: int,
)
    requires
        old(runtime).wf(),
        old(runtime).has_executor(e as int),
        call_ensures(run_executor, (runtime, e, event), action),
        0 <= k < old(runtime).weak_executor_vec@.len(),
    ensures
        k != e ==> final(runtime).weak_executor_vec@[k] == old(runtime).weak_executor_vec@[k],
        e < old(runtime).weak_executor_vec@.len() ==> final(runtime).strong_executor
            == old(runtime).strong_executor,
        final(runtime).phase == old(runtime).phase,
        final(runtime).current_executor == old(runtime).current_executor,
        action matches ExecutorAction::Poll { key, task } ==> stored(
            old(runtime).task_collection,
            key,
        ) == Some(task),
{
    law_running_an_executor_is_its_step(*old(runtime), *final(runtime), e as int, event, action);
    law_executor_polls_the_stored_task(
        old(runtime).executor(e as int),
        final(runtime).executor(e as int),
        old(runtime).task_collection,
        final(runtime).task_collection,
        event,
        action,
        0,
    );
}

/// The processor with the fewest tasks has no more than any other, and fewer than any before it.
pub proof fn law_finding_the_fewest_tasks(task_nums: Vec<usize>, cpu: usize, i: int)
    requires
        call_ensures(fewest_task_cpu, (&task_nums,), cpu),
        0 <= i < task_nums@.len(),
    ensures
        cpu < task_nums@.len(),
        task_nums@[cpu as int] <= task_nums@[i],
        i < cpu ==> task_nums@[cpu as int] < task_nums@[i],
{
}

/// A future that is spawned on a processor is stored under the key that is returned, as a task that
/// can run, with that future and that priority.
pub proof fn law_spawning_on_a_processor(
    runtime: &mut ExecutorRuntime,
    future: u64,
    priority: usize,
    key: u64,
)
    requires
        old(runtime).wf(),
        priority < 32,
        call_ensures(ExecutorRuntime::spawn_task, (runtime, future, priority), key),
    ensures
        stored(final(runtime).task_collection, key) is Some,
        stored(final(runtime).task_collection, key)->0.future == future,
        stored(final(runtime).task_collection, key)->0.state == TaskState::RUNNABLE,
        stored(final(runtime).task_collection, key)->0._priority == priority,
        seen_ready(final(runtime).task_collection.pages(), key),
        final(runtime).strong_executor == old(runtime).strong_executor,
        final(runtime).weak_executor_vec == old(runtime).weak_executor_vec,
        final(runtime).current_executor == old(runtime).current_executor,
        final(runtime).phase == old(runtime).phase,
{
}

/// A future that is spawned goes to the processor that is returned, which has the fewest tasks, and
/// is stored there under the key that is returned, as a task that can run, with that future and that
/// priority. Nothing changes on other processors.
pub proof fn law_spawning_with_a_priority(
    runtimes: &mut Vec<ExecutorRuntime>,
    future: u64,
    priority: usize,
    spawned: (usize, u64),
    i: int,
)
    requires
        forall|i: int| 0 <= i < old(runtimes)@.len() ==> #[trigger] old(runtimes)@[i].wf(),
        priority < 32,
        call_ensures(priority_spawn, (runtimes, future, priority), spawned),
        0 <= i < old(runtimes)@.len(),
    ensures
        ({
            let collection = final(runtimes)@[spawned.0 as int].task_collection;
            &&& stored(collection, spawned.1) is Some
            &&& stored(collection, spawned.1)->0.future == future
            &&& stored(collection, spawned.1)->0.state == TaskState::RUNNABLE
            &&& stored(collection, spawned.1)->0._priority == priority
            &&& seen_ready(collection.pages(), spawned.1)
        }),
        i != spawned.0 ==> final(runtimes)@[i] == old(runtimes)@[i],
        old(runtimes)@[spawned.0 as int].task_collection.task_num <= old(
            runtimes,
        )@[i].task_collection.task_num,
        i < spawned.0 ==> old(runtimes)@[spawned.0 as int].task_collection.task_num < old(
            runtimes,
        )@[i].task_collection.task_num,
{
    law_spawned_future_is_stored(
        old(runtimes)@,
        final(runtimes)@,
        future,
        priority as int,
        spawned.0 as int,
        spawned.1,
    );
    law_spawn_goes_to_the_fewest_tasks(
        old(runtimes)@,
        final(runtimes)@,
        future,
        priority as int,
        spawned.0 as int,
        spawned.1,
        i,
        0,
    );
}

/// A future that is spawned without a priority has the priority 4.
pub proof fn law_spawning(
    runtimes: &mut Vec<ExecutorRuntime>,
    future: u64,
    spawned: (usize, u64),
)
    requires
        forall|i: int| 0 <= i < old(runtimes)@.len() ==> #[trigger] old(runtimes)@[i].wf(),
        call_ensures(spawn, (runtimes, future), spawned),
    ensures
        ({
            let collection = final(runtimes)@[spawned.0 as int].task_collection;
            &&& stored(collection, spawned.1) is Some
            &&& stored(collection, spawned.1)->0.future == future
            &&& stored(collection, spawned.1)->0.state == TaskState::RUNNABLE
            &&& stored(collection, spawned.1)->0._priority == 4
            &&& seen_ready(collection.pages(), spawned.1)
            &&& spawned.1 as int / 0x0800_0000_0000_0000 == 4
        }),
{
    law_spawned_future_is_stored(
        old(runtimes)@,
        final(runtimes)@,
        future,
        4,
        spawned.0 as int,
        spawned.1,
    );
}

/// A new executor starts on the stack that it was given: its context returns through the trap frame,
/// which lies below the word with the address of the executor at the end of the stack.
pub proof fn law_creating_an_executor(
    stack_base: usize,
    executor_addr: usize,
    trap_return: usize,
    executor_entry: usize,
    made: (Executor, InitialStack),
)
    requires
        stack_base + 0x1_0000 <= usize::MAX,
        call_ensures(
            Executor::new,
            (stack_base, executor_addr, trap_return, executor_entry),
            made,
        ),
    ensures
        made.0.stack_base == stack_base,
        made.0.context.ra == trap_return,
        made.0.context.sp == made.1.frame_addr,
        !made.0.is_running_future,
        !made.0.yielded,
        made.1.executor_slot == stack_base + 0x1_0000 - 8,
        made.1.executor_addr == executor_addr,
        made.1.frame_addr + 272 == made.1.executor_slot,
        made.1.frame.sp == made.1.executor_slot,
        made.1.frame.sstatus == 0x100,
        made.1.frame.sepc == executor_entry,
{
    law_new_stack_layout(executor_addr as int, stack_base + 0x1_0000, executor_entry as int);
}

} // verus!

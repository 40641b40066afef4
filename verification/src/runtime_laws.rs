//! What executors and runtimes promise over several steps.

use crate::collection_laws::{law_inserted_task_waits, law_take_keeps_no_stale, no_stale};
use crate::executor::{Executor, ExecutorAction, ExecutorEvent, ExecutorState};
use crate::history_laws::{law_insert_uses_the_default_priority, same_state};
use crate::key::{key_offset, key_page, key_position, key_priority};
use crate::runtime::{spawned_task, spawns, task_nums_of, ExecutorRuntime, RunAction, RunEvent,
    RunPhase, Stack, Switch};
use crate::scan::lemma_wf_with_more_pages;
use crate::scan_laws::{backlog, is_pending, is_waiting, law_giving_back_loses_nothing,
    law_handed_out_once, law_rests_when_nothing_is_outstanding, law_rests_without_backlog,
    outstanding};
use crate::task_collection::{dropped_at, position_of_key, task_at, TaskCollection, DEFAULT_PRIORITY,
    MAX_PRIORITY};
use crate::waker_page::{lemma_page_updates, WakerPage};
use vstd::prelude::*;

verus! {

/// A task whose future is finished does not wait. Nothing changes for other tasks.
pub proof fn law_finished_task_does_not_wait(
    executor: Executor,
    pages: Seq<Seq<WakerPage>>,
    key: u64,
    other: u64,
)
    requires
        executor.wf(pages),
        executor.is_running_future,
        executor.scan@.position() == key_position(key),
    ensures
        ({
            let after = executor.pages_at(pages, ExecutorEvent::Polled { ready: true });
            &&& !is_waiting(after, key)
            &&& other != key ==> is_waiting(after, other) == is_waiting(pages, other)
        }),
{
    let (p, j, b) = key_position(key);
    let (op, oj, ob) = key_position(other);
    lemma_page_updates(pages[p][j], b);
    let after = dropped_at(pages, (p, j, b));
    assert(pages[p][j].marked_dropped(b).is_dropped(b));
    if op == p && oj == j && other != key {
        assert(ob != b);
        assert(after[p][j].is_ready(ob) == pages[p][j].is_ready(ob));
    }
}

/// The pages on which an executor goes on have no task outstanding that was not outstanding before
/// the event.
proof fn lemma_event_makes_nothing_outstanding(
    executor: Executor,
    pages: Seq<Seq<WakerPage>>,
    event: ExecutorEvent,
    key: u64,
)
    requires
        executor.wf(pages),
        event is Polled <==> executor.is_running_future,
    ensures
        executor.scan@.wf(executor.pages_at(pages, event)),
        outstanding(executor.scan@, executor.pages_at(pages, event), key) <= outstanding(
            executor.scan@,
            pages,
            key,
        ),
{
    let after = executor.pages_at(pages, event);
    let (p, j, b) = executor.scan@.position();
    lemma_wf_with_more_pages(executor.scan@, pages, after);
    if event == (ExecutorEvent::Polled { ready: true }) {
        lemma_page_updates(pages[p][j], b);
        let (kp, kj, kb) = key_position(key);
        if kp == p && kj == j {
            assert(after[p][j] == pages[p][j].marked_dropped(b));
            assert(after[p][j].is_ready(kb) ==> pages[p][j].is_ready(kb));
        }
    }
}

/// An executor that looks for tasks yields exactly when no task is outstanding. So it does not yield
/// while it finds a task to poll, and when it yields nothing is left for it.
pub proof fn law_executor_yields_exactly_without_work(
    executor: Executor,
    after: Executor,
    tasks: TaskCollection,
    tasks1: TaskCollection,
    event: ExecutorEvent,
    action: ExecutorAction,
    key: u64,
)
    requires
        executor.wf(tasks.pages()),
        event is Polled <==> executor.is_running_future,
        !executor.ends_at(event),
        !executor.yielded,
        executor.runs(after, tasks, tasks1, event, action),
    ensures
        action is Yield <==> backlog(executor.scan@, executor.pages_at(tasks.pages(), event)) == 0,
        action is Yield ==> {
            &&& outstanding(executor.scan@, executor.pages_at(tasks.pages(), event), key) == 0
            &&& outstanding(after.scan@, tasks1.pages(), key) == 0
        },
{
    let pages = executor.pages_at(tasks.pages(), event);
    lemma_event_makes_nothing_outstanding(executor, tasks.pages(), event, key);
    let taken = match action {
        ExecutorAction::Poll { key: k, .. } => Some(k),
        ExecutorAction::Stale { key: k } => Some(k),
        _ => None,
    };
    assert(action.position() == position_of_key(taken));
    law_rests_without_backlog(executor.scan@, pages, after.scan@, tasks1.pages(), taken);
    if action is Yield {
        law_rests_when_nothing_is_outstanding(
            executor.scan@,
            pages,
            after.scan@,
            tasks1.pages(),
            key,
        );
    }
}

/// An executor that yielded waits for an interrupt once when the processor comes back, which changes
/// neither its scan nor the tasks, and then looks for tasks again: it neither waits twice nor looks
/// again without having waited. It waits at no other time.
pub proof fn law_executor_waits_once_after_it_yielded(
    executor: Executor,
    tasks: TaskCollection,
    event: ExecutorEvent,
    action: ExecutorAction,
    yielded: Executor,
    tasks_after: TaskCollection,
    tasks1: TaskCollection,
    event1: ExecutorEvent,
    action1: ExecutorAction,
    waited: Executor,
    tasks1_after: TaskCollection,
    tasks2: TaskCollection,
    event2: ExecutorEvent,
    action2: ExecutorAction,
    after: Executor,
    tasks2_after: TaskCollection,
)
    requires
        executor.runs(yielded, tasks, tasks_after, event, action),
        event1 is Polled <==> yielded.is_running_future,
        yielded.runs(waited, tasks1, tasks1_after, event1, action1),
        event2 is Polled <==> waited.is_running_future,
        waited.runs(after, tasks2, tasks2_after, event2, action2),
    ensures
        action1 is Wait <==> action is Yield,
        action is Yield ==> {
            &&& event1 == ExecutorEvent::Resumed
            &&& waited.scan == yielded.scan
            &&& tasks1_after.pages() == tasks1.pages()
            &&& tasks1_after.tasks() == tasks1.tasks()
            &&& event2 == ExecutorEvent::Resumed
            &&& !(action2 is Wait)
            &&& waited.scan@.resumes(
                tasks2.pages(),
                after.scan@,
                tasks2_after.pages(),
                action2.position(),
            )
        },
{
}

/// An executor that ends loses no task: what its scan had taken and not handed out waits again, unless
/// it was dropped since, and nothing else changes about which tasks wait.
pub proof fn law_ended_executor_loses_no_task(
    executor: Executor,
    after: Executor,
    tasks: TaskCollection,
    tasks1: TaskCollection,
    event: ExecutorEvent,
    key: u64,
)
    requires
        executor.wf(tasks.pages()),
        executor.runs(after, tasks, tasks1, event, ExecutorAction::Exit),
    ensures
        is_waiting(tasks1.pages(), key) == (is_waiting(tasks.pages(), key) || (is_pending(
            executor.scan@,
            key,
        ) && !is_dropped_key(tasks.pages(), key))),
        !is_pending(after.scan@, key),
{
    law_giving_back_loses_nothing(executor.scan@, tasks.pages(), tasks1.pages(), key);
}

/// The task with the key `key` is marked as dropped.
pub open spec fn is_dropped_key(pages: Seq<Seq<WakerPage>>, key: u64) -> bool {
    pages[key_priority(key)][key_page(key)].is_dropped(key_offset(key))
}

/// While each outstanding task is in its slab, an executor can go on, and each outstanding task
/// stays in its slab.
pub proof fn law_executor_meets_no_stale_task(
    executor: Executor,
    after: Executor,
    tasks: TaskCollection,
    tasks1: TaskCollection,
    event: ExecutorEvent,
    action: ExecutorAction,
)
    requires
        tasks.wf(),
        executor.wf(tasks.pages()),
        event is Polled <==> executor.is_running_future,
        executor.runs(after, tasks, tasks1, event, action),
        no_stale(executor.scan@, tasks.pages(), tasks.tasks()),
    ensures
        !(action is Stale),
        no_stale(after.scan@, tasks1.pages(), tasks1.tasks()),
{
    let pages = executor.pages_at(tasks.pages(), event);
    if executor.ends_at(event) {
        assert forall|key: u64| #[trigger]
            outstanding(after.scan@, tasks1.pages(), key) > 0 implies task_at(
            tasks1.tasks(),
            key,
        ) is Some by {
            law_giving_back_loses_nothing(
                executor.scan@,
                tasks.pages(),
                tasks1.pages(),
                key,
            );
            assert(outstanding(executor.scan@, tasks.pages(), key) > 0);
        }
    } else if !executor.yielded {
        assert(no_stale(executor.scan@, pages, tasks.tasks())) by {
            assert forall|key: u64| #[trigger]
                outstanding(executor.scan@, pages, key) > 0 implies task_at(
                tasks.tasks(),
                key,
            ) is Some by {
                lemma_event_makes_nothing_outstanding(executor, tasks.pages(), event, key);
                assert(outstanding(executor.scan@, tasks.pages(), key) > 0);
            }
        }
        lemma_event_makes_nothing_outstanding(executor, tasks.pages(), event, 0);
        match action {
            ExecutorAction::Poll { key, .. } => {
                law_take_keeps_no_stale(
                    executor.scan@,
                    pages,
                    tasks.tasks(),
                    after.scan@,
                    tasks1.pages(),
                    key,
                );
            },
            ExecutorAction::Stale { key } => {
                law_handed_out_once(
                    executor.scan@,
                    pages,
                    after.scan@,
                    tasks1.pages(),
                    key,
                    key,
                );
                assert(outstanding(executor.scan@, pages, key) > 0);
            },
            _ => {
                assert forall|key: u64| #[trigger]
                    outstanding(after.scan@, tasks1.pages(), key) > 0 implies task_at(
                    tasks1.tasks(),
                    key,
                ) is Some by {
                    law_rests_when_nothing_is_outstanding(
                        executor.scan@,
                        pages,
                        after.scan@,
                        tasks1.pages(),
                        key,
                    );
                }
            },
        }
    }
}

/// A weak executor ends when its future was polled, whether or not the future is finished, and any
/// other executor goes on.
pub proof fn law_weak_executor_ends_after_one_poll(
    executor: Executor,
    after: Executor,
    tasks: TaskCollection,
    tasks1: TaskCollection,
    ready: bool,
    action: ExecutorAction,
)
    requires
        executor.runs(after, tasks, tasks1, ExecutorEvent::Polled { ready }, action),
    ensures
        executor.state == ExecutorState::WEAK <==> action == ExecutorAction::Exit,
        executor.state == ExecutorState::WEAK ==> after.state == ExecutorState::KILLED,
        executor.state != ExecutorState::WEAK ==> after.state == executor.state,
{
}

/// A future runs exactly while it is polled: not before the executor goes on for the first time, and
/// from then on when the executor asked for a poll and has not been told the outcome. So no future
/// runs when the executor yields, waits or has ended.
pub proof fn law_future_runs_only_while_it_is_polled(
    fresh: Executor,
    executor: Executor,
    after: Executor,
    tasks: TaskCollection,
    tasks1: TaskCollection,
    event: ExecutorEvent,
    action: ExecutorAction,
)
    requires
        fresh.is_new(),
        executor.runs(after, tasks, tasks1, event, action),
    ensures
        !fresh.is_running_future,
        action is Poll <==> after.is_running_future,
        action is Yield || action is Wait || action is Exit || action is Stale
            <==> !after.is_running_future,
{
}

/// What the first weak executor that can be switched to is.
proof fn lemma_first_runnable(runtime: ExecutorRuntime, from: int, count: int)
    requires
        from <= count,
    ensures
        ({
            let e = runtime.first_runnable(from, count);
            &&& from <= e <= count
            &&& e < count ==> runtime.is_runnable(e)
            &&& forall|k: int| from <= k < e ==> !#[trigger] runtime.is_runnable(k)
        }),
    decreases count - from,
{
    if from < count && !runtime.is_runnable(from) {
        lemma_first_runnable(runtime, from + 1, count);
    }
}

/// A runtime only switches from its own stack, and only to the executor that then is the current
/// one: the strong executor or a weak one that has neither ended nor been dropped.
pub proof fn law_switch_goes_to_a_live_current_executor(
    runtime: ExecutorRuntime,
    event: RunEvent,
    after: ExecutorRuntime,
    switch: Switch,
)
    requires
        runtime.wf(),
        after.wf(),
        event matches RunEvent::Created(fresh) ==> fresh.is_new(),
        runtime.goes_on(event, after, RunAction::Switch(switch)),
    ensures
        switch.save == Stack::Runtime,
        switch.load matches Stack::Executor(e) && {
            &&& after.current_executor == Some(e)
            &&& after.has_executor(e as int)
            &&& after.executor(e as int).state != ExecutorState::KILLED
        },
{
    let (from, count) = runtime.weak_turn();
    lemma_first_runnable(runtime, from, count);
}

/// When the strong executor came back in the middle of a future, no executor runs before a new one
/// has taken its place.
pub proof fn law_timed_out_executor_is_replaced(
    runtime: ExecutorRuntime,
    asked: ExecutorRuntime,
    action: RunAction,
    after: ExecutorRuntime,
    fresh: Executor,
    action1: RunAction,
)
    requires
        runtime.wf(),
        runtime.strong_timed_out(),
        runtime.goes_on(RunEvent::Resumed, asked, action),
        asked.goes_on(RunEvent::Created(fresh), after, action1),
    ensures
        action == RunAction::Create,
        after.switched_to(after.strong_number(), action1),
        after.strong_executor == fresh,
        after.strong_number() == runtime.strong_number() + 1,
        after.has_executor(runtime.strong_number()),
        runtime.strong_executor.weakens(after.executor(runtime.strong_number())),
{
}

/// The executor that takes the place of one that timed out runs the other futures: each task is
/// outstanding for it that waited when the strong executor timed out, or that the strong executor
/// had taken and not handed out, unless it was dropped since. No other task is outstanding for it.
pub proof fn law_other_tasks_are_outstanding_for_the_new_executor(
    runtime: ExecutorRuntime,
    asked: ExecutorRuntime,
    action: RunAction,
    after: ExecutorRuntime,
    fresh: Executor,
    action1: RunAction,
    key: u64,
)
    requires
        runtime.wf(),
        runtime.strong_timed_out(),
        runtime.goes_on(RunEvent::Resumed, asked, action),
        fresh.is_new(),
        asked.goes_on(RunEvent::Created(fresh), after, action1),
    ensures
        outstanding(after.strong_executor.scan@, after.pages(), key) == (if is_waiting(
            runtime.pages(),
            key,
        ) || (is_pending(runtime.strong_executor.scan@, key) && !is_dropped_key(
            runtime.pages(),
            key,
        )) {
            1int
        } else {
            0
        }),
        task_at(after.task_collection.tasks(), key) == task_at(
            runtime.task_collection.tasks(),
            key,
        ),
{
    law_giving_back_loses_nothing(
        runtime.strong_executor.scan@,
        runtime.pages(),
        after.pages(),
        key,
    );
}

/// When each task that is outstanding for the strong executor is in its slab, so is each task that
/// is outstanding for the executor that takes its place.
pub proof fn law_replacing_keeps_no_stale(
    runtime: ExecutorRuntime,
    after: ExecutorRuntime,
    fresh: Executor,
)
    requires
        runtime.wf(),
        fresh.is_new(),
        runtime.downgrades(after, fresh),
        no_stale(
            runtime.strong_executor.scan@,
            runtime.pages(),
            runtime.task_collection.tasks(),
        ),
    ensures
        no_stale(after.strong_executor.scan@, after.pages(), after.task_collection.tasks()),
{
    let state = runtime.strong_executor.scan@;
    assert forall|key: u64| #[trigger]
        outstanding(after.strong_executor.scan@, after.pages(), key) > 0 implies task_at(
        after.task_collection.tasks(),
        key,
    ) is Some by {
        law_giving_back_loses_nothing(state, runtime.pages(), after.pages(), key);
        assert(outstanding(state, runtime.pages(), key) > 0);
    }
}

/// When a timer interrupt finds a future of the strong executor running, the strong executor has
/// timed out: it is replaced when the processor has switched to the runtime.
pub proof fn law_timeout_of_the_strong_executor(runtime: ExecutorRuntime)
    requires
        runtime.wf(),
        runtime.phase == RunPhase::Strong,
    ensures
        runtime.current_executor is Some,
        runtime.executor(runtime.current_executor->0 as int).is_running_future
            <==> runtime.strong_timed_out(),
{
}

/// Weak executors get their turn only when the strong executor came back of its own accord.
pub proof fn law_weak_executors_run_after_the_strong_one_yielded(
    runtime: ExecutorRuntime,
    after: ExecutorRuntime,
    action: RunAction,
)
    requires
        runtime.wf(),
        runtime.phase == RunPhase::Strong,
        runtime.goes_on(RunEvent::Resumed, after, action),
        after.phase is Weak,
    ensures
        !runtime.strong_executor.is_running_future,
{
}

/// The turn of the weak executors moves on: a weak executor that was switched to is not switched
/// to again before the strong executor, and none that can be switched to is passed over or dropped.
pub proof fn law_each_weak_executor_gets_its_turn(
    runtime: ExecutorRuntime,
    after: ExecutorRuntime,
    action: RunAction,
    k: int,
)
    requires
        runtime.wf(),
        runtime.goes_on(RunEvent::Resumed, after, action),
        !runtime.strong_timed_out(),
        runtime.weak_turn().0 <= k < runtime.weak_turn().1,
    ensures
        after.phase is Weak ==> {
            &&& after.weak_turn().1 == runtime.weak_turn().1
            &&& runtime.weak_turn().0 < after.weak_turn().0
            &&& runtime.is_runnable(k) ==> after.weak_turn().0 - 1 <= k
        },
        !(after.phase is Weak) ==> !runtime.is_runnable(k),
        runtime.is_runnable(k) ==> after.weak_executor_vec@[k] == runtime.weak_executor_vec@[k],
{
    let (from, count) = runtime.weak_turn();
    assert(count <= runtime.weak_executor_vec.len());
    lemma_first_runnable(runtime, from, count);
}

/// The weak executor with the number `e` has ended or was dropped.
pub open spec fn is_gone(runtime: ExecutorRuntime, e: int) -> bool {
    runtime.weak_executor_vec@[e] is None || runtime.is_ended(e)
}

/// An executor that has ended does not come back, and neither does one that was dropped, and the
/// turn of the weak executors stays where it is.
pub open spec fn keeps_gone(runtime: ExecutorRuntime, after: ExecutorRuntime) -> bool {
    &&& after.phase == runtime.phase
    &&& after.weak_executor_vec@.len() == runtime.weak_executor_vec@.len()
    &&& forall|e: int| 0 <= e < runtime.weak_executor_vec@.len() ==> {
        &&& #[trigger] is_gone(runtime, e) ==> is_gone(after, e)
        &&& runtime.weak_executor_vec@[e] is None ==> after.weak_executor_vec@[e] is None
    }
}

/// Running an executor, and adding, removing or waking a task, bring no executor back.
pub proof fn law_gone_executors_stay_gone(
    runtime: ExecutorRuntime,
    after: ExecutorRuntime,
    e: int,
    event: ExecutorEvent,
    action: ExecutorAction,
)
    requires
        runtime.wf(),
        runtime.changes_tasks_only(after) || {
            &&& runtime.has_executor(e)
            &&& runtime.executor(e).state != ExecutorState::KILLED
            &&& runtime.runs_executor(after, e, event, action)
        },
    ensures
        keeps_gone(runtime, after),
{
}

/// One turn of the weak executors: the runtime goes on from each of `befores` to the one of `afters`
/// with the same index, and in between nothing brings an executor back. The turn begins when the
/// strong executor came back of its own accord, and ends when it is switched to again.
pub open spec fn is_turn(befores: Seq<ExecutorRuntime>, afters: Seq<ExecutorRuntime>) -> bool {
    &&& befores.len() == afters.len()
    &&& befores.len() >= 1
    &&& befores[0].phase == RunPhase::Strong
    &&& !befores[0].strong_executor.is_running_future
    &&& afters.last().phase == RunPhase::Strong
    &&& forall|m: int|
        0 <= m < befores.len() ==> {
            &&& #[trigger] befores[m].wf()
            &&& exists|action: RunAction|
                befores[m].goes_on(RunEvent::Resumed, afters[m], action)
        }
    &&& forall|m: int|
        0 <= m < befores.len() - 1 ==> {
            &&& (#[trigger] afters[m]).phase is Weak
            &&& keeps_gone(afters[m], befores[m + 1])
        }
}

/// While a turn lasts, an executor that was gone when the turn began is gone, and is dropped when
/// its number is passed.
proof fn lemma_turn_drops_ended(
    befores: Seq<ExecutorRuntime>,
    afters: Seq<ExecutorRuntime>,
    k: int,
    m: int,
)
    requires
        is_turn(befores, afters),
        0 <= k < befores[0].weak_executor_vec@.len(),
        is_gone(befores[0], k),
        0 <= m < befores.len(),
    ensures
        befores[m].weak_executor_vec@.len() == befores[0].weak_executor_vec@.len(),
        befores[m].weak_turn().1 == befores[0].weak_executor_vec@.len(),
        is_gone(befores[m], k),
        k < befores[m].weak_turn().0 ==> befores[m].weak_executor_vec@[k] is None,
        !befores[m].strong_timed_out(),
    decreases m,
{
    if m > 0 {
        lemma_turn_drops_ended(befores, afters, k, m - 1);
        let (before, after) = (befores[m - 1], afters[m - 1]);
        assert(before.wf());
        let (from, count) = before.weak_turn();
        lemma_first_runnable(before, from, count);
        assert(after.phase is Weak);
        assert(is_gone(after, k));
        assert(keeps_gone(after, befores[m]));
    }
}

/// A weak executor that has ended is dropped in the next turn of the weak executors.
pub proof fn law_ended_executor_is_dropped(
    befores: Seq<ExecutorRuntime>,
    afters: Seq<ExecutorRuntime>,
    k: int,
)
    requires
        is_turn(befores, afters),
        0 <= k < befores[0].weak_executor_vec@.len(),
        befores[0].is_ended(k),
    ensures
        afters.last().weak_executor_vec@[k] is None,
        !afters.last().has_executor(k),
{
    let m = befores.len() - 1;
    lemma_turn_drops_ended(befores, afters, k, m);
    assert(befores[m].wf());
    let (from, count) = befores[m].weak_turn();
    lemma_first_runnable(befores[m], from, count);
}

/// A future that was spawned waits on the processor with the fewest tasks, under its key.
pub proof fn law_spawned_task_waits(
    runtimes: Seq<ExecutorRuntime>,
    after: Seq<ExecutorRuntime>,
    future: u64,
    priority: int,
    cpu: int,
    key: u64,
)
    requires
        forall|i: int| 0 <= i < runtimes.len() ==> #[trigger] runtimes[i].wf(),
        forall|i: int| 0 <= i < after.len() ==> #[trigger] after[i].wf(),
        0 <= priority < MAX_PRIORITY,
        spawns(runtimes, after, future, priority, cpu, key),
    ensures
        task_at(after[cpu].task_collection.tasks(), key) == Some(spawned_task(future, priority)),
        is_waiting(after[cpu].pages(), key),
{
    assert(runtimes[cpu].wf());
    assert(after[cpu].wf());
    law_inserted_task_waits(
        runtimes[cpu].task_collection,
        after[cpu].task_collection,
        priority,
        spawned_task(future, priority),
        key,
        key,
    );
}

/// Spawning a future without a priority is spawning it with the default priority, which is 4: its
/// task has that priority, and goes to the same processor, under the same key.
pub proof fn law_spawn_uses_the_default_priority(
    runtimes: Seq<ExecutorRuntime>,
    a: Seq<ExecutorRuntime>,
    b: Seq<ExecutorRuntime>,
    future: u64,
    cpu_a: int,
    key_a: u64,
    cpu_b: int,
    key_b: u64,
)
    requires
        forall|i: int| 0 <= i < runtimes.len() ==> #[trigger] runtimes[i].wf(),
        spawns(runtimes, a, future, DEFAULT_PRIORITY as int, cpu_a, key_a),
        spawns(runtimes, b, future, 4, cpu_b, key_b),
    ensures
        cpu_a == cpu_b,
        key_a == key_b,
        forall|i: int| 0 <= i < runtimes.len() && i != cpu_a ==> #[trigger] a[i] == b[i],
        same_state(a[cpu_a].task_collection, b[cpu_a].task_collection),
        a[cpu_a].changes_tasks_only(b[cpu_a]),
        spawned_task(future, DEFAULT_PRIORITY as int)._priority == 4,
{
    assert(runtimes[cpu_a].wf());
    if cpu_a < cpu_b {
        assert(task_nums_of(runtimes)[cpu_b] < task_nums_of(runtimes)[cpu_a]);
    } else if cpu_b < cpu_a {
        assert(task_nums_of(runtimes)[cpu_a] < task_nums_of(runtimes)[cpu_b]);
    }
    law_insert_uses_the_default_priority(
        runtimes[cpu_a].task_collection,
        a[cpu_a].task_collection,
        runtimes[cpu_a].task_collection,
        b[cpu_a].task_collection,
        spawned_task(future, 4),
        key_a,
        key_b,
    );
}

/// The numbers of tasks of any two processors differ by at most one.
pub open spec fn is_balanced(runtimes: Seq<ExecutorRuntime>) -> bool {
    forall|i: int, j: int|
        0 <= i < runtimes.len() && 0 <= j < runtimes.len() ==> (
        #[trigger] runtimes[i].task_collection.task_num) <= (
        #[trigger] runtimes[j].task_collection.task_num) + 1
}

/// Spawning keeps the processors balanced, as long as the count does not overflow.
pub proof fn law_spawn_keeps_balance(
    runtimes: Seq<ExecutorRuntime>,
    after: Seq<ExecutorRuntime>,
    future: u64,
    priority: int,
    cpu: int,
    key: u64,
)
    requires
        spawns(runtimes, after, future, priority, cpu, key),
        runtimes[cpu].task_collection.task_num < usize::MAX,
        is_balanced(runtimes),
    ensures
        is_balanced(after),
{
    let fewest = runtimes[cpu].task_collection.task_num;
    assert forall|i: int, j: int|
        0 <= i < after.len() && 0 <= j < after.len() implies (
    #[trigger] after[i].task_collection.task_num) <= (#[trigger] after[j].task_collection.task_num)
        + 1 by {
        assert(runtimes[i].task_collection.task_num <= runtimes[j].task_collection.task_num + 1);
        assert(task_nums_of(runtimes)[cpu] <= task_nums_of(runtimes)[j]);
        assert(fewest <= runtimes[j].task_collection.task_num);
        assert(runtimes[i].task_collection.task_num <= fewest + 1);
    }
}

} // verus!

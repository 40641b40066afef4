//! Which executor a runtime switches to, told by the executors themselves, and where a future goes
//! that is spawned.

use crate::change_laws::{law_insert_by_task, law_take_back_by_task};
use crate::executor::{Executor, ExecutorAction, ExecutorEvent, ExecutorState};
use crate::executor_laws::{is_current, law_new_executor_holds_no_task,
    law_weak_executor_keeps_its_future};
use crate::observe::{seen_dropped, seen_held, seen_ready, seen_woken, stored};
use crate::runtime::{is_fewest, spawns, task_nums_of, ExecutorRuntime, RunAction, RunEvent,
    RunPhase, Stack, Switch};
use crate::task::{Task, TaskState};
use vstd::prelude::*;

verus! {

/// The weak executor with the number `k` is there and is weak.
pub open spec fn is_weak(runtime: ExecutorRuntime, k: int) -> bool {
    &&& 0 <= k < runtime.weak_executor_vec@.len()
    &&& runtime.weak_executor_vec@[k] matches Some(executor) && executor.state
        == ExecutorState::WEAK
}

/// It is the turn of the weak executors, from the number `from` up to the number `count`: the strong
/// executor came back of its own accord, or a weak executor came back.
pub open spec fn is_weak_turn(runtime: ExecutorRuntime, from: int, count: int) -> bool {
    ||| {
        &&& runtime.phase == RunPhase::Strong
        &&& !runtime.strong_executor.is_running_future
        &&& from == 0
        &&& count == runtime.weak_executor_vec@.len()
    }
    ||| runtime.phase matches RunPhase::Weak { next, count: last } && from == next && count == last
}

/// Numbers are what the executors are found by: the strong executor has the number behind the last
/// weak one.
pub proof fn law_executor_numbers(runtime: ExecutorRuntime, e: int)
    ensures
        e == runtime.weak_executor_vec@.len() ==> runtime.has_executor(e) && runtime.executor(e)
            == runtime.strong_executor,
        0 <= e < runtime.weak_executor_vec@.len() ==> runtime.has_executor(e) == (
        runtime.weak_executor_vec@[e] is Some),
        0 <= e < runtime.weak_executor_vec@.len() && runtime.weak_executor_vec@[e] is Some
            ==> runtime.weak_executor_vec@[e] == Some(runtime.executor(e)),
        e < 0 || e > runtime.weak_executor_vec@.len() ==> !runtime.has_executor(e),
{
}

/// The first of the executors from `from` up to `count` that can be switched to is the first that is
/// weak.
proof fn lemma_first_weak(runtime: ExecutorRuntime, from: int, count: int)
    requires
        runtime.wf(),
        0 <= from <= count <= runtime.weak_executor_vec@.len(),
    ensures
        ({
            let e = runtime.first_runnable(from, count);
            &&& from <= e <= count
            &&& e < count ==> is_weak(runtime, e)
            &&& forall|k: int| from <= k < e ==> !#[trigger] is_weak(runtime, k)
        }),
    decreases count - from,
{
    if from < count {
        assert(runtime.weak_executor_wf(from));
        if !runtime.is_runnable(from) {
            lemma_first_weak(runtime, from + 1, count);
            assert(!is_weak(runtime, from));
        }
    }
}

/// In the turn of the weak executors, the first that is weak is switched to, whatever the priority of
/// its future: the one that is switched to is weak, none before it is, and the turn goes on behind
/// it. Each weak executor `k` whose turn has not come is switched to now, or is still to come.
pub proof fn law_weak_executor_is_switched_to(
    runtime: ExecutorRuntime,
    after: ExecutorRuntime,
    action: RunAction,
    from: int,
    count: int,
    k: int,
) -> (e: int)
    requires
        runtime.wf(),
        is_weak_turn(runtime, from, count),
        runtime.goes_on(RunEvent::Resumed, after, action),
        from <= k < count,
        is_weak(runtime, k),
    ensures
        from <= e <= k <= usize::MAX,
        action == RunAction::Switch(
            Switch { save: Stack::Runtime, load: Stack::Executor(e as usize) },
        ),
        after.current_executor == Some(e as usize),
        is_weak(runtime, e),
        forall|j: int| from <= j < e ==> !#[trigger] is_weak(runtime, j),
        after.phase is Weak,
        after.phase->next == e + 1,
        after.phase->count == count,
        is_weak(after, k),
        after.weak_executor_vec@[k] == runtime.weak_executor_vec@[k],
{
    assert(count <= runtime.weak_executor_vec.len());
    lemma_first_weak(runtime, from, count);
    runtime.first_runnable(from, count)
}

/// In the turn of the weak executors, one that is weak is switched to, no later than any other.
pub proof fn law_weak_turn_is_served(
    runtime: ExecutorRuntime,
    after: ExecutorRuntime,
    action: RunAction,
)
    requires
        runtime.wf(),
        runtime.goes_on(RunEvent::Resumed, after, action),
    ensures
        forall|from: int, count: int, k: int|
            #![trigger is_weak_turn(runtime, from, count), is_weak(runtime, k)]
            is_weak_turn(runtime, from, count) && from <= k < count && is_weak(runtime, k) ==> {
                &&& after.current_executor is Some
                &&& from <= after.current_executor->0 <= k
                &&& is_weak(runtime, after.current_executor->0 as int)
                &&& action == RunAction::Switch(
                    Switch {
                        save: Stack::Runtime,
                        load: Stack::Executor(after.current_executor->0),
                    },
                )
            },
{
    assert forall|from: int, count: int, k: int|
        #![trigger is_weak_turn(runtime, from, count), is_weak(runtime, k)]
        is_weak_turn(runtime, from, count) && from <= k < count && is_weak(runtime, k) implies {
        &&& after.current_executor is Some
        &&& from <= after.current_executor->0 <= k
        &&& is_weak(runtime, after.current_executor->0 as int)
        &&& action == RunAction::Switch(
            Switch { save: Stack::Runtime, load: Stack::Executor(after.current_executor->0) },
        )
    } by {
        let e = law_weak_executor_is_switched_to(runtime, after, action, from, count, k);
    }
}

/// When no weak executor is left in the turn, the strong executor is switched to, unless the
/// processor waits because no executor ever became weak.
pub proof fn law_strong_executor_follows_the_weak_ones(
    runtime: ExecutorRuntime,
    after: ExecutorRuntime,
    action: RunAction,
    from: int,
    count: int,
)
    requires
        runtime.wf(),
        is_weak_turn(runtime, from, count),
        runtime.goes_on(RunEvent::Resumed, after, action),
        forall|k: int| from <= k < count ==> !#[trigger] is_weak(runtime, k),
    ensures
        runtime.phase == RunPhase::Strong && runtime.weak_executor_vec@.len() == 0 ==> {
            &&& action == RunAction::Wait
            &&& after.phase == RunPhase::Start
            &&& after.current_executor == runtime.current_executor
        },
        !(runtime.phase == RunPhase::Strong && runtime.weak_executor_vec@.len() == 0) ==> {
            &&& action == RunAction::Switch(
                Switch {
                    save: Stack::Runtime,
                    load: Stack::Executor(runtime.weak_executor_vec.len()),
                },
            )
            &&& after.phase == RunPhase::Strong
            &&& after.current_executor == Some(runtime.weak_executor_vec.len())
        },
{
    assert(count <= runtime.weak_executor_vec.len());
    lemma_first_weak(runtime, from, count);
    let e = runtime.first_runnable(from, count);
    if e < count {
        assert(is_weak(runtime, e));
    }
}

/// A runtime that starts, or goes on after it waited, switches to the strong executor. One whose
/// strong executor comes back in the middle of a future asks for a new executor, and leaves all
/// executors as they are.
pub proof fn law_start_and_timeout(
    runtime: ExecutorRuntime,
    after: ExecutorRuntime,
    action: RunAction,
)
    requires
        runtime.wf(),
        runtime.goes_on(RunEvent::Resumed, after, action),
    ensures
        runtime.phase == RunPhase::Start ==> {
            &&& action == RunAction::Switch(
                Switch {
                    save: Stack::Runtime,
                    load: Stack::Executor(runtime.weak_executor_vec.len()),
                },
            )
            &&& after.phase == RunPhase::Strong
            &&& after.current_executor == Some(runtime.weak_executor_vec.len())
            &&& after.weak_executor_vec@ == runtime.weak_executor_vec@
        },
        runtime.phase == RunPhase::Strong && runtime.strong_executor.is_running_future ==> {
            &&& action == RunAction::Create
            &&& after.phase == RunPhase::Replacing
            &&& after.current_executor == runtime.current_executor
            &&& after.weak_executor_vec@ == runtime.weak_executor_vec@
        },
{
    if runtime.phase == RunPhase::Start {
        assert(after.weak_executor_vec@ =~= runtime.weak_executor_vec@);
    }
}

/// A runtime that goes on touches no task and no executor, except that it drops weak executors that
/// have ended: each executor stays as it was or, if it had ended, is gone.
pub proof fn law_switching_touches_no_executor(
    runtime: ExecutorRuntime,
    after: ExecutorRuntime,
    action: RunAction,
    k: int,
)
    requires
        runtime.wf(),
        runtime.goes_on(RunEvent::Resumed, after, action),
        0 <= k < runtime.weak_executor_vec@.len(),
    ensures
        after.task_collection == runtime.task_collection,
        after.strong_executor == runtime.strong_executor,
        after.cpu_id == runtime.cpu_id,
        after.context == runtime.context,
        after.weak_executor_vec@.len() == runtime.weak_executor_vec@.len(),
        after.weak_executor_vec@[k] == runtime.weak_executor_vec@[k] || (
        runtime.weak_executor_vec@[k] matches Some(executor) && executor.state
            == ExecutorState::KILLED && after.weak_executor_vec@[k] is None),
{
}

/// In the turn of the weak executors, those that have ended are dropped when they are passed.
pub proof fn law_passed_executor_is_dropped(
    runtime: ExecutorRuntime,
    after: ExecutorRuntime,
    action: RunAction,
    from: int,
    count: int,
    k: int,
)
    requires
        runtime.wf(),
        is_weak_turn(runtime, from, count),
        runtime.goes_on(RunEvent::Resumed, after, action),
        from <= k < count,
        after.phase matches RunPhase::Weak { next, .. } ==> k < next,
        !is_weak(runtime, k),
    ensures
        after.weak_executor_vec@[k] is None,
{
    assert(count <= runtime.weak_executor_vec.len());
    lemma_first_weak(runtime, from, count);
    assert(runtime.weak_executor_wf(k));
}

/// A new executor takes the place of the strong one and is switched to. The old one becomes the last
/// weak executor, and keeps its stack and the future that it is running. The other executors stay as
/// they were.
pub proof fn law_new_executor_takes_the_place_of_the_strong_one(
    runtime: ExecutorRuntime,
    after: ExecutorRuntime,
    fresh: Executor,
    action: RunAction,
    k: int,
)
    requires
        runtime.wf(),
        after.wf(),
        runtime.goes_on(RunEvent::Created(fresh), after, action),
        0 <= k < runtime.weak_executor_vec@.len(),
    ensures
        after.strong_executor == fresh,
        after.weak_executor_vec@.len() == runtime.weak_executor_vec@.len() + 1,
        after.weak_executor_vec@[k] == runtime.weak_executor_vec@[k],
        after.cpu_id == runtime.cpu_id,
        after.context == runtime.context,
        after.phase == RunPhase::Strong,
{
}

/// The executor that becomes weak keeps its number, its stack and the future that it is running. The
/// new executor is switched to. The tasks that the old executor held wait again for the new one, and
/// nothing else changes for any task.
pub proof fn law_replaced_executor_becomes_weak(
    runtime: ExecutorRuntime,
    after: ExecutorRuntime,
    fresh: Executor,
    action: RunAction,
    key: u64,
)
    requires
        runtime.wf(),
        after.wf(),
        fresh.is_new(),
        runtime.goes_on(RunEvent::Created(fresh), after, action),
    ensures
        action == RunAction::Switch(
            Switch { save: Stack::Runtime, load: Stack::Executor(after.weak_executor_vec.len()) },
        ),
        after.current_executor == Some(after.weak_executor_vec.len()),
        after.weak_executor_vec@.len() == runtime.weak_executor_vec@.len() + 1,
        after.weak_executor_vec@[runtime.weak_executor_vec@.len() as int] matches Some(weak) && {
            &&& weak.state == ExecutorState::WEAK
            &&& weak.is_running_future == runtime.strong_executor.is_running_future
            &&& weak.stack_base == runtime.strong_executor.stack_base
            &&& weak.context == runtime.strong_executor.context
            &&& weak.trapfrmae == runtime.strong_executor.trapfrmae
            &&& is_current(weak.scan@, key) == is_current(runtime.strong_executor.scan@, key)
            &&& !seen_held(weak.scan@, key)
        },
        !seen_held(after.strong_executor.scan@, key),
        seen_woken(after.task_collection.pages(), key) == (seen_woken(
            runtime.task_collection.pages(),
            key,
        ) || seen_held(runtime.strong_executor.scan@, key)),
        seen_dropped(after.task_collection.pages(), key) == seen_dropped(
            runtime.task_collection.pages(),
            key,
        ),
        stored(after.task_collection, key) == stored(runtime.task_collection, key),
        after.task_collection.task_num == runtime.task_collection.task_num,
{
    law_take_back_by_task(
        runtime.task_collection,
        after.task_collection,
        runtime.strong_executor.scan@,
        key,
    );
    law_new_executor_holds_no_task(fresh, key);
    if let Some(weak) = after.weak_executor_vec@.last() {
        law_weak_executor_keeps_its_future(runtime.strong_executor, weak, key);
    }
}

/// What happens between two steps of a runtime while a weak executor has the processor: the turn
/// stays where it is.
pub open spec fn keeps_turn(runtime: ExecutorRuntime, after: ExecutorRuntime) -> bool {
    &&& after.phase == runtime.phase
    &&& after.weak_executor_vec@.len() == runtime.weak_executor_vec@.len()
}

/// Running an executor, and adding, removing or waking a task, keep the turn, and touch no other
/// executor.
pub proof fn law_executor_keeps_the_turn(
    runtime: ExecutorRuntime,
    after: ExecutorRuntime,
    e: int,
    event: ExecutorEvent,
    action: ExecutorAction,
    k: int,
)
    requires
        runtime.wf(),
        runtime.changes_tasks_only(after) || (runtime.has_executor(e) && runtime.runs_executor(
            after,
            e,
            event,
            action,
        )),
        0 <= k < runtime.weak_executor_vec@.len(),
    ensures
        keeps_turn(runtime, after),
        after.current_executor == runtime.current_executor,
        after.cpu_id == runtime.cpu_id,
        after.context == runtime.context,
        runtime.changes_tasks_only(after) || k != e ==> after.weak_executor_vec@[k]
            == runtime.weak_executor_vec@[k],
        runtime.changes_tasks_only(after) || e != runtime.weak_executor_vec@.len()
            ==> after.strong_executor == runtime.strong_executor,
        is_weak(runtime, k) && !(k == e && action is Exit) ==> is_weak(after, k),
{
}

/// Running an executor of a runtime is a step of that executor on the tasks of the runtime: of the
/// strong executor when it has the number behind the last weak one, and else of the weak executor
/// with that number, which stays there.
pub proof fn law_running_an_executor_is_its_step(
    runtime: ExecutorRuntime,
    after: ExecutorRuntime,
    e: int,
    event: ExecutorEvent,
    action: ExecutorAction,
)
    requires
        runtime.has_executor(e),
        runtime.runs_executor(after, e, event, action),
    ensures
        e == runtime.weak_executor_vec@.len() ==> runtime.strong_executor.runs(
            after.strong_executor,
            runtime.task_collection,
            after.task_collection,
            event,
            action,
        ),
        e < runtime.weak_executor_vec@.len() ==> {
            &&& runtime.weak_executor_vec@[e] is Some
            &&& after.weak_executor_vec@[e] is Some
            &&& runtime.weak_executor_vec@[e]->0.runs(
                after.weak_executor_vec@[e]->0,
                runtime.task_collection,
                after.task_collection,
                event,
                action,
            )
        },
{
}

/// A whole turn of the weak executors: the runtime goes on from each of `befores` to the one of
/// `afters` with the same index, with the action of that index. The turn begins when the strong
/// executor came back of its own accord, and ends when it is switched to again.
pub open spec fn is_whole_turn(
    befores: Seq<ExecutorRuntime>,
    afters: Seq<ExecutorRuntime>,
    actions: Seq<RunAction>,
) -> bool {
    &&& befores.len() == afters.len()
    &&& befores.len() == actions.len()
    &&& befores.len() >= 1
    &&& befores[0].phase == RunPhase::Strong
    &&& !befores[0].strong_executor.is_running_future
    &&& afters.last().phase == RunPhase::Strong
    &&& forall|m: int| 0 <= m < befores.len() ==> #[trigger] befores[m].wf()
    &&& forall|m: int|
        0 <= m < befores.len() ==> #[trigger] befores[m].goes_on(
            RunEvent::Resumed,
            afters[m],
            actions[m],
        )
    &&& forall|m: int|
        0 <= m < befores.len() - 1 ==> {
            &&& (#[trigger] afters[m]).phase is Weak
            &&& keeps_turn(afters[m], befores[m + 1])
        }
}

/// Where a turn stands at its step number `m`.
proof fn lemma_turn_stands(
    befores: Seq<ExecutorRuntime>,
    afters: Seq<ExecutorRuntime>,
    actions: Seq<RunAction>,
    m: int,
) -> (from: int)
    requires
        is_whole_turn(befores, afters, actions),
        0 <= m < befores.len(),
    ensures
        is_weak_turn(befores[m], from, befores[0].weak_executor_vec@.len() as int),
        befores[m].weak_executor_vec@.len() == befores[0].weak_executor_vec@.len(),
        m == 0 ==> from == 0,
        m > 0 ==> befores[m].phase is Weak && from == befores[m].phase->next,
    decreases m,
{
    if m == 0 {
        0
    } else {
        let from0 = lemma_turn_stands(befores, afters, actions, m - 1);
        let (before, after) = (befores[m - 1], afters[m - 1]);
        assert(before.wf());
        assert(before.goes_on(RunEvent::Resumed, after, actions[m - 1]));
        assert(after.phase is Weak);
        assert(keeps_turn(after, befores[m]));
        let count = befores[0].weak_executor_vec@.len() as int;
        assert(befores[m - 1].weak_executor_vec.len() == count);
        lemma_first_weak(before, from0, count);
        befores[m].phase->next as int
    }
}

/// Between two steps of the runtime, the weak executor `k` stays weak as long as another executor has
/// the processor.
pub open spec fn stays_weak_between(
    befores: Seq<ExecutorRuntime>,
    afters: Seq<ExecutorRuntime>,
    k: int,
) -> bool {
    forall|m: int|
        0 <= m < befores.len() - 1 && is_weak(#[trigger] afters[m], k)
            && afters[m].current_executor != Some(k as usize) ==> is_weak(befores[m + 1], k)
}

/// The executor `k` was switched to in one of the first `m` steps of a turn, or the turn has still to
/// come to it.
proof fn lemma_switched_to_or_to_come(
    befores: Seq<ExecutorRuntime>,
    afters: Seq<ExecutorRuntime>,
    actions: Seq<RunAction>,
    k: int,
    m: int,
)
    requires
        is_whole_turn(befores, afters, actions),
        is_weak(befores[0], k),
        stays_weak_between(befores, afters, k),
        0 <= m < befores.len(),
    ensures
        (exists|i: int|
            0 <= i < m && #[trigger] actions[i] == RunAction::Switch(
                Switch { save: Stack::Runtime, load: Stack::Executor(k as usize) },
            )) || (is_weak(befores[m], k) && exists|from: int|
            from <= k && #[trigger] is_weak_turn(
                befores[m],
                from,
                befores[0].weak_executor_vec@.len() as int,
            )),
    decreases m,
{
    let count = befores[0].weak_executor_vec@.len() as int;
    if m == 0 {
        assert(is_weak_turn(befores[0], 0, count));
    } else {
        lemma_switched_to_or_to_come(befores, afters, actions, k, m - 1);
        if is_weak(befores[m - 1], k) && exists|from: int|
            from <= k && #[trigger] is_weak_turn(befores[m - 1], from, count) {
            let from = choose|from: int| from <= k && #[trigger]
                is_weak_turn(befores[m - 1], from, count);
            let (before, after) = (befores[m - 1], afters[m - 1]);
            assert(before.wf());
            assert(before.goes_on(RunEvent::Resumed, after, actions[m - 1]));
            let e = law_weak_executor_is_switched_to(before, after, actions[m - 1], from, count, k);
            assert(keeps_turn(after, befores[m]));
            if e == k {
                assert(actions[m - 1] == RunAction::Switch(
                    Switch { save: Stack::Runtime, load: Stack::Executor(k as usize) },
                ));
            } else {
                assert(after.current_executor != Some(k as usize));
                assert(is_weak(befores[m], k));
                assert(is_weak_turn(befores[m], e + 1, count));
            }
        }
    }
}

/// In a turn of the weak executors, each executor that is there and is weak is switched to. Only
/// having the processor itself can end it before the turn is over.
pub proof fn law_turn_switches_to_each_weak_executor(
    befores: Seq<ExecutorRuntime>,
    afters: Seq<ExecutorRuntime>,
    actions: Seq<RunAction>,
    k: int,
)
    requires
        is_whole_turn(befores, afters, actions),
        is_weak(befores[0], k),
        stays_weak_between(befores, afters, k),
    ensures
        exists|i: int|
            0 <= i < actions.len() && #[trigger] actions[i] == RunAction::Switch(
                Switch { save: Stack::Runtime, load: Stack::Executor(k as usize) },
            ),
{
    let m = befores.len() - 1;
    let count = befores[0].weak_executor_vec@.len() as int;
    lemma_switched_to_or_to_come(befores, afters, actions, k, m);
    if !exists|i: int|
        0 <= i < m && #[trigger] actions[i] == RunAction::Switch(
            Switch { save: Stack::Runtime, load: Stack::Executor(k as usize) },
        ) {
        let from = choose|from: int| from <= k && #[trigger] is_weak_turn(befores[m], from, count);
        assert(befores[m].wf());
        assert(befores[m].goes_on(RunEvent::Resumed, afters[m], actions[m]));
        let e = law_weak_executor_is_switched_to(
            befores[m],
            afters[m],
            actions[m],
            from,
            count,
            k,
        );
        assert(actions[m] is Switch);
    }
}

/// No weak executor is switched to twice in a turn.
pub proof fn law_turn_switches_to_no_executor_twice(
    befores: Seq<ExecutorRuntime>,
    afters: Seq<ExecutorRuntime>,
    actions: Seq<RunAction>,
    i: int,
    j: int,
    k: int,
)
    requires
        is_whole_turn(befores, afters, actions),
        0 <= i < j < actions.len(),
        0 <= k < befores[0].weak_executor_vec@.len(),
        actions[i] == RunAction::Switch(
            Switch { save: Stack::Runtime, load: Stack::Executor(k as usize) },
        ),
    ensures
        actions[j] != actions[i],
{
    lemma_turn_ascends(befores, afters, actions, i, j);
    let count = befores[0].weak_executor_vec@.len() as int;
    let from_j = lemma_turn_stands(befores, afters, actions, j);
    assert(befores[j].wf());
    assert(befores[j].goes_on(RunEvent::Resumed, afters[j], actions[j]));
    assert(befores[j].weak_executor_vec.len() == count);
    lemma_first_weak(befores[j], from_j, count);
    let from_i = lemma_turn_stands(befores, afters, actions, i);
    assert(befores[i].wf());
    assert(befores[i].goes_on(RunEvent::Resumed, afters[i], actions[i]));
    assert(befores[i].weak_executor_vec.len() == count);
    lemma_first_weak(befores[i], from_i, count);
    assert(afters[i].phase is Weak);
    assert(k == afters[i].phase->next - 1);
}

/// The turn moves on with each step.
proof fn lemma_turn_ascends(
    befores: Seq<ExecutorRuntime>,
    afters: Seq<ExecutorRuntime>,
    actions: Seq<RunAction>,
    i: int,
    j: int,
)
    requires
        is_whole_turn(befores, afters, actions),
        0 <= i < j < actions.len(),
    ensures
        afters[i].phase is Weak,
        befores[j].phase is Weak,
        afters[i].phase->next <= befores[j].phase->next,
    decreases j - i,
{
    assert(afters[j - 1].phase is Weak);
    assert(keeps_turn(afters[j - 1], befores[j]));
    if i < j - 1 {
        lemma_turn_ascends(befores, afters, actions, i, j - 1);
        let from = lemma_turn_stands(befores, afters, actions, j - 1);
        let count = befores[0].weak_executor_vec@.len() as int;
        assert(befores[j - 1].wf());
        assert(befores[j - 1].goes_on(RunEvent::Resumed, afters[j - 1], actions[j - 1]));
        assert(befores[j - 1].weak_executor_vec.len() == count);
        lemma_first_weak(befores[j - 1], from, count);
    }
}

/// A future that is spawned becomes a task that can run, with that future and that priority, stored
/// under the key that is returned on the processor that is returned, and waiting there. The key was
/// free, and holds the priority in its upper bits.
pub proof fn law_spawned_future_is_stored(
    runtimes: Seq<ExecutorRuntime>,
    after: Seq<ExecutorRuntime>,
    future: u64,
    priority: int,
    cpu: int,
    key: u64,
)
    requires
        forall|i: int| 0 <= i < runtimes.len() ==> #[trigger] runtimes[i].wf(),
        forall|i: int| 0 <= i < after.len() ==> #[trigger] after[i].wf(),
        0 <= priority < 32,
        spawns(runtimes, after, future, priority, cpu, key),
    ensures
        0 <= cpu < runtimes.len(),
        stored(runtimes[cpu].task_collection, key) is None,
        stored(after[cpu].task_collection, key) is Some,
        stored(after[cpu].task_collection, key)->0.future == future,
        stored(after[cpu].task_collection, key)->0.state == TaskState::RUNNABLE,
        stored(after[cpu].task_collection, key)->0._priority == priority,
        seen_ready(after[cpu].task_collection.pages(), key),
        key as int / 0x0800_0000_0000_0000 == priority,
{
    assert(runtimes[cpu].wf());
    assert(after[cpu].wf());
    lemma_spawn_inserts(runtimes, after, future, priority, cpu, key, key);
}

/// A spawned future is one task more on its processor.
proof fn lemma_spawn_inserts(
    runtimes: Seq<ExecutorRuntime>,
    after: Seq<ExecutorRuntime>,
    future: u64,
    priority: int,
    cpu: int,
    key: u64,
    other: u64,
)
    requires
        forall|i: int| 0 <= i < runtimes.len() ==> #[trigger] runtimes[i].wf(),
        forall|i: int| 0 <= i < after.len() ==> #[trigger] after[i].wf(),
        0 <= priority < 32,
        spawns(runtimes, after, future, priority, cpu, key),
    ensures
        ({
            let (c, c1) = (runtimes[cpu].task_collection, after[cpu].task_collection);
            let task = Task { future, state: TaskState::RUNNABLE, _priority: priority as u8 };
            &&& stored(c, key) is None
            &&& stored(c1, key) == Some(task)
            &&& seen_ready(c1.pages(), key)
            &&& key as int / 0x0800_0000_0000_0000 == priority
            &&& other != key ==> stored(c1, other) == stored(c, other)
            &&& other != key ==> seen_woken(c1.pages(), other) == seen_woken(c.pages(), other)
            &&& other != key ==> seen_dropped(c1.pages(), other) == seen_dropped(c.pages(), other)
            &&& c1.scan@ == c.scan@
            &&& c.task_num < usize::MAX ==> c1.task_num == c.task_num + 1
        }),
{
    assert(runtimes[cpu].wf());
    assert(after[cpu].wf());
    let task = Task { future, state: TaskState::RUNNABLE, _priority: priority as u8 };
    law_insert_by_task(
        runtimes[cpu].task_collection,
        after[cpu].task_collection,
        priority,
        task,
        key,
        other,
    );
}

/// A future goes to the first of the processors that have the fewest tasks. Nothing changes on any
/// other processor, and on that processor nothing changes but that there is one task more: the other
/// tasks and all executors stay as they were.
pub proof fn law_spawn_goes_to_the_fewest_tasks(
    runtimes: Seq<ExecutorRuntime>,
    after: Seq<ExecutorRuntime>,
    future: u64,
    priority: int,
    cpu: int,
    key: u64,
    i: int,
    other: u64,
)
    requires
        forall|i: int| 0 <= i < runtimes.len() ==> #[trigger] runtimes[i].wf(),
        forall|i: int| 0 <= i < after.len() ==> #[trigger] after[i].wf(),
        0 <= priority < 32,
        spawns(runtimes, after, future, priority, cpu, key),
        0 <= i < runtimes.len(),
    ensures
        after.len() == runtimes.len(),
        runtimes[cpu].task_collection.task_num <= runtimes[i].task_collection.task_num,
        i < cpu ==> runtimes[cpu].task_collection.task_num < runtimes[i].task_collection.task_num,
        i != cpu ==> after[i] == runtimes[i],
        after[i].cpu_id == runtimes[i].cpu_id,
        after[i].strong_executor == runtimes[i].strong_executor,
        after[i].weak_executor_vec == runtimes[i].weak_executor_vec,
        after[i].current_executor == runtimes[i].current_executor,
        after[i].context == runtimes[i].context,
        after[i].phase == runtimes[i].phase,
        i != cpu || other != key ==> {
            &&& stored(after[i].task_collection, other) == stored(
                runtimes[i].task_collection,
                other,
            )
            &&& seen_woken(after[i].task_collection.pages(), other) == seen_woken(
                runtimes[i].task_collection.pages(),
                other,
            )
            &&& seen_dropped(after[i].task_collection.pages(), other) == seen_dropped(
                runtimes[i].task_collection.pages(),
                other,
            )
        },
        runtimes[cpu].task_collection.task_num < usize::MAX ==> after[cpu].task_collection.task_num
            == runtimes[cpu].task_collection.task_num + 1,
{
    let nums = task_nums_of(runtimes);
    assert(nums[cpu] <= nums[i]);
    assert(i < cpu ==> nums[cpu] < nums[i]);
    lemma_spawn_inserts(runtimes, after, future, priority, cpu, key, other);
}

/// No processor has fewer tasks than the one with the fewest, none before it has as few, and there is
/// only one such.
pub proof fn law_fewest_is_the_first_smallest(task_nums: Seq<usize>, cpu: int, i: int)
    requires
        0 <= cpu < task_nums.len(),
        0 <= i < task_nums.len(),
    ensures
        is_fewest(task_nums, cpu) ==> task_nums[cpu] <= task_nums[i],
        is_fewest(task_nums, cpu) && task_nums[i] == task_nums[cpu] ==> cpu <= i,
        is_fewest(task_nums, cpu) && is_fewest(task_nums, i) ==> i == cpu,
{
    assert(is_fewest(task_nums, cpu) ==> task_nums[cpu] <= task_nums[i]);
    assert(is_fewest(task_nums, i) ==> task_nums[i] <= task_nums[cpu]);
}

} // verus!

//! The runtime of a processor: which executor runs next, and on which processor a new task goes.
//!
//! The runtime cannot switch stacks. It says what is to be done next, and is told when that is
//! done.

use crate::executor::{Context, Executor, ExecutorAction, ExecutorEvent, ExecutorState};
use crate::observe::{seen_ready, stored};
use crate::scan::lemma_wf_with_more_pages;
use crate::task::{Task, TaskState};
use crate::task_collection::{TaskCollection, DEFAULT_PRIORITY, MAX_PRIORITY};
use crate::turn_laws::{is_weak, is_weak_turn, law_weak_turn_is_served};
use crate::waker_page::WakerPage;
use vstd::prelude::*;

verus! {

/// A stack that a processor can run on.
#[derive(Clone, Copy, Debug, PartialEq, Eq, Structural)]
pub enum Stack {
    /// The stack of the runtime.
    Runtime,
    /// The stack of an executor of the runtime.
    Executor(usize),
}

/// A switch from one stack to another.
#[derive(Clone, Copy, Debug, PartialEq, Eq, Structural)]
pub struct Switch {
    /// The stack whose context is saved.
    pub save: Stack,
    /// The stack whose context is loaded.
    pub load: Stack,
}

/// How far the runtime has come.
#[derive(Clone, Copy, Debug, PartialEq, Eq, Structural)]
pub enum RunPhase {
    /// The strong executor is next.
    Start,
    /// The strong executor was switched to.
    Strong,
    /// A new executor was asked for, to take the place of the strong executor.
    Replacing,
    /// One of the first `count` weak executors was switched to, and number `next` is next.
    Weak { next: usize, count: usize },
}

/// What happened since the runtime was asked for its next action.
pub enum RunEvent {
    /// The runtime was started, or goes on after a switch or an interrupt.
    Resumed,
    /// The executor that was asked for.
    Created(Executor),
}

/// What the runtime wants to have done next.
#[derive(Clone, Copy, Debug, PartialEq, Eq, Structural)]
pub enum RunAction {
    /// Switch stacks.
    Switch(Switch),
    /// Create an executor.
    Create,
    /// Wait for an interrupt.
    Wait,
}

/// The runtime of one processor.
///
/// Executors are numbered in the order of their creation. The executor that becomes weak keeps its
/// number: it is its index among the weak executors. So the number of the strong executor is the
/// number of executors that became weak.
pub struct ExecutorRuntime {
    /// The runtime only runs on this processor.
    pub cpu_id: u8,
    pub task_collection: TaskCollection,
    /// The executor that runs new futures.
    pub strong_executor: Executor,
    /// The executors whose future used up its time. Each ends when it has run that future, and is
    /// then dropped.
    pub weak_executor_vec: Vec<Option<Executor>>,
    /// The executor that was switched to last.
    pub current_executor: Option<usize>,
    pub context: Context,
    /// How far the runtime has come.
    pub phase: RunPhase,
}

impl ExecutorRuntime {
    /// The pages of the tasks.
    pub open spec fn pages(self) -> Seq<Seq<WakerPage>> {
        self.task_collection.pages()
    }

    /// The number of the strong executor.
    pub open spec fn strong_number(self) -> int {
        self.weak_executor_vec@.len() as int
    }

    /// There is an executor with the number `e`: it has not been dropped.
    pub open spec fn has_executor(self, e: int) -> bool {
        e == self.strong_number() || (0 <= e < self.strong_number() && self.weak_executor_vec@[e]
            is Some)
    }

    /// The executor with the number `e`.
    pub open spec fn executor(self, e: int) -> Executor {
        if e == self.strong_number() {
            self.strong_executor
        } else {
            self.weak_executor_vec@[e]->0
        }
    }

    /// The weak executor with the number `e` is within the pages of the tasks, and is weak or has
    /// ended.
    pub open spec fn weak_executor_wf(self, e: int) -> bool {
        self.weak_executor_vec@[e] matches Some(executor) ==> {
            &&& executor.wf(self.pages())
            &&& executor.state == ExecutorState::WEAK || executor.state == ExecutorState::KILLED
        }
    }

    /// The strong executor has never been weak, the weak executors have, all executors are within
    /// the pages of the tasks, and the current executor has not been dropped.
    pub open spec fn wf(self) -> bool {
        &&& self.task_collection.wf()
        &&& self.strong_executor.wf(self.pages())
        &&& self.strong_executor.state == ExecutorState::UNUSED
        &&& forall|e: int|
            0 <= e < self.weak_executor_vec@.len() ==> #[trigger] self.weak_executor_wf(e)
        &&& self.current_executor matches Some(e) ==> self.has_executor(e as int)
        &&& self.phase matches RunPhase::Weak { next, count } ==> next <= count
            <= self.weak_executor_vec@.len()
        &&& self.phase == RunPhase::Strong ==> self.current_executor == Some(
            self.weak_executor_vec.len(),
        )
    }

    /// The runtime of the processor `cpu_id`, with its first executor.
    pub fn new(cpu_id: u8, strong_executor: Executor) -> (runtime: ExecutorRuntime)
        requires
            strong_executor.is_new(),
        ensures
            runtime.wf(),
            runtime.cpu_id == cpu_id,
            runtime.task_collection.is_fresh(),
            runtime.strong_executor == strong_executor,
            runtime.weak_executor_vec@ == Seq::<Option<Executor>>::empty(),
            runtime.current_executor is None,
            runtime.context == (Context { ra: 0, sp: 0 }),
            runtime.phase == RunPhase::Start,
    {
        ExecutorRuntime {
            cpu_id,
            task_collection: TaskCollection::new(),
            strong_executor,
            weak_executor_vec: Vec::new(),
            current_executor: None,
            context: Context::default(),
            phase: RunPhase::Start,
        }
    }

    /// Adds an executor to the weak executors.
    fn add_weak_executor(&mut self, weak_executor: Executor)
        ensures
            final(self).weak_executor_vec@ == old(self).weak_executor_vec@.push(
                Some(weak_executor),
            ),
            final(self).cpu_id == old(self).cpu_id,
            final(self).task_collection == old(self).task_collection,
            final(self).strong_executor == old(self).strong_executor,
            final(self).current_executor == old(self).current_executor,
            final(self).context == old(self).context,
            final(self).phase == old(self).phase,
    {
        self.weak_executor_vec.push(Some(weak_executor));
    }

    /// The runtime becomes `after` when its strong executor becomes weak and `fresh` takes its
    /// place. The tasks that the strong executor has taken and not handed out are woken again.
    pub open spec fn downgrades(self, after: ExecutorRuntime, fresh: Executor) -> bool {
        &&& after.strong_executor == fresh
        &&& after.weak_executor_vec@ == self.weak_executor_vec@.push(
            after.weak_executor_vec@.last(),
        )
        &&& after.weak_executor_vec@.last() matches Some(weak) && self.strong_executor.weakens(weak)
        &&& self.task_collection.takes_back(after.task_collection, self.strong_executor.scan@)
        &&& after.cpu_id == self.cpu_id
        &&& after.context == self.context
    }

    /// Makes the strong executor weak, and puts a new executor in its place. The tasks that the
    /// strong executor has taken and not handed out are left to the new one.
    fn downgrade_strong_executor(&mut self, fresh: Executor)
        requires
            old(self).wf(),
            old(self).phase == RunPhase::Replacing,
            fresh.is_new(),
        ensures
            final(self).wf(),
            old(self).downgrades(*final(self), fresh),
            final(self).current_executor == old(self).current_executor,
            final(self).phase == old(self).phase,
    {
        let ghost before = *self;
        let mut old_strong: Executor = fresh;
        std::mem::swap(&mut self.strong_executor, &mut old_strong);
        old_strong.mark_weak();
        self.task_collection.take_back(&mut old_strong.scan);
        let ghost weak = old_strong;
        self.add_weak_executor(old_strong);
        proof {
            assert(self.weak_executor_vec@.last() == Some(weak));
            assert(self.strong_executor.wf(self.pages()));
            assert forall|e: int| 0 <= e < self.weak_executor_vec@.len() implies #[trigger]
                self.weak_executor_wf(e) by {
                if e < before.weak_executor_vec@.len() {
                    assert(before.weak_executor_wf(e));
                    if let Some(executor) = before.weak_executor_vec@[e] {
                        lemma_wf_with_more_pages(executor.scan@, before.pages(), self.pages());
                    }
                }
            }
        }
    }

    /// The number of tasks of this processor.
    pub fn task_num(&self) -> (task_num: usize)
        ensures
            task_num == self.task_collection.task_num,
    {
        self.task_collection.task_num()
    }

    /// The runtime and `after` differ in nothing but their tasks.
    pub open spec fn changes_tasks_only(self, after: ExecutorRuntime) -> bool {
        &&& after.cpu_id == self.cpu_id
        &&& after.strong_executor == self.strong_executor
        &&& after.weak_executor_vec == self.weak_executor_vec
        &&& after.current_executor == self.current_executor
        &&& after.context == self.context
        &&& after.phase == self.phase
    }

    /// Adds a task. It starts out woken, so that it can be run.
    pub fn add_task(&mut self, priority: usize, task: Task) -> (key: u64)
        requires
            old(self).wf(),
            priority < MAX_PRIORITY,
            old(self).task_collection.inners@[priority as int].has_room(),
        ensures
            final(self).wf(),
            old(self).task_collection.inserts(
                final(self).task_collection,
                priority as int,
                task,
                key,
            ),
            old(self).changes_tasks_only(*final(self)),
            stored(final(self).task_collection, key) == Some(task),
            seen_ready(final(self).task_collection.pages(), key),
    {
        let ghost before = *self;
        let key: u64 = self.task_collection.priority_insert(priority, task);
        proof {
            lemma_runtime_wf_with_more_pages(before, *self);
        }
        key
    }

    /// Adds the task of a future that is spawned with a priority on this processor.
    pub fn spawn_task(&mut self, future: u64, priority: usize) -> (key: u64)
        requires
            old(self).wf(),
            priority < MAX_PRIORITY,
            old(self).task_collection.inners@[priority as int].has_room(),
        ensures
            final(self).wf(),
            old(self).task_collection.inserts(
                final(self).task_collection,
                priority as int,
                spawned_task(future, priority as int),
                key,
            ),
            old(self).changes_tasks_only(*final(self)),
            stored(final(self).task_collection, key) is Some,
            stored(final(self).task_collection, key)->0.future == future,
            stored(final(self).task_collection, key)->0.state == TaskState::RUNNABLE,
            stored(final(self).task_collection, key)->0._priority == priority,
            seen_ready(final(self).task_collection.pages(), key),
    {
        let task: Task = Task { future, state: TaskState::RUNNABLE, _priority: priority as u8 };
        self.add_task(priority, task)
    }

    /// Removes a task.
    pub fn remove_task(&mut self, key: u64)
        requires
            old(self).wf(),
            old(self).task_collection.has_page(key),
        ensures
            final(self).wf(),
            old(self).task_collection.removes(final(self).task_collection, key),
            old(self).changes_tasks_only(*final(self)),
    {
        let ghost before = *self;
        self.task_collection.remove_task(key);
        proof {
            lemma_runtime_wf_with_more_pages(before, *self);
        }
    }

    /// Wakes a task.
    pub fn wake(&mut self, key: u64)
        requires
            old(self).wf(),
            old(self).task_collection.has_page(key),
        ensures
            final(self).wf(),
            old(self).task_collection.wakes(final(self).task_collection, key),
            old(self).changes_tasks_only(*final(self)),
    {
        let ghost before = *self;
        self.task_collection.wake(key);
        proof {
            lemma_runtime_wf_with_more_pages(before, *self);
        }
    }
}

/// A runtime whose tasks got more pages is still well-formed.
proof fn lemma_runtime_wf_with_more_pages(before: ExecutorRuntime, after: ExecutorRuntime)
    requires
        before.wf(),
        before.changes_tasks_only(after),
        after.task_collection.wf(),
        forall|p: int| 0 <= p < MAX_PRIORITY ==> before.pages()[p].len()
            <= #[trigger] after.pages()[p].len(),
    ensures
        after.wf(),
{
    lemma_wf_with_more_pages(before.strong_executor.scan@, before.pages(), after.pages());
    assert forall|e: int| 0 <= e < after.weak_executor_vec@.len() implies #[trigger]
        after.weak_executor_wf(e) by {
        assert(before.weak_executor_wf(e));
        if let Some(executor) = before.weak_executor_vec@[e] {
            lemma_wf_with_more_pages(executor.scan@, before.pages(), after.pages());
        }
    }
}

impl ExecutorRuntime {
    /// The weak executor with the number `e` can be switched to: it has not ended.
    pub open spec fn is_runnable(self, e: int) -> bool {
        self.weak_executor_vec@[e] matches Some(executor) && executor.state
            != ExecutorState::KILLED
    }

    /// The weak executor with the number `e` has ended and has not been dropped.
    pub open spec fn is_ended(self, e: int) -> bool {
        self.weak_executor_vec@[e] matches Some(executor) && executor.state
            == ExecutorState::KILLED
    }

    /// The first of the weak executors `from` to `count` that can be switched to, or `count`.
    pub open spec fn first_runnable(self, from: int, count: int) -> int
        decreases count - from,
    {
        if from >= count {
            count
        } else if self.is_runnable(from) {
            from
        } else {
            self.first_runnable(from + 1, count)
        }
    }

    /// The weak executors after those of the executors `from` to `to` that have ended were
    /// dropped.
    pub open spec fn without_ended(self, from: int, to: int) -> Seq<Option<Executor>> {
        Seq::new(
            self.weak_executor_vec@.len(),
            |e: int|
                if from <= e < to && self.is_ended(e) {
                    None
                } else {
                    self.weak_executor_vec@[e]
                },
        )
    }

    /// The future of the strong executor used up its time: the strong executor was switched to and
    /// came back in the middle of a future.
    pub open spec fn strong_timed_out(self) -> bool {
        self.phase == RunPhase::Strong && self.strong_executor.is_running_future
    }

    /// The strong executor came back of its own accord, and no executor ever became weak.
    pub open spec fn is_idle(self) -> bool {
        &&& self.phase == RunPhase::Strong
        &&& !self.strong_executor.is_running_future
        &&& self.weak_executor_vec@.len() == 0
    }

    /// The weak executors that are next: the number of the first, and the number behind the last.
    /// It is their turn only when the strong executor came back of its own accord.
    pub open spec fn weak_turn(self) -> (int, int) {
        match self.phase {
            RunPhase::Strong => (0, self.weak_executor_vec@.len() as int),
            RunPhase::Weak { next, count } => (next as int, count as int),
            RunPhase::Start | RunPhase::Replacing => (0, 0),
        }
    }

    /// The runtime has switched to the executor with the number `e`.
    pub open spec fn switched_to(self, e: int, action: RunAction) -> bool {
        &&& action == RunAction::Switch(
            Switch { save: Stack::Runtime, load: Stack::Executor(e as usize) },
        )
        &&& self.current_executor == Some(e as usize)
    }

    /// The runtime goes on without a new executor, with `action`, and becomes `after`: it asks for
    /// a new executor when the strong executor timed out, and waits when it is idle. Otherwise it
    /// switches to the next weak executor whose turn it is, or else to the strong executor, and
    /// drops the executors that it passes because they have ended.
    pub open spec fn resumes(self, after: ExecutorRuntime, action: RunAction) -> bool {
        let (from, count) = self.weak_turn();
        let e = self.first_runnable(from, count);
        &&& after.strong_executor == self.strong_executor
        &&& after.cpu_id == self.cpu_id
        &&& after.task_collection == self.task_collection
        &&& after.context == self.context
        &&& after.weak_executor_vec@ == if self.strong_timed_out() {
            self.weak_executor_vec@
        } else {
            self.without_ended(from, e)
        }
        &&& if self.strong_timed_out() {
            &&& action == RunAction::Create
            &&& after.phase == RunPhase::Replacing
            &&& after.current_executor == self.current_executor
        } else if self.is_idle() {
            &&& action == RunAction::Wait
            &&& after.phase == RunPhase::Start
            &&& after.current_executor == self.current_executor
        } else if e < count {
            &&& after.switched_to(e, action)
            &&& after.phase == (RunPhase::Weak { next: (e + 1) as usize, count: count as usize })
        } else {
            &&& after.switched_to(after.strong_number(), action)
            &&& after.phase == RunPhase::Strong
        }
    }

    /// The runtime goes on with `action` after an event, and becomes `after`. A new executor takes
    /// the place of the strong one, and is switched to.
    pub open spec fn goes_on(
        self,
        event: RunEvent,
        after: ExecutorRuntime,
        action: RunAction,
    ) -> bool {
        match event {
            RunEvent::Resumed => self.resumes(after, action),
            RunEvent::Created(fresh) => {
                &&& self.downgrades(after, fresh)
                &&& after.switched_to(after.strong_number(), action)
                &&& after.phase == RunPhase::Strong
            },
        }
    }
}

/// Goes on with the runtime of a processor, and says what is to be done next.
///
/// The strong executor runs first. When its future used up its time, it becomes weak and a new
/// executor takes its place, which runs the other futures. When it came back of its own accord, the
/// weak executors run, each once, and those that have ended are dropped. When there never was one,
/// the processor waits for an interrupt.
pub fn run(runtime: &mut ExecutorRuntime, event: RunEvent) -> (action: RunAction)
    requires
        old(runtime).wf(),
        event is Created <==> old(runtime).phase == RunPhase::Replacing,
        event matches RunEvent::Created(fresh) ==> fresh.is_new(),
    ensures
        final(runtime).wf(),
        old(runtime).goes_on(event, *final(runtime), action),
        event is Resumed ==> forall|from: int, count: int, k: int|
            #![trigger is_weak_turn(*old(runtime), from, count), is_weak(*old(runtime), k)]
            is_weak_turn(*old(runtime), from, count) && from <= k < count && is_weak(
                *old(runtime),
                k,
            ) ==> {
                &&& final(runtime).current_executor is Some
                &&& from <= final(runtime).current_executor->0 <= k
                &&& action == RunAction::Switch(
                    Switch {
                        save: Stack::Runtime,
                        load: Stack::Executor(final(runtime).current_executor->0),
                    },
                )
            },
{
    let ghost resumed = *runtime;
    match event {
        RunEvent::Created(fresh) => {
            runtime.downgrade_strong_executor(fresh);
            let ghost downgraded = *runtime;
            runtime.phase = RunPhase::Start;
            proof {
                lemma_runtime_wf_with_other_turn(downgraded, *runtime);
                assert(runtime.without_ended(0, 0) =~= runtime.weak_executor_vec@);
            }
            run_weak(runtime, 0, 0)
        },
        RunEvent::Resumed => {
            let (from, count): (usize, usize) = match runtime.phase {
                RunPhase::Strong => {
                    if runtime.strong_executor.is_running_future() {
                        runtime.phase = RunPhase::Replacing;
                        proof {
                            lemma_runtime_wf_with_other_turn(resumed, *runtime);
                        }
                        return RunAction::Create;
                    }
                    let weak_executor_num: usize = runtime.weak_executor_vec.len();
                    if weak_executor_num == 0 {
                        runtime.phase = RunPhase::Start;
                        proof {
                            lemma_runtime_wf_with_other_turn(resumed, *runtime);
                            assert(resumed.without_ended(0, 0) =~= resumed.weak_executor_vec@);
                        }
                        return RunAction::Wait;
                    }
                    (0, weak_executor_num)
                },
                RunPhase::Weak { next, count } => (next, count),
                RunPhase::Start | RunPhase::Replacing => (0, 0),
            };
            let action: RunAction = run_weak(runtime, from, count);
            proof {
                law_weak_turn_is_served(resumed, *runtime, action);
            }
            action
        },
    }
}

/// A runtime that only goes to another phase and another executor, or drops executors that have
/// ended, is still well-formed.
proof fn lemma_runtime_wf_with_other_turn(before: ExecutorRuntime, after: ExecutorRuntime)
    requires
        before.wf(),
        after.task_collection == before.task_collection,
        after.strong_executor == before.strong_executor,
        after.weak_executor_vec@.len() == before.weak_executor_vec@.len(),
        forall|e: int|
            0 <= e < after.weak_executor_vec@.len() ==> (#[trigger] after.weak_executor_vec@[e])
                is None || after.weak_executor_vec@[e] == before.weak_executor_vec@[e],
        after.current_executor matches Some(e) ==> after.has_executor(e as int),
        after.phase matches RunPhase::Weak { next, count } ==> next <= count
            <= after.weak_executor_vec@.len(),
        after.phase == RunPhase::Strong ==> after.current_executor == Some(
            after.weak_executor_vec.len(),
        ),
    ensures
        after.wf(),
{
    assert(after.pages() == before.pages());
    assert forall|e: int| 0 <= e < after.weak_executor_vec@.len() implies #[trigger]
        after.weak_executor_wf(e) by {
        assert(before.weak_executor_wf(e));
    }
}

/// Switches to the first of the weak executors `from` to `count` that has not ended, or else to the
/// strong executor, and drops the executors before it that have ended.
fn run_weak(runtime: &mut ExecutorRuntime, from: usize, count: usize) -> (action: RunAction)
    requires
        old(runtime).wf(),
        old(runtime).weak_turn() == (from as int, count as int),
        !old(runtime).strong_timed_out(),
        !old(runtime).is_idle(),
    ensures
        final(runtime).wf(),
        old(runtime).resumes(*final(runtime), action),
{
    let ghost before = *runtime;
    let mut next: usize = from;
    assert(before.without_ended(from as int, from as int) =~= before.weak_executor_vec@);
    while next < count
        invariant
            before == *old(runtime),
            before.wf(),
            before.weak_turn() == (from as int, count as int),
            !before.strong_timed_out(),
            !before.is_idle(),
            from <= next <= count <= before.weak_executor_vec@.len(),
            before.first_runnable(next as int, count as int) == before.first_runnable(
                from as int,
                count as int,
            ),
            runtime.weak_executor_vec@ == before.without_ended(from as int, next as int),
            runtime.cpu_id == before.cpu_id,
            runtime.task_collection == before.task_collection,
            runtime.strong_executor == before.strong_executor,
            runtime.context == before.context,
        decreases count - next,
    {
        let mut ended: bool = false;
        if let Some(executor) = &runtime.weak_executor_vec[next] {
            ended = executor.killed();
            if !ended {
                runtime.current_executor = Some(next);
                runtime.phase = RunPhase::Weak { next: next + 1, count };
                proof {
                    lemma_runtime_wf_with_other_turn(before, *runtime);
                }
                return RunAction::Switch(
                    Switch { save: Stack::Runtime, load: Stack::Executor(next) },
                );
            }
        }
        if ended {
            runtime.weak_executor_vec[next] = None;
        }
        assert(runtime.weak_executor_vec@ =~= before.without_ended(from as int, next + 1));
        next = next + 1;
    }
    let strong: usize = runtime.weak_executor_vec.len();
    runtime.current_executor = Some(strong);
    runtime.phase = RunPhase::Strong;
    proof {
        lemma_runtime_wf_with_other_turn(before, *runtime);
    }
    RunAction::Switch(Switch { save: Stack::Runtime, load: Stack::Executor(strong) })
}

/// The switch back to the runtime, which then selects an appropriate executor.
pub fn yeild(runtime: &ExecutorRuntime) -> (switch: Switch)
    requires
        runtime.current_executor is Some,
    ensures
        switch == (Switch {
            save: Stack::Executor(runtime.current_executor->0),
            load: Stack::Runtime,
        }),
{
    match runtime.current_executor {
        Some(executor) => Switch { save: Stack::Executor(executor), load: Stack::Runtime },
        None => Switch { save: Stack::Runtime, load: Stack::Runtime },
    }
}

/// Checks whether the future of this processor used up its time. If so, the processor switches to
/// the runtime, which creates a new executor to run other futures.
pub fn handle_timeout(runtime: &ExecutorRuntime) -> (switch: Option<Switch>)
    requires
        runtime.wf(),
        runtime.current_executor is Some,
    ensures
        switch == if runtime.executor(runtime.current_executor->0 as int).is_running_future {
            Some(
                Switch {
                    save: Stack::Executor(runtime.current_executor->0),
                    load: Stack::Runtime,
                },
            )
        } else {
            None
        },
{
    let running: bool = match runtime.current_executor {
        Some(e) if e < runtime.weak_executor_vec.len() => match &runtime.weak_executor_vec[e] {
            Some(executor) => executor.is_running_future(),
            None => false,
        },
        _ => runtime.strong_executor.is_running_future(),
    };
    if !running {
        return None;
    }
    Some(yeild(runtime))
}

impl ExecutorRuntime {
    /// After an event the executor with the number `e` goes on with `action`, and the runtime
    /// becomes `after`. The other executors do not change.
    pub open spec fn runs_executor(
        self,
        after: ExecutorRuntime,
        e: int,
        event: ExecutorEvent,
        action: ExecutorAction,
    ) -> bool {
        &&& self.executor(e).runs(
            after.executor(e),
            self.task_collection,
            after.task_collection,
            event,
            action,
        )
        &&& after.weak_executor_vec@.len() == self.weak_executor_vec@.len()
        &&& after.has_executor(e)
        &&& forall|i: int|
            0 <= i < self.weak_executor_vec@.len() && i != e ==> #[trigger]
                after.weak_executor_vec@[i] == self.weak_executor_vec@[i]
        &&& e != self.strong_number() ==> after.strong_executor == self.strong_executor
        &&& after.cpu_id == self.cpu_id
        &&& after.current_executor == self.current_executor
        &&& after.context == self.context
        &&& after.phase == self.phase
    }
}

/// Goes on with an executor of a runtime after an event, and says what is to be done next. When the
/// executor has ended, the processor switches to the runtime and does not come back.
pub fn run_executor(runtime: &mut ExecutorRuntime, e: usize, event: ExecutorEvent) -> (action:
    ExecutorAction)
    requires
        old(runtime).wf(),
        old(runtime).has_executor(e as int),
        old(runtime).executor(e as int).state != ExecutorState::KILLED,
        event is Polled <==> old(runtime).executor(e as int).is_running_future,
    ensures
        final(runtime).wf(),
        old(runtime).runs_executor(*final(runtime), e as int, event, action),
{
    let ghost before = *runtime;
    let mut action: ExecutorAction = ExecutorAction::Yield;
    if e < runtime.weak_executor_vec.len() {
        assert(before.weak_executor_wf(e as int));
        let mut slot: Option<Executor> = None;
        std::mem::swap(&mut slot, &mut runtime.weak_executor_vec[e]);
        if let Some(mut executor) = slot {
            action = executor.run(&mut runtime.task_collection, event);
            runtime.weak_executor_vec[e] = Some(executor);
        }
    } else {
        action = runtime.strong_executor.run(&mut runtime.task_collection, event);
    }
    proof {
        if e < before.weak_executor_vec@.len() {
            lemma_wf_with_more_pages(
                before.strong_executor.scan@,
                before.pages(),
                runtime.pages(),
            );
        }
        assert forall|i: int| 0 <= i < runtime.weak_executor_vec@.len() implies #[trigger]
            runtime.weak_executor_wf(i) by {
            assert(before.weak_executor_wf(i));
            if i != e && before.weak_executor_vec@[i] is Some {
                lemma_wf_with_more_pages(
                    before.weak_executor_vec@[i]->0.scan@,
                    before.pages(),
                    runtime.pages(),
                );
            }
        }
    }
    action
}

/// Among these numbers of tasks, number `cpu` is the fewest: no other is smaller, and none before
/// it is as small.
pub open spec fn is_fewest(task_nums: Seq<usize>, cpu: int) -> bool {
    &&& 0 <= cpu < task_nums.len()
    &&& forall|i: int| 0 <= i < task_nums.len() ==> task_nums[cpu] <= #[trigger] task_nums[i]
    &&& forall|i: int| 0 <= i < cpu ==> task_nums[cpu] < #[trigger] task_nums[i]
}

/// The processor `cpu` has the fewest tasks, and is the first that has so few.
pub open spec fn has_fewest_tasks(runtimes: Seq<ExecutorRuntime>, cpu: int) -> bool {
    is_fewest(task_nums_of(runtimes), cpu)
}

/// The numbers of tasks of the processors.
pub open spec fn task_nums_of(runtimes: Seq<ExecutorRuntime>) -> Seq<usize> {
    Seq::new(runtimes.len(), |i: int| runtimes[i].task_collection.task_num)
}

/// The processor with the fewest tasks, the first of them if there are several.
pub fn fewest_task_cpu(task_nums: &Vec<usize>) -> (cpu: usize)
    requires
        task_nums@.len() >= 1,
    ensures
        is_fewest(task_nums@, cpu as int),
        cpu < task_nums@.len(),
        forall|i: int| 0 <= i < task_nums@.len() ==> task_nums@[cpu as int]
            <= #[trigger] task_nums@[i],
        forall|i: int| 0 <= i < cpu ==> task_nums@[cpu as int] < #[trigger] task_nums@[i],
{
    let mut fewest_task_cpu_id: usize = 0;
    let mut fewest_task_num: usize = task_nums[0];
    let mut runtime_idx: usize = 1;
    while runtime_idx < task_nums.len()
        invariant
            1 <= runtime_idx <= task_nums@.len(),
            fewest_task_cpu_id < runtime_idx,
            fewest_task_num == task_nums@[fewest_task_cpu_id as int],
            forall|i: int| 0 <= i < runtime_idx ==> fewest_task_num <= #[trigger] task_nums@[i],
            forall|i: int|
                0 <= i < fewest_task_cpu_id ==> fewest_task_num < #[trigger] task_nums@[i],
        decreases task_nums@.len() - runtime_idx,
    {
        let task_num: usize = task_nums[runtime_idx];
        if task_num < fewest_task_num {
            fewest_task_cpu_id = runtime_idx;
            fewest_task_num = task_num;
        }
        runtime_idx = runtime_idx + 1;
    }
    fewest_task_cpu_id
}

/// The task of a future that is spawned.
pub open spec fn spawned_task(future: u64, priority: int) -> Task {
    Task { future, state: TaskState::RUNNABLE, _priority: priority as u8 }
}

/// The runtimes become `after` when the future with the number `future` is spawned with a priority:
/// its task goes to the processor `cpu` and is given the key `key`.
pub open spec fn spawns(
    runtimes: Seq<ExecutorRuntime>,
    after: Seq<ExecutorRuntime>,
    future: u64,
    priority: int,
    cpu: int,
    key: u64,
) -> bool {
    &&& has_fewest_tasks(runtimes, cpu)
    &&& after.len() == runtimes.len()
    &&& forall|i: int| 0 <= i < runtimes.len() && i != cpu ==> #[trigger] after[i] == runtimes[i]
    &&& runtimes[cpu].changes_tasks_only(after[cpu])
    &&& runtimes[cpu].task_collection.inserts(
        after[cpu].task_collection,
        priority,
        spawned_task(future, priority),
        key,
    )
}

/// Spawns a future with the default priority.
pub fn spawn(runtimes: &mut Vec<ExecutorRuntime>, future: u64) -> (spawned: (usize, u64))
    requires
        old(runtimes)@.len() >= 1,
        forall|i: int| 0 <= i < old(runtimes)@.len() ==> #[trigger] old(runtimes)@[i].wf(),
        forall|i: int| #[trigger] has_fewest_tasks(old(runtimes)@, i) ==> old(
            runtimes,
        )@[i].task_collection.inners@[DEFAULT_PRIORITY as int].has_room(),
    ensures
        forall|i: int| 0 <= i < final(runtimes)@.len() ==> #[trigger] final(runtimes)@[i].wf(),
        spawns(
            old(runtimes)@,
            final(runtimes)@,
            future,
            DEFAULT_PRIORITY as int,
            spawned.0 as int,
            spawned.1,
        ),
        spawned.0 < old(runtimes)@.len(),
        ({
            let collection = final(runtimes)@[spawned.0 as int].task_collection;
            &&& stored(collection, spawned.1) is Some
            &&& stored(collection, spawned.1)->0.future == future
            &&& stored(collection, spawned.1)->0.state == TaskState::RUNNABLE
            &&& stored(collection, spawned.1)->0._priority == 4
            &&& seen_ready(collection.pages(), spawned.1)
        }),
        forall|i: int|
            0 <= i < old(runtimes)@.len() ==> old(
                runtimes,
            )@[spawned.0 as int].task_collection.task_num <= (#[trigger] old(
                runtimes,
            )@[i]).task_collection.task_num,
{
    priority_spawn(runtimes, future, DEFAULT_PRIORITY)
}

/// Spawns a future with a priority. Its task goes to the processor with the fewest tasks. Returns
/// that processor, and the key of the task.
pub fn priority_spawn(
    runtimes: &mut Vec<ExecutorRuntime>,
    future: u64,
    priority: usize,
) -> (spawned: (usize, u64))
    requires
        old(runtimes)@.len() >= 1,
        forall|i: int| 0 <= i < old(runtimes)@.len() ==> #[trigger] old(runtimes)@[i].wf(),
        priority < MAX_PRIORITY,
        forall|i: int| #[trigger] has_fewest_tasks(old(runtimes)@, i) ==> old(
            runtimes,
        )@[i].task_collection.inners@[priority as int].has_room(),
    ensures
        forall|i: int| 0 <= i < final(runtimes)@.len() ==> #[trigger] final(runtimes)@[i].wf(),
        spawns(
            old(runtimes)@,
            final(runtimes)@,
            future,
            priority as int,
            spawned.0 as int,
            spawned.1,
        ),
        spawned.0 < old(runtimes)@.len(),
        ({
            let collection = final(runtimes)@[spawned.0 as int].task_collection;
            &&& stored(collection, spawned.1) is Some
            &&& stored(collection, spawned.1)->0.future == future
            &&& stored(collection, spawned.1)->0.state == TaskState::RUNNABLE
            &&& stored(collection, spawned.1)->0._priority == priority
            &&& seen_ready(collection.pages(), spawned.1)
        }),
        forall|i: int|
            0 <= i < old(runtimes)@.len() ==> old(
                runtimes,
            )@[spawned.0 as int].task_collection.task_num <= (#[trigger] old(
                runtimes,
            )@[i]).task_collection.task_num,
{
    let ghost before = runtimes@;
    let mut task_nums: Vec<usize> = Vec::new();
    let mut runtime_idx: usize = 0;
    while runtime_idx < runtimes.len()
        invariant
            runtimes@ == before,
            runtime_idx <= before.len(),
            task_nums@.len() == runtime_idx,
            forall|i: int| 0 <= i < runtime_idx ==> #[trigger] task_nums@[i]
                == before[i].task_collection.task_num,
        decreases before.len() - runtime_idx,
    {
        task_nums.push(runtimes[runtime_idx].task_num());
        runtime_idx = runtime_idx + 1;
    }
    let cpu: usize = fewest_task_cpu(&task_nums);
    proof {
        assert(before[cpu as int].wf());
        assert(task_nums@ =~= task_nums_of(before));
        assert(has_fewest_tasks(before, cpu as int));
    }
    let key: u64 = runtimes[cpu].spawn_task(future, priority);
    proof {
        assert forall|i: int| 0 <= i < before.len() implies before[cpu as int].task_collection.task_num
            <= (#[trigger] before[i]).task_collection.task_num by {
            assert(task_nums@[cpu as int] <= task_nums@[i]);
        }
        assert forall|i: int| 0 <= i < runtimes@.len() implies #[trigger] runtimes@[i].wf() by {
            if i != cpu {
                assert(before[i].wf());
            }
        }
    }
    (cpu, key)
}

} // verus!

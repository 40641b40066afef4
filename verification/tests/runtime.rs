//! Executors and runtimes.

use executor::executor::{
    Context, Executor, ExecutorAction, ExecutorEvent, ExecutorState, InitialStack, TrapFrame,
    STACK_SIZE,
};
use executor::handle_timeout;
use executor::runtime::{
    fewest_task_cpu, priority_spawn, run, run_executor, spawn, yeild, ExecutorRuntime, RunAction, RunEvent,
    RunPhase, Stack, Switch,
};
use executor::task::{Task, TaskState};
use executor::task_collection::TaskCollection;

const POLLED: ExecutorEvent = ExecutorEvent::Polled { ready: false };
const FINISHED: ExecutorEvent = ExecutorEvent::Polled { ready: true };

fn fresh() -> Executor {
    Executor::new(0x10_0000, 0x20_0000, 0x30_0000, 0x40_0000).0
}

fn task(future: u64) -> Task {
    Task { future, state: TaskState::RUNNABLE, _priority: 4 }
}

fn to_executor(executor: usize) -> RunAction {
    RunAction::Switch(Switch { save: Stack::Runtime, load: Stack::Executor(executor) })
}

/// The states of the weak executors.
fn weak_states(runtime: &ExecutorRuntime) -> Vec<Option<ExecutorState>> {
    runtime.weak_executor_vec.iter().map(|e| e.as_ref().map(|e| e.state)).collect()
}

const WEAK: Option<ExecutorState> = Some(ExecutorState::WEAK);
const KILLED: Option<ExecutorState> = Some(ExecutorState::KILLED);

/// The future of the strong executor uses up its time, and a new executor takes its place.
fn time_out(runtime: &mut ExecutorRuntime) {
    assert_eq!(run(runtime, RunEvent::Resumed), RunAction::Create);
    let strong = runtime.weak_executor_vec.len() + 1;
    assert_eq!(run(runtime, RunEvent::Created(fresh())), to_executor(strong));
}

#[test]
fn new_stack_starts_the_executor() {
    let stack = Executor::generate_stack(0x1234, 0x9000, 0x5678);
    assert_eq!(
        stack,
        InitialStack {
            executor_slot: 0x8ff8,
            executor_addr: 0x1234,
            frame_addr: 0x8ff8 - 34 * 8,
            frame: TrapFrame { sp: 0x8ff8, sstatus: 1 << 8, sepc: 0x5678 },
        }
    );
}

#[test]
fn new_executor_returns_to_its_trap_frame() {
    let (executor, stack) = Executor::new(0x10_0000, 0x20_0000, 0x30_0000, 0x40_0000);
    assert_eq!(STACK_SIZE, 4096 * 16);
    assert_eq!(stack, Executor::generate_stack(0x20_0000, 0x11_0000, 0x40_0000));
    assert_eq!(executor.stack_base, 0x10_0000);
    assert_eq!(executor.context, Context { ra: 0x30_0000, sp: 0x11_0000 - 8 - 272 });
    assert_eq!(executor.trapfrmae, TrapFrame::default());
    assert_eq!(executor.state, ExecutorState::UNUSED);
    assert!(!executor.is_running_future());
    assert!(!executor.killed());
    assert_eq!(Context::default(), Context { ra: 0, sp: 0 });
}

#[test]
fn executor_polls_what_is_ready_and_then_yields() {
    let mut tasks = TaskCollection::new();
    let a = tasks.priority_insert(2, task(1));
    let b = tasks.priority_insert(3, task(2));
    let mut executor = fresh();
    assert_eq!(
        executor.run(&mut tasks, ExecutorEvent::Resumed),
        ExecutorAction::Poll { key: a, task: task(1) }
    );
    assert!(executor.is_running_future());
    assert_eq!(executor.run(&mut tasks, POLLED), ExecutorAction::Poll { key: b, task: task(2) });
    tasks.wake(a);
    assert_eq!(executor.run(&mut tasks, FINISHED), ExecutorAction::Poll { key: a, task: task(1) });
    assert_eq!(executor.run(&mut tasks, FINISHED), ExecutorAction::Yield);
    assert!(!executor.is_running_future());
    assert_eq!(tasks.task_num(), 2);
}

#[test]
fn executor_waits_once_after_it_yielded() {
    let mut tasks = TaskCollection::new();
    let mut executor = fresh();
    for _ in 0..2 {
        assert_eq!(executor.run(&mut tasks, ExecutorEvent::Resumed), ExecutorAction::Yield);
        assert_eq!(executor.run(&mut tasks, ExecutorEvent::Resumed), ExecutorAction::Wait);
        assert!(!executor.is_running_future());
    }
    assert_eq!(executor.run(&mut tasks, ExecutorEvent::Resumed), ExecutorAction::Yield);
    let a = tasks.insert(task(1));
    assert_eq!(executor.run(&mut tasks, ExecutorEvent::Resumed), ExecutorAction::Wait);
    assert_eq!(
        executor.run(&mut tasks, ExecutorEvent::Resumed),
        ExecutorAction::Poll { key: a, task: task(1) }
    );
    tasks.wake(a);
    assert_eq!(executor.run(&mut tasks, POLLED), ExecutorAction::Poll { key: a, task: task(1) });
    assert_eq!(executor.run(&mut tasks, POLLED), ExecutorAction::Yield);
}

#[test]
fn finished_task_is_not_polled_when_it_woke_itself() {
    let mut tasks = TaskCollection::new();
    let a = tasks.insert(task(1));
    let mut executor = fresh();
    executor.run(&mut tasks, ExecutorEvent::Resumed);
    tasks.wake(a);
    assert_eq!(executor.run(&mut tasks, FINISHED), ExecutorAction::Yield);
}

#[test]
fn task_that_woke_itself_is_polled_again() {
    let mut tasks = TaskCollection::new();
    let a = tasks.insert(task(1));
    let mut executor = fresh();
    executor.run(&mut tasks, ExecutorEvent::Resumed);
    tasks.wake(a);
    assert_eq!(executor.run(&mut tasks, POLLED), ExecutorAction::Poll { key: a, task: task(1) });
}

#[test]
fn task_that_is_gone_stops_the_executor() {
    let mut tasks = TaskCollection::new();
    tasks.insert(task(1));
    let b = tasks.insert(task(2));
    let mut executor = fresh();
    executor.run(&mut tasks, ExecutorEvent::Resumed);
    tasks.remove_task(b);
    assert_eq!(executor.run(&mut tasks, POLLED), ExecutorAction::Stale { key: b });
}

#[test]
fn weak_executor_ends_after_its_future() {
    let mut tasks = TaskCollection::new();
    tasks.insert(task(1));
    let b = tasks.insert(task(2));
    let c = tasks.insert(task(3));
    let mut executor = fresh();
    executor.run(&mut tasks, ExecutorEvent::Resumed);
    tasks.remove_task(c);
    executor.mark_weak();
    assert_eq!(executor.state, ExecutorState::WEAK);
    assert!(executor.is_running_future());
    assert_eq!(executor.run(&mut tasks, FINISHED), ExecutorAction::Exit);
    assert!(executor.killed());
    assert!(!executor.is_running_future());
    // What the scan of the executor had taken is polled by the next one, unless it was removed.
    let mut next = fresh();
    assert_eq!(
        next.run(&mut tasks, ExecutorEvent::Resumed),
        ExecutorAction::Poll { key: b, task: task(2) }
    );
    assert_eq!(next.run(&mut tasks, POLLED), ExecutorAction::Yield);
}

#[test]
fn new_runtime_starts_with_its_strong_executor() {
    let mut runtime = ExecutorRuntime::new(1, fresh());
    assert_eq!(runtime.cpu_id, 1);
    assert_eq!(runtime.task_num(), 0);
    assert_eq!(runtime.current_executor, None);
    assert_eq!(runtime.phase, RunPhase::Start);
    assert_eq!(run(&mut runtime, RunEvent::Resumed), to_executor(0));
    assert_eq!(runtime.current_executor, Some(0));
    assert_eq!(yeild(&runtime), Switch { save: Stack::Executor(0), load: Stack::Runtime });
}

#[test]
fn idle_runtime_waits_for_an_interrupt() {
    let mut runtime = ExecutorRuntime::new(0, fresh());
    for round in 0..3 {
        assert_eq!(run(&mut runtime, RunEvent::Resumed), to_executor(0));
        if round > 0 {
            assert_eq!(
                run_executor(&mut runtime, 0, ExecutorEvent::Resumed),
                ExecutorAction::Wait
            );
        }
        assert_eq!(
            run_executor(&mut runtime, 0, ExecutorEvent::Resumed),
            ExecutorAction::Yield
        );
        assert_eq!(run(&mut runtime, RunEvent::Resumed), RunAction::Wait);
    }
}

#[test]
fn timeout_switches_only_while_a_future_runs() {
    let mut runtime = ExecutorRuntime::new(0, fresh());
    runtime.add_task(4, task(1));
    run(&mut runtime, RunEvent::Resumed);
    assert_eq!(handle_timeout(&runtime), None);
    run_executor(&mut runtime, 0, ExecutorEvent::Resumed);
    assert_eq!(
        handle_timeout(&runtime),
        Some(Switch { save: Stack::Executor(0), load: Stack::Runtime })
    );
}

#[test]
fn timed_out_executor_is_replaced_and_runs_as_a_weak_one() {
    let mut runtime = ExecutorRuntime::new(0, fresh());
    let a = runtime.add_task(4, task(1));
    run(&mut runtime, RunEvent::Resumed);
    run_executor(&mut runtime, 0, ExecutorEvent::Resumed);
    time_out(&mut runtime);
    assert_eq!(weak_states(&runtime), vec![WEAK]);
    assert!(runtime.weak_executor_vec[0].as_ref().unwrap().is_running_future());
    assert_eq!(runtime.strong_executor.state, ExecutorState::UNUSED);
    assert!(!runtime.strong_executor.is_running_future());

    // The new executor finds nothing and yields; then the weak one goes on.
    assert_eq!(run_executor(&mut runtime, 1, ExecutorEvent::Resumed), ExecutorAction::Yield);
    assert_eq!(run(&mut runtime, RunEvent::Resumed), to_executor(0));
    assert_eq!(runtime.current_executor, Some(0));
    assert_eq!(run_executor(&mut runtime, 0, FINISHED), ExecutorAction::Exit);

    // The weak executor has ended. It is dropped in the next turn, and not switched to again.
    assert_eq!(run(&mut runtime, RunEvent::Resumed), to_executor(1));
    assert_eq!(weak_states(&runtime), vec![KILLED]);
    assert_eq!(run_executor(&mut runtime, 1, ExecutorEvent::Resumed), ExecutorAction::Wait);
    assert_eq!(run_executor(&mut runtime, 1, ExecutorEvent::Resumed), ExecutorAction::Yield);
    assert_eq!(run(&mut runtime, RunEvent::Resumed), to_executor(1));
    assert_eq!(weak_states(&runtime), vec![None]);
    assert_eq!(run_executor(&mut runtime, 1, ExecutorEvent::Resumed), ExecutorAction::Wait);
    assert_eq!(run_executor(&mut runtime, 1, ExecutorEvent::Resumed), ExecutorAction::Yield);
    assert_eq!(run(&mut runtime, RunEvent::Resumed), to_executor(1));
    assert_eq!(weak_states(&runtime), vec![None]);

    runtime.remove_task(a);
    assert_eq!(runtime.task_num(), 0);
}

#[test]
fn weak_executors_take_turns_and_killed_ones_are_skipped() {
    let mut runtime = ExecutorRuntime::new(0, fresh());
    for i in 0..3 {
        runtime.add_task(4, task(i));
    }
    let keys: Vec<u64> = (0..3).map(|i| (4 << 59) + i).collect();
    run(&mut runtime, RunEvent::Resumed);
    for executor in 0..3 {
        assert_eq!(
            run_executor(&mut runtime, executor, ExecutorEvent::Resumed),
            ExecutorAction::Poll { key: keys[executor], task: task(executor as u64) }
        );
        time_out(&mut runtime);
    }
    assert_eq!(weak_states(&runtime), vec![WEAK, WEAK, WEAK]);
    assert_eq!(run_executor(&mut runtime, 3, ExecutorEvent::Resumed), ExecutorAction::Yield);
    assert_eq!(run(&mut runtime, RunEvent::Resumed), to_executor(0));
    assert_eq!(runtime.phase, RunPhase::Weak { next: 1, count: 3 });
    assert_eq!(run(&mut runtime, RunEvent::Resumed), to_executor(1));
    assert_eq!(run_executor(&mut runtime, 1, POLLED), ExecutorAction::Exit);
    assert_eq!(run(&mut runtime, RunEvent::Resumed), to_executor(2));
    assert_eq!(run(&mut runtime, RunEvent::Resumed), to_executor(3));
    assert_eq!(weak_states(&runtime), vec![WEAK, KILLED, WEAK]);
    assert_eq!(run_executor(&mut runtime, 3, ExecutorEvent::Resumed), ExecutorAction::Wait);
    assert_eq!(run_executor(&mut runtime, 3, ExecutorEvent::Resumed), ExecutorAction::Yield);
    assert_eq!(run(&mut runtime, RunEvent::Resumed), to_executor(0));
    assert_eq!(weak_states(&runtime), vec![WEAK, KILLED, WEAK]);
    assert_eq!(run(&mut runtime, RunEvent::Resumed), to_executor(2));
    assert_eq!(weak_states(&runtime), vec![WEAK, None, WEAK]);
    assert_eq!(run(&mut runtime, RunEvent::Resumed), to_executor(3));
}

#[test]
fn timeout_of_a_weak_executor_switches_back_and_keeps_it() {
    let mut runtime = ExecutorRuntime::new(0, fresh());
    runtime.add_task(4, task(1));
    run(&mut runtime, RunEvent::Resumed);
    run_executor(&mut runtime, 0, ExecutorEvent::Resumed);
    time_out(&mut runtime);
    run_executor(&mut runtime, 1, ExecutorEvent::Resumed);
    assert_eq!(run(&mut runtime, RunEvent::Resumed), to_executor(0));
    assert_eq!(
        handle_timeout(&runtime),
        Some(Switch { save: Stack::Executor(0), load: Stack::Runtime })
    );
    assert_eq!(run(&mut runtime, RunEvent::Resumed), to_executor(1));
    assert_eq!(weak_states(&runtime), vec![WEAK]);
}

#[test]
fn tasks_that_a_timed_out_executor_had_taken_go_to_the_new_one() {
    let mut runtime = ExecutorRuntime::new(0, fresh());
    let keys: Vec<u64> = (0..4).map(|i| runtime.add_task(4, task(i))).collect();
    let other = runtime.add_task(9, task(4));
    run(&mut runtime, RunEvent::Resumed);
    run_executor(&mut runtime, 0, ExecutorEvent::Resumed);
    // A task that was taken and is removed before the timeout is not polled any more.
    runtime.remove_task(keys[2]);
    time_out(&mut runtime);
    let mut event = ExecutorEvent::Resumed;
    for (key, future) in [(keys[1], 1), (keys[3], 3), (other, 4)] {
        assert_eq!(
            run_executor(&mut runtime, 1, event),
            ExecutorAction::Poll { key, task: task(future) }
        );
        event = FINISHED;
    }
    assert_eq!(run_executor(&mut runtime, 1, event), ExecutorAction::Yield);
    assert_eq!(run(&mut runtime, RunEvent::Resumed), to_executor(0));
    assert_eq!(run_executor(&mut runtime, 0, FINISHED), ExecutorAction::Exit);
    assert_eq!(run(&mut runtime, RunEvent::Resumed), to_executor(1));
    assert_eq!(run_executor(&mut runtime, 1, ExecutorEvent::Resumed), ExecutorAction::Wait);
    assert_eq!(run_executor(&mut runtime, 1, ExecutorEvent::Resumed), ExecutorAction::Yield);
}

#[test]
fn weak_executors_do_not_run_while_the_strong_one_times_out() {
    let mut runtime = ExecutorRuntime::new(0, fresh());
    runtime.add_task(4, task(1));
    run(&mut runtime, RunEvent::Resumed);
    run_executor(&mut runtime, 0, ExecutorEvent::Resumed);
    time_out(&mut runtime);
    runtime.add_task(4, task(2));
    run_executor(&mut runtime, 1, ExecutorEvent::Resumed);
    time_out(&mut runtime);
    assert_eq!(weak_states(&runtime), vec![WEAK, WEAK]);
}

#[test]
fn first_of_the_processors_with_the_fewest_tasks() {
    assert_eq!(fewest_task_cpu(&vec![3]), 0);
    assert_eq!(fewest_task_cpu(&vec![2, 1, 1, 5]), 1);
    assert_eq!(fewest_task_cpu(&vec![2, 2, 2]), 0);
    assert_eq!(fewest_task_cpu(&vec![usize::MAX, 7, 0]), 2);
}

#[test]
fn spawned_task_is_runnable_and_has_its_priority() {
    let mut runtime = ExecutorRuntime::new(0, fresh());
    let key = runtime.spawn_task(5, 20);
    assert_eq!(key, 20 << 59);
    let spawned = Task { future: 5, state: TaskState::RUNNABLE, _priority: 20 };
    run(&mut runtime, RunEvent::Resumed);
    assert_eq!(
        run_executor(&mut runtime, 0, ExecutorEvent::Resumed),
        ExecutorAction::Poll { key, task: spawned }
    );
}

#[test]
fn futures_are_spawned_on_the_processor_with_the_fewest_tasks() {
    let mut runtimes = vec![
        ExecutorRuntime::new(0, fresh()),
        ExecutorRuntime::new(1, fresh()),
        ExecutorRuntime::new(2, fresh()),
    ];
    assert_eq!(spawn(&mut runtimes, 0), (0, 4 << 59));
    assert_eq!(spawn(&mut runtimes, 1), (1, 4 << 59));
    assert_eq!(priority_spawn(&mut runtimes, 2, 9), (2, 9 << 59));
    assert_eq!(spawn(&mut runtimes, 3), (0, (4 << 59) + 1));
    runtimes[2].remove_task(9 << 59);
    assert_eq!(spawn(&mut runtimes, 4), (2, 4 << 59));
    let counts: Vec<usize> = runtimes.iter().map(|r| r.task_num()).collect();
    assert_eq!(counts, vec![2, 1, 1]);
    assert_eq!(
        runtimes[2].task_collection.take_task(),
        Some((4 << 59, Task { future: 4, state: TaskState::RUNNABLE, _priority: 4 }))
    );
}

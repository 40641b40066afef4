//! Runs futures to their end on two processors.

use executor::executor::{Executor, ExecutorAction, ExecutorEvent};
use executor::runtime::{ExecutorRuntime, RunAction, RunEvent, Stack};
use executor::{run, spawn};
use std::future::Future;
use std::pin::Pin;
use std::sync::atomic::{AtomicUsize, Ordering};
use std::sync::{Arc, Mutex};
use std::task::{Context, Poll, Wake, Waker};

/// Notes the keys of the tasks that are woken.
struct Notes {
    key: u64,
    woken: Arc<Mutex<Vec<u64>>>,
}

impl Wake for Notes {
    fn wake(self: Arc<Self>) {
        self.woken.lock().unwrap().push(self.key);
    }
}

struct Machine {
    runtimes: Vec<ExecutorRuntime>,
    futures: Vec<Pin<Box<dyn Future<Output = ()>>>>,
    woken: Arc<Mutex<Vec<u64>>>,
}

impl Machine {
    fn new() -> Machine {
        let mut runtimes = Vec::new();
        for cpu_id in 0..2 {
            let (strong, _) = Executor::new(0x10_0000, 0x20_0000, 0x30_0000, 0x40_0000);
            runtimes.push(ExecutorRuntime::new(cpu_id, strong));
        }
        Machine { runtimes, futures: Vec::new(), woken: Arc::new(Mutex::new(Vec::new())) }
    }

    fn spawn(&mut self, future: impl Future<Output = ()> + 'static) -> (usize, u64) {
        let number = self.futures.len() as u64;
        self.futures.push(Box::pin(future));
        spawn(&mut self.runtimes, number)
    }

    /// Runs an executor until it gives the processor back.
    fn run_executor(&mut self, cpu: usize, executor: usize) {
        let mut event = ExecutorEvent::Resumed;
        loop {
            let action =
                executor::runtime::run_executor(&mut self.runtimes[cpu], executor, event);
            match action {
                ExecutorAction::Poll { key, task } => {
                    let notes = Notes { key, woken: self.woken.clone() };
                    let waker = Waker::from(Arc::new(notes));
                    let mut cx = Context::from_waker(&waker);
                    let polled = self.futures[task.future as usize].as_mut().poll(&mut cx);
                    event = ExecutorEvent::Polled { ready: polled.is_ready() };
                    let keys: Vec<u64> = self.woken.lock().unwrap().drain(..).collect();
                    for key in keys {
                        self.runtimes[cpu].wake(key);
                    }
                }
                ExecutorAction::Wait => event = ExecutorEvent::Resumed,
                ExecutorAction::Yield | ExecutorAction::Exit => return,
                ExecutorAction::Stale { .. } => panic!("a task is gone"),
            }
        }
    }

    /// Runs a processor until it waits for an interrupt.
    fn run(&mut self, cpu: usize) {
        loop {
            match run(&mut self.runtimes[cpu], RunEvent::Resumed) {
                RunAction::Switch(switch) => match switch.load {
                    Stack::Executor(executor) => self.run_executor(cpu, executor),
                    Stack::Runtime => panic!("the runtime switches to itself"),
                },
                RunAction::Create => panic!("no future was interrupted"),
                RunAction::Wait => return,
            }
        }
    }
}

#[test]
pub fn basic_test() {
    let mut machine = Machine::new();
    machine.spawn(hello());
    machine.run(0);
}

pub async fn hello() {
    println!("hello waorld!");
}

/// Returns control as often as told, and wakes itself each time.
struct Countdown {
    left: usize,
    polls: Arc<AtomicUsize>,
}

impl Future for Countdown {
    type Output = ();

    fn poll(mut self: Pin<&mut Self>, cx: &mut Context<'_>) -> Poll<()> {
        self.polls.fetch_add(1, Ordering::SeqCst);
        if self.left == 0 {
            return Poll::Ready(());
        }
        self.left -= 1;
        cx.waker().wake_by_ref();
        Poll::Pending
    }
}

#[test]
fn futures_are_polled_until_they_are_finished() {
    let mut machine = Machine::new();
    let mut counters = Vec::new();
    for left in [0, 1, 5, 2] {
        let polls = Arc::new(AtomicUsize::new(0));
        counters.push(polls.clone());
        machine.spawn(Countdown { left, polls });
    }
    machine.run(0);
    machine.run(1);
    let polls: Vec<usize> = counters.iter().map(|c| c.load(Ordering::SeqCst)).collect();
    assert_eq!(polls, vec![1, 2, 6, 3]);
    assert_eq!(machine.runtimes[0].task_num(), 2);
    assert_eq!(machine.runtimes[1].task_num(), 2);
}

//! Executors: each scans the tasks on a stack of its own and has them polled one by one.
//!
//! An executor cannot poll a future or switch stacks. It says what is to be done next, and is told
//! how it went.

use crate::key::key_position;
use crate::observe::{law_task_is_found_in_its_slot, stored};
use crate::scan::{lemma_resume_in_range, lemma_resume_keeps_lengths, lemma_resume_keeps_wf,
    lemma_wf_with_more_pages, Scan, ScanView};
use crate::task::Task;
use crate::task_collection::{dropped_at, next_task, taken_position, task_at, TaskCollection,
    MAX_PRIORITY};
use crate::waker_page::WakerPage;
use vstd::prelude::*;

verus! {

/// The size of the stack of an executor: 16 pages of 4096 bytes.
pub const STACK_SIZE: usize = 0x1_0000;

/// The size of a machine word.
pub const WORD_SIZE: usize = 8;

/// The size of a trap frame: 32 registers, the status word and the program counter.
pub const TRAP_FRAME_SIZE: usize = 272;

/// The status word with which a new executor starts: the trap came from supervisor mode.
pub const SSTATUS_SPP: usize = 0x100;

/// Where a stack goes on after a switch.
#[derive(Clone, Copy, Debug, PartialEq, Eq, Structural)]
pub struct Context {
    /// The return address.
    pub ra: usize,
    /// The stack pointer.
    pub sp: usize,
}

impl Default for Context {
    fn default() -> (context: Context)
        ensures
            context == (Context { ra: 0, sp: 0 }),
    {
        Context { ra: 0, sp: 0 }
    }
}

/// The words of a trap frame that decide where a stack goes on after a trap.
#[derive(Clone, Copy, Debug, PartialEq, Eq, Structural)]
pub struct TrapFrame {
    /// The stack pointer.
    pub sp: usize,
    /// The status word.
    pub sstatus: usize,
    /// The program counter.
    pub sepc: usize,
}

impl Default for TrapFrame {
    fn default() -> (frame: TrapFrame)
        ensures
            frame == (TrapFrame { sp: 0, sstatus: 0, sepc: 0 }),
    {
        TrapFrame { sp: 0, sstatus: 0, sepc: 0 }
    }
}

/// What has to be written to a new stack: the address of the executor at the bottom, and below it
/// a trap frame.
#[derive(Clone, Copy, Debug, PartialEq, Eq, Structural)]
pub struct InitialStack {
    /// Where the address of the executor is written.
    pub executor_slot: usize,
    /// The address of the executor.
    pub executor_addr: usize,
    /// Where the trap frame is written. This is the top of the new stack.
    pub frame_addr: usize,
    /// The trap frame.
    pub frame: TrapFrame,
}

/// The layout of a new stack below `stack_top`.
pub open spec fn initial_stack(
    executor_addr: int,
    stack_top: int,
    executor_entry: int,
) -> InitialStack {
    InitialStack {
        executor_slot: (stack_top - WORD_SIZE) as usize,
        executor_addr: executor_addr as usize,
        frame_addr: (stack_top - WORD_SIZE - TRAP_FRAME_SIZE) as usize,
        frame: TrapFrame {
            sp: (stack_top - WORD_SIZE) as usize,
            sstatus: SSTATUS_SPP,
            sepc: executor_entry as usize,
        },
    }
}

/// What is left for an executor to do.
#[derive(Clone, Copy, Debug, PartialEq, Eq, Structural)]
pub enum ExecutorState {
    STRONG,
    /// The executor ends after the future that it is running.
    WEAK,
    /// The executor has ended.
    KILLED,
    UNUSED,
}

/// What happened since an executor was asked for its next action.
#[derive(Clone, Copy, Debug, PartialEq, Eq, Structural)]
pub enum ExecutorEvent {
    /// The executor was started, or goes on after it yielded or waited.
    Resumed,
    /// The future was polled.
    Polled {
        /// The future is finished.
        ready: bool,
    },
}

/// What an executor wants to have done next.
#[derive(Clone, Copy, Debug, PartialEq, Eq, Structural)]
pub enum ExecutorAction {
    /// Poll the future of the task.
    Poll { key: u64, task: Task },
    /// A task was woken that is not there any more. The executor cannot go on.
    Stale { key: u64 },
    /// No task is ready: give the processor back to the runtime.
    Yield,
    /// The processor came back after the executor yielded: wait for an interrupt.
    Wait,
    /// The executor has ended.
    Exit,
}

impl ExecutorAction {
    /// The position of the task that the action is about.
    pub open spec fn position(self) -> Option<(int, int, int)> {
        match self {
            ExecutorAction::Poll { key, .. } => Some(key_position(key)),
            ExecutorAction::Stale { key } => Some(key_position(key)),
            _ => None,
        }
    }
}

/// An executor: a stack, and a scan of the tasks.
pub struct Executor {
    pub stack_base: usize,
    pub context: Context,
    pub trapfrmae: TrapFrame,
    pub is_running_future: bool,
    pub state: ExecutorState,
    /// The executor has yielded and has not waited for an interrupt since.
    pub yielded: bool,
    /// The scan that finds the tasks that are to be polled.
    pub scan: Scan,
}

impl Executor {
    /// The scan is within the pages, and so is the task whose future is running. No future runs when
    /// the executor has yielded.
    pub open spec fn wf(self, pages: Seq<Seq<WakerPage>>) -> bool {
        &&& self.scan@.wf(pages)
        &&& self.is_running_future ==> self.scan@.priority < MAX_PRIORITY
            && self.scan@.page_idx >= 1
        &&& self.yielded ==> !self.is_running_future
    }

    /// The executor has not run yet.
    pub open spec fn is_new(self) -> bool {
        &&& !self.is_running_future
        &&& self.state == ExecutorState::UNUSED
        &&& !self.yielded
        &&& self.scan@ == ScanView::ended()
    }

    /// An executor on the stack at `stack_base`, and what has to be written to that stack. When
    /// `trap_return` loads the trap frame, the executor starts at `executor_entry`.
    pub fn new(
        stack_base: usize,
        executor_addr: usize,
        trap_return: usize,
        executor_entry: usize,
    ) -> (made: (Executor, InitialStack))
        requires
            stack_base + STACK_SIZE <= usize::MAX,
        ensures
            made.0.is_new(),
            made.0.stack_base == stack_base,
            made.0.context == (Context { ra: trap_return, sp: made.1.frame_addr }),
            made.0.trapfrmae == (TrapFrame { sp: 0, sstatus: 0, sepc: 0 }),
            made.1 == initial_stack(
                executor_addr as int,
                stack_base + STACK_SIZE,
                executor_entry as int,
            ),
            stack_base <= made.1.frame_addr < stack_base + STACK_SIZE,
    {
        // The stack grows from high to low addresses.
        let stack_top: usize = stack_base + STACK_SIZE;
        let stack: InitialStack = Executor::generate_stack(
            executor_addr,
            stack_top,
            executor_entry,
        );
        let mut context: Context = Context::default();
        context.sp = stack.frame_addr;
        context.ra = trap_return;
        (
            Executor {
                stack_base,
                context,
                trapfrmae: TrapFrame::default(),
                is_running_future: false,
                state: ExecutorState::UNUSED,
                yielded: false,
                scan: Scan::new(),
            },
            stack,
        )
    }

    /// Lays out a new stack below `stack_top`: the address of the executor, then a trap frame that
    /// starts `executor_entry` in supervisor mode, with a stack that holds only the address of the
    /// executor.
    pub fn generate_stack(
        executor_addr: usize,
        stack_top: usize,
        executor_entry: usize,
    ) -> (stack: InitialStack)
        requires
            stack_top >= WORD_SIZE + TRAP_FRAME_SIZE,
        ensures
            stack == initial_stack(executor_addr as int, stack_top as int, executor_entry as int),
    {
        let executor_slot: usize = stack_top - WORD_SIZE;
        let frame_addr: usize = executor_slot - TRAP_FRAME_SIZE;
        InitialStack {
            executor_slot,
            executor_addr,
            frame_addr,
            frame: TrapFrame { sp: executor_slot, sstatus: SSTATUS_SPP, sepc: executor_entry },
        }
    }

    /// The pages after the event: the task of a future that is finished is marked as dropped.
    pub open spec fn pages_at(
        self,
        pages: Seq<Seq<WakerPage>>,
        event: ExecutorEvent,
    ) -> Seq<Seq<WakerPage>> {
        if event == (ExecutorEvent::Polled { ready: true }) {
            dropped_at(pages, self.scan@.position())
        } else {
            pages
        }
    }

    /// The executor ends with this event: it is weak, and a future was polled.
    pub open spec fn ends_at(self, event: ExecutorEvent) -> bool {
        self.state == ExecutorState::WEAK && event is Polled
    }

    /// After the event the executor goes on with `action`: it becomes `after`, and the tasks become
    /// `tasks1`.
    pub open spec fn runs(
        self,
        after: Executor,
        tasks: TaskCollection,
        tasks1: TaskCollection,
        event: ExecutorEvent,
        action: ExecutorAction,
    ) -> bool {
        &&& action is Exit <==> self.ends_at(event)
        &&& action is Wait <==> !self.ends_at(event) && self.yielded
        &&& if self.ends_at(event) {
            &&& after.state == ExecutorState::KILLED
            &&& after.scan@ == self.scan@.without_pending()
            &&& self.scan@.gives_back(tasks.pages(), tasks1.pages())
        } else if self.yielded {
            &&& after.state == self.state
            &&& after.scan == self.scan
            &&& tasks1.pages() == tasks.pages()
        } else {
            &&& after.state == self.state
            &&& self.scan@.resumes(
                self.pages_at(tasks.pages(), event),
                after.scan@,
                tasks1.pages(),
                action.position(),
            )
        }
        &&& match action {
            ExecutorAction::Poll { key, task } => {
                &&& task_at(tasks.tasks(), key) == Some(task)
                &&& after.scan@.position() == key_position(key)
            },
            ExecutorAction::Stale { key } => task_at(tasks.tasks(), key) is None,
            ExecutorAction::Yield | ExecutorAction::Wait | ExecutorAction::Exit => true,
        }
        &&& after.is_running_future <==> action is Poll
        &&& after.yielded <==> action is Yield
        &&& after.stack_base == self.stack_base
        &&& after.context == self.context
        &&& after.trapfrmae == self.trapfrmae
        &&& tasks1.tasks() == tasks.tasks()
        &&& tasks1.vacant() == tasks.vacant()
        &&& tasks1.task_num == tasks.task_num
        &&& tasks1.scan == tasks.scan
    }

    /// Goes on after an event, and says what is to be done next.
    ///
    /// When no task is ready the executor yields, and when the processor comes back it waits for an
    /// interrupt before it looks again.
    ///
    /// A weak executor ends when its future was polled. What its scan had taken and not handed out
    /// is woken again then. A future that is finished is not marked as dropped.
    pub fn run(&mut self, tasks: &mut TaskCollection, event: ExecutorEvent) -> (action:
        ExecutorAction)
        requires
            old(tasks).wf(),
            old(self).wf(old(tasks).pages()),
            event is Polled <==> old(self).is_running_future,
        ensures
            final(tasks).wf(),
            final(self).wf(final(tasks).pages()),
            old(self).runs(*final(self), *old(tasks), *final(tasks), event, action),
            action matches ExecutorAction::Poll { key, task } ==> stored(*old(tasks), key) == Some(
                task,
            ) && stored(*final(tasks), key) == Some(task),
            action matches ExecutorAction::Stale { key } ==> stored(*old(tasks), key) is None,
            final(tasks).pages().len() == old(tasks).pages().len(),
            forall|p: int| 0 <= p < old(tasks).pages().len() ==> #[trigger]
                final(tasks).pages()[p].len() == old(tasks).pages()[p].len(),
    {
        let ghost tasks0 = *tasks;
        self.is_running_future = false;
        if let ExecutorEvent::Polled { ready } = event {
            if let ExecutorState::WEAK = self.state {
                self.state = ExecutorState::KILLED;
                tasks.take_back(&mut self.scan);
                return ExecutorAction::Exit;
            }
            if ready {
                tasks.mark_dropped(
                    self.scan.priority,
                    self.scan.page_idx - 1,
                    self.scan.subpage_idx,
                );
            }
        }
        if self.yielded {
            self.yielded = false;
            return ExecutorAction::Wait;
        }
        let ghost state = self.scan@;
        let ghost pages = tasks.pages();
        let taken: Option<(u64, Option<Task>)> = next_task(&mut self.scan, &mut tasks.inners);
        proof {
            let hit = taken_position(taken);
            lemma_resume_keeps_wf(state, pages, self.scan@, tasks.pages(), hit);
            lemma_resume_keeps_lengths(state, pages, self.scan@, tasks.pages(), hit);
            lemma_wf_with_more_pages(tasks.scan@, pages, tasks.pages());
            lemma_resume_in_range(state, pages, self.scan@, tasks.pages(), hit);
            if let Some((key, _)) = taken {
                law_task_is_found_in_its_slot(tasks0, key);
                law_task_is_found_in_its_slot(*tasks, key);
            }
        }
        match taken {
            Some((key, Some(task))) => {
                self.is_running_future = true;
                ExecutorAction::Poll { key, task }
            },
            Some((key, None)) => ExecutorAction::Stale { key },
            None => {
                self.yielded = true;
                ExecutorAction::Yield
            },
        }
    }

    /// A future is running. When a timer interrupt comes while a future is running, the future has
    /// used up its time.
    pub fn is_running_future(&self) -> (running: bool)
        ensures
            running == self.is_running_future,
    {
        self.is_running_future
    }

    /// The executor has ended.
    pub fn killed(&self) -> (killed: bool)
        ensures
            killed == (self.state == ExecutorState::KILLED),
    {
        matches!(self.state, ExecutorState::KILLED)
    }

    /// The executor becomes the weak executor `after`, whose scan has nothing left to hand out.
    pub open spec fn weakens(self, after: Executor) -> bool {
        &&& after.state == ExecutorState::WEAK
        &&& after.scan@ == self.scan@.without_pending()
        &&& after.stack_base == self.stack_base
        &&& after.context == self.context
        &&& after.trapfrmae == self.trapfrmae
        &&& after.is_running_future == self.is_running_future
        &&& after.yielded == self.yielded
    }

    /// Makes the executor end after the future that it is running.
    pub fn mark_weak(&mut self)
        ensures
            final(self).state == ExecutorState::WEAK,
            final(self).stack_base == old(self).stack_base,
            final(self).context == old(self).context,
            final(self).trapfrmae == old(self).trapfrmae,
            final(self).is_running_future == old(self).is_running_future,
            final(self).yielded == old(self).yielded,
            final(self).scan == old(self).scan,
    {
        self.state = ExecutorState::WEAK;
    }
}

} // verus!

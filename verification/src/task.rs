//! Tasks: what the scheduler knows of a future.

use vstd::prelude::*;

verus! {

/// Whether a task can run.
#[derive(Clone, Copy, Debug, PartialEq, Eq, Structural)]
#[allow(non_camel_case_types)]
pub enum TaskState {
    _BLOCKED,
    RUNNABLE,
    _RUNNING,
}

/// A future that was handed to the scheduler.
#[derive(Clone, Copy, Debug, PartialEq, Eq, Structural)]
pub struct Task {
    /// The number by which the owner of the future finds it again.
    pub future: u64,
    pub state: TaskState,
    pub _priority: u8,
}

impl Task {
    /// The task can run.
    pub open spec fn runnable(self) -> bool {
        self.state == TaskState::RUNNABLE
    }

    /// The task after it was kept from running.
    pub open spec fn blocked(self) -> Task {
        Task { state: TaskState::_BLOCKED, ..self }
    }

    /// The task can run.
    pub fn _is_runnable(&self) -> (runnable: bool)
        ensures
            runnable == self.runnable(),
    {
        if let TaskState::RUNNABLE = self.state {
            true
        } else {
            false
        }
    }

    /// Keeps the task from running.
    pub fn _block(&mut self)
        ensures
            *final(self) == old(self).blocked(),
    {
        self.state = TaskState::_BLOCKED;
    }
}

/// A task can run exactly when its state says so: not when it is blocked, and not when it is running.
pub proof fn law_only_a_runnable_task_can_run(task: Task)
    ensures
        task.state == TaskState::RUNNABLE ==> task.runnable(),
        task.state == TaskState::_BLOCKED ==> !task.runnable(),
        task.state == TaskState::_RUNNING ==> !task.runnable(),
{
}

/// A task that was blocked cannot run, blocking it again changes nothing, and its future and its
/// priority are untouched.
pub proof fn law_blocked_task_cannot_run(task: Task)
    ensures
        task.blocked().state == TaskState::_BLOCKED,
        !task.blocked().runnable(),
        task.blocked().blocked() == task.blocked(),
        task.blocked().future == task.future,
        task.blocked()._priority == task._priority,
{
}

} // verus!

//! The slab in which the tasks of one priority are stored.

use crate::task::Task;
use unicycle::pin_slab::PinSlab;
use vstd::prelude::*;

verus! {

/// The outside slab, which hands out a small integer key for each value that is put into it.
#[verifier::external_type_specification]
#[verifier::external_body]
#[verifier::reject_recursive_types(T)]
pub struct ExPinSlab<T>(unicycle::pin_slab::PinSlab<T>);

/// The tasks that a slab holds, each under its key.
pub uninterp spec fn slab_tasks(slab: PinSlab<Task>) -> Map<nat, Task>;

/// The keys that were freed by a removal and have not been handed out since, the latest last.
pub uninterp spec fn slab_vacant(slab: PinSlab<Task>) -> Seq<nat>;

/// The keys that a slab has handed out are the numbers from 0 on. Each of them is in use or was
/// freed, not both, and none was freed twice.
pub open spec fn keys_wf(tasks: Map<nat, Task>, vacant: Seq<nat>) -> bool {
    let span = tasks.dom().len() + vacant.len();
    &&& tasks.dom().finite()
    &&& forall|key: nat| #[trigger] tasks.contains_key(key) ==> key < span
    &&& forall|i: int| 0 <= i < vacant.len() ==> #[trigger] vacant[i] < span
    &&& forall|i: int| 0 <= i < vacant.len() ==> !tasks.contains_key(#[trigger] vacant[i])
    &&& vacant.no_duplicates()
    &&& forall|key: nat|
        key < span ==> #[trigger] tasks.contains_key(key) || vacant.contains(key)
}

/// The largest number of keys that a slab is asked to hand out. Its storage doubles in size as it
/// grows, and with this many keys one allocation still stays within the address space.
pub open spec fn slab_limit() -> int {
    usize::MAX as int / 32
}

/// Calls `PinSlab::<Task>::new`: the new slab holds nothing, and no key has been freed.
#[verifier::external_body]
pub(crate) fn slab_new() -> (slab: PinSlab<Task>)
    ensures
        (slab_tasks(slab) == Map::<nat, Task>::empty()),
        slab_vacant(slab) == Seq::<nat>::empty(),
{
    PinSlab::new()
}

/// Calls `PinSlab::<Task>::insert`. The task is stored under the key that was freed last, or, when
/// no freed key is left, under the number of keys that are in use.
#[verifier::external_body]
pub(crate) fn slab_insert(slab: &mut PinSlab<Task>, task: Task) -> (key: usize)
    requires
        keys_wf(slab_tasks(*old(slab)), slab_vacant(*old(slab))),
        slab_tasks(*old(slab)).dom().len() + slab_vacant(*old(slab)).len() < slab_limit(),
    ensures
        key as nat == if slab_vacant(*old(slab)).len() > 0 {
            slab_vacant(*old(slab)).last()
        } else {
            slab_tasks(*old(slab)).dom().len()
        },
        slab_tasks(*final(slab)) == slab_tasks(*old(slab)).insert(key as nat, task),
        slab_vacant(*final(slab)) == if slab_vacant(*old(slab)).len() > 0 {
            slab_vacant(*old(slab)).drop_last()
        } else {
            slab_vacant(*old(slab))
        },
{
    slab.insert(task)
}

/// Calls `PinSlab::<Task>::remove`. It returns whether the key was in use. If it was, the task is
/// gone and the key is the one that was freed last; if not, nothing changes. The function panics
/// on a key in the upper half of the integers.
#[verifier::external_body]
pub(crate) fn slab_remove(slab: &mut PinSlab<Task>, key: usize) -> (removed: bool)
    requires
        key <= usize::MAX / 2,
    ensures
        removed == slab_tasks(*old(slab)).contains_key(key as nat),
        slab_tasks(*final(slab)) == slab_tasks(*old(slab)).remove(key as nat),
        slab_vacant(*final(slab)) == if removed {
            slab_vacant(*old(slab)).push(key as nat)
        } else {
            slab_vacant(*old(slab))
        },
{
    slab.remove(key)
}

/// Calls `PinSlab::<Task>::get_pin_mut` and copies the task that it points to. It returns the task
/// under the key, or `None` when the key is not in use, and changes nothing. The function panics
/// on a key in the upper half of the integers.
#[verifier::external_body]
pub(crate) fn slab_get(slab: &mut PinSlab<Task>, key: usize) -> (task: Option<Task>)
    requires
        key <= usize::MAX / 2,
    ensures
        task == if slab_tasks(*old(slab)).contains_key(key as nat) {
            Some(slab_tasks(*old(slab))[key as nat])
        } else {
            None
        },
        slab_tasks(*final(slab)) == slab_tasks(*old(slab)),
        slab_vacant(*final(slab)) == slab_vacant(*old(slab)),
{
    slab.get_pin_mut(key).map(|task| *task)
}

/// A slab of tasks. It is only reached through the operations here: it is never cleared or cloned,
/// so that its keys stay in order.
pub struct TaskSlab {
    slab: PinSlab<Task>,
}

impl TaskSlab {
    /// The tasks, each under its key.
    pub closed spec fn tasks(self) -> Map<nat, Task> {
        slab_tasks(self.slab)
    }

    /// The keys that were freed and have not been handed out since, the latest last.
    pub closed spec fn vacant(self) -> Seq<nat> {
        slab_vacant(self.slab)
    }

    /// The keys that were handed out are in order.
    pub open spec fn wf(self) -> bool {
        keys_wf(self.tasks(), self.vacant())
    }

    /// The number of keys that were handed out at least once.
    pub open spec fn span(self) -> nat {
        self.tasks().dom().len() + self.vacant().len()
    }

    /// The key that the next task is given: the key that was freed last, or else the number of
    /// tasks.
    pub open spec fn next_key(self) -> nat {
        if self.vacant().len() > 0 {
            self.vacant().last()
        } else {
            self.tasks().dom().len()
        }
    }

    /// A slab without tasks.
    pub fn new() -> (slab: TaskSlab)
        ensures
            slab.wf(),
            slab.tasks() == Map::<nat, Task>::empty(),
            slab.vacant() == Seq::<nat>::empty(),
    {
        let slab: TaskSlab = TaskSlab { slab: slab_new() };
        assert(slab.tasks().dom() =~= Set::<nat>::empty());
        slab
    }

    /// Adds a task and returns its key.
    pub fn insert(&mut self, task: Task) -> (key: usize)
        requires
            old(self).wf(),
            old(self).span() < slab_limit(),
        ensures
            final(self).wf(),
            key == old(self).next_key(),
            !old(self).tasks().contains_key(key as nat),
            key <= old(self).span(),
            old(self).vacant().len() > 0 ==> key < old(self).span(),
            final(self).tasks() == old(self).tasks().insert(key as nat, task),
            final(self).vacant() == if old(self).vacant().len() > 0 {
                old(self).vacant().drop_last()
            } else {
                old(self).vacant()
            },
    {
        proof {
            lemma_insert_keeps_keys(self.tasks(), self.vacant(), task);
        }
        slab_insert(&mut self.slab, task)
    }

    /// Removes a task, and returns whether there was one.
    pub fn remove(&mut self, key: usize) -> (removed: bool)
        requires
            old(self).wf(),
            key <= usize::MAX / 2,
        ensures
            final(self).wf(),
            removed == old(self).tasks().contains_key(key as nat),
            final(self).tasks() == old(self).tasks().remove(key as nat),
            final(self).vacant() == if removed {
                old(self).vacant().push(key as nat)
            } else {
                old(self).vacant()
            },
            final(self).span() == old(self).span(),
    {
        proof {
            if self.tasks().contains_key(key as nat) {
                lemma_remove_keeps_keys(self.tasks(), self.vacant(), key as nat);
            } else {
                assert(self.tasks().remove(key as nat) =~= self.tasks());
            }
        }
        slab_remove(&mut self.slab, key)
    }

    /// The task with a key, if there is one.
    pub fn get(&mut self, key: usize) -> (task: Option<Task>)
        requires
            key <= usize::MAX / 2,
        ensures
            task == if old(self).tasks().contains_key(key as nat) {
                Some(old(self).tasks()[key as nat])
            } else {
                None
            },
            final(self).tasks() == old(self).tasks(),
            final(self).vacant() == old(self).vacant(),
    {
        slab_get(&mut self.slab, key)
    }
}

/// A key that is handed out was not in use, and the keys that were handed out are still the numbers
/// from 0 on.
proof fn lemma_insert_keeps_keys(tasks: Map<nat, Task>, vacant: Seq<nat>, task: Task)
    requires
        keys_wf(tasks, vacant),
    ensures
        ({
            let key = if vacant.len() > 0 {
                vacant.last()
            } else {
                tasks.dom().len()
            };
            let vacant1 = if vacant.len() > 0 {
                vacant.drop_last()
            } else {
                vacant
            };
            &&& !tasks.contains_key(key)
            &&& key <= tasks.dom().len() + vacant.len()
            &&& vacant.len() > 0 ==> key < tasks.dom().len() + vacant.len()
            &&& keys_wf(tasks.insert(key, task), vacant1)
        }),
{
    if vacant.len() > 0 {
        let key = vacant.last();
        let (tasks1, vacant1) = (tasks.insert(key, task), vacant.drop_last());
        assert(key == vacant[vacant.len() - 1]);
        assert forall|k: nat| k < tasks1.dom().len() + vacant1.len() implies #[trigger]
            tasks1.contains_key(k) || vacant1.contains(k) by {
            if !tasks.contains_key(k) && k != key {
                let i = choose|i: int| 0 <= i < vacant.len() && vacant[i] == k;
                assert(vacant1[i] == k);
            }
        }
        assert forall|i: int| 0 <= i < vacant1.len() implies !tasks1.contains_key(
            #[trigger] vacant1[i],
        ) by {
            assert(vacant[i] != vacant[vacant.len() - 1]);
            assert(!tasks.contains_key(vacant[i]));
        }
        assert forall|i: int| 0 <= i < vacant1.len() implies #[trigger] vacant1[i]
            < tasks1.dom().len() + vacant1.len() by {
            assert(vacant[i] < tasks.dom().len() + vacant.len());
        }
    }
}

/// After a removal the keys that were handed out are still the numbers from 0 on.
proof fn lemma_remove_keeps_keys(tasks: Map<nat, Task>, vacant: Seq<nat>, key: nat)
    requires
        keys_wf(tasks, vacant),
        tasks.contains_key(key),
    ensures
        keys_wf(tasks.remove(key), vacant.push(key)),
        tasks.remove(key).dom().len() + vacant.push(key).len() == tasks.dom().len() + vacant.len(),
{
    let (tasks1, vacant1) = (tasks.remove(key), vacant.push(key));
    assert forall|k: nat| k < tasks1.dom().len() + vacant1.len() implies #[trigger]
        tasks1.contains_key(k) || vacant1.contains(k) by {
        if k == key {
            assert(vacant1[vacant.len() as int] == k);
        } else if !tasks.contains_key(k) {
            let i = choose|i: int| 0 <= i < vacant.len() && vacant[i] == k;
            assert(vacant1[i] == k);
        }
    }
    assert forall|i: int| 0 <= i < vacant1.len() implies !tasks1.contains_key(
        #[trigger] vacant1[i],
    ) by {
        if i < vacant.len() {
            assert(!tasks.contains_key(vacant[i]));
        }
    }
    assert forall|i: int| 0 <= i < vacant1.len() implies #[trigger] vacant1[i] < tasks1.dom().len()
        + vacant1.len() by {
        if i < vacant.len() {
            assert(vacant[i] < tasks.dom().len() + vacant.len());
        }
    }
    assert(vacant1.no_duplicates()) by {
        assert forall|i: int, j: int|
            0 <= i < vacant1.len() && 0 <= j < vacant1.len() && i != j implies vacant1[i]
            != vacant1[j] by {
            if i < vacant.len() {
                assert(!tasks.contains_key(vacant[i]));
            }
            if j < vacant.len() {
                assert(!tasks.contains_key(vacant[j]));
            }
        }
    }
}

} // verus!

//! Task collections.

use executor::slab::TaskSlab;
use executor::task::{Task, TaskState};
use executor::task_collection::{Inner, TaskCollection, DEFAULT_PRIORITY, MAX_PRIORITY};
use executor::waker_page::WakerPage;

fn task(future: u64) -> Task {
    Task { future, state: TaskState::RUNNABLE, _priority: 0 }
}

fn inner() -> Inner {
    Inner::new()
}

/// Takes tasks until none is ready.
fn drain(tasks: &mut TaskCollection) -> Vec<(u64, u64)> {
    let mut taken = Vec::new();
    while let Some((key, task)) = tasks.take_task() {
        taken.push((key, task.future));
    }
    taken
}

#[test]
fn pages_are_added_as_they_fill() {
    let mut inner = inner();
    for i in 0..64 {
        assert_eq!(inner.insert(task(i)), i);
        assert_eq!(inner.pages.len(), 1);
    }
    assert_eq!(inner.insert(task(64)), 64);
    assert_eq!(inner.pages.len(), 2);
    assert_eq!(inner.pages[0], WakerPage { notified: u64::MAX, dropped: 0 });
    assert_eq!(inner.pages[1], WakerPage { notified: 1, dropped: 0 });
}

#[test]
fn page_and_offset_of_a_key() {
    let mut inner = inner();
    for i in 0..70 {
        inner.insert(task(i));
    }
    inner.pages[1].notified = 0b1;
    let (page, offset) = inner.page(69);
    assert_eq!(page.notified, 0b1);
    assert_eq!(offset, 5);
    let (page, offset) = inner.page(63);
    assert_eq!(page.notified, u64::MAX);
    assert_eq!(offset, 63);
}

#[test]
fn key_that_was_freed_last_is_used_first() {
    let mut inner = inner();
    for i in 0..4 {
        inner.insert(task(i));
    }
    inner.remove(1);
    inner.remove(2);
    assert_eq!(inner.pages[0], WakerPage { notified: 0b1001, dropped: 0 });
    assert_eq!(inner.insert(task(10)), 2);
    assert_eq!(inner.insert(task(11)), 1);
    assert_eq!(inner.insert(task(12)), 4);
}

#[test]
fn removing_a_task_that_is_gone_frees_no_key() {
    let mut inner = inner();
    inner.insert(task(0));
    inner.insert(task(1));
    inner.remove(0);
    inner.remove(0);
    assert_eq!(inner.insert(task(2)), 0);
    assert_eq!(inner.insert(task(3)), 2);
}

#[test]
fn page_is_taken_with_its_ready_tasks() {
    let mut inner = inner();
    for i in 0..5 {
        inner.insert(task(i));
    }
    inner.pages[0].mark_dropped(2);
    assert_eq!(inner.take_page(0), 0b11011);
    assert_eq!(inner.pages[0], WakerPage::new());
    inner.wake(0, 3);
    assert_eq!(inner.pages[0], WakerPage { notified: 0b1000, dropped: 0 });
    assert_eq!(inner.insert(task(5)), 5);
}

#[test]
fn slab_hands_out_the_smallest_numbers() {
    let mut slab = TaskSlab::new();
    assert!(!slab.remove(0));
    for i in 0..40 {
        assert_eq!(slab.insert(task(i)), i as usize);
    }
    assert!(slab.remove(7));
    assert!(!slab.remove(7));
    assert_eq!(slab.get(7), None);
    assert_eq!(slab.get(8), Some(task(8)));
    assert_eq!(slab.get(40), None);
    assert_eq!(slab.insert(task(100)), 7);
    assert_eq!(slab.get(7), Some(task(100)));
    assert_eq!(slab.insert(task(101)), 40);
}

#[test]
fn new_collection_is_empty() {
    let mut tasks = TaskCollection::new();
    assert_eq!(tasks.task_num(), 0);
    assert_eq!(tasks.inners.len(), MAX_PRIORITY);
    assert_eq!(tasks.take_task(), None);
    assert_eq!(tasks.take_task(), None);
}

#[test]
fn key_holds_the_priority() {
    let mut tasks = TaskCollection::new();
    assert_eq!(tasks.insert(task(0)), (DEFAULT_PRIORITY as u64) << 59);
    assert_eq!(tasks.insert(task(1)), (4 << 59) + 1);
    assert_eq!(tasks.priority_insert(0, task(2)), 0);
    assert_eq!(tasks.priority_insert(31, task(3)), 31 << 59);
    assert_eq!(tasks.priority_insert(7, task(4)), 7 << 59);
    assert_eq!(tasks.task_num(), 5);
}

#[test]
fn key_is_parsed() {
    let mut tasks = TaskCollection::new();
    let mut key = 0;
    for i in 0..100 {
        key = tasks.priority_insert(5, task(i));
    }
    assert_eq!(key, (5 << 59) + 99);
    let (priority, page, offset) = tasks.parse_key(key);
    assert_eq!(priority, 5);
    assert_eq!(page.notified, (1 << 36) - 1);
    assert_eq!(offset, 35);
}

#[test]
fn smallest_priority_is_taken_first() {
    let mut tasks = TaskCollection::new();
    let b = tasks.priority_insert(9, task(1));
    let c = tasks.priority_insert(9, task(2));
    let a = tasks.priority_insert(1, task(3));
    assert_eq!(drain(&mut tasks), vec![(a, 3), (b, 1), (c, 2)]);
    assert_eq!(tasks.task_num(), 3);
}

#[test]
fn each_wake_is_handed_out_once() {
    let mut tasks = TaskCollection::new();
    let mut keys = Vec::new();
    for i in 0..130 {
        keys.push((tasks.insert(task(i)), i));
    }
    assert_eq!(drain(&mut tasks), keys);
    assert_eq!(drain(&mut tasks), vec![]);
    tasks.wake(keys[129].0);
    tasks.wake(keys[3].0);
    tasks.wake(keys[129].0);
    assert_eq!(drain(&mut tasks), vec![keys[3], keys[129]]);
}

#[test]
fn task_that_is_woken_after_its_page_was_taken_waits_for_the_next_pass() {
    let mut tasks = TaskCollection::new();
    let a = tasks.priority_insert(1, task(1));
    let b = tasks.priority_insert(1, task(2));
    let c = tasks.priority_insert(2, task(3));
    assert_eq!(tasks.take_task(), Some((a, task(1))));
    tasks.wake(a);
    tasks.wake(b);
    assert_eq!(drain(&mut tasks), vec![(b, 2), (c, 3), (a, 1), (b, 2)]);
}

#[test]
fn page_that_is_added_during_a_pass_waits_for_the_next_pass() {
    let mut tasks = TaskCollection::new();
    let first = tasks.priority_insert(1, task(0));
    let other = tasks.priority_insert(2, task(1000));
    assert_eq!(tasks.take_task(), Some((first, task(0))));
    for i in 1..64 {
        tasks.priority_insert(1, task(i));
    }
    let on_new_page = tasks.priority_insert(1, task(64));
    assert_eq!(on_new_page, (1 << 59) + 64);
    let taken = drain(&mut tasks);
    assert_eq!(taken[0], (other, 1000));
    assert_eq!(taken[1], ((1 << 59) + 1, 1));
    assert_eq!(taken.len(), 65);
    assert_eq!(taken[64], (on_new_page, 64));
}

#[test]
fn tasks_of_every_priority_are_handed_out() {
    let mut tasks = TaskCollection::new();
    let lone = tasks.priority_insert(20, task(20));
    assert_eq!(tasks.take_task(), Some((lone, task(20))));
    assert_eq!(tasks.take_task(), None);
    let mut expected = Vec::new();
    for priority in (0..MAX_PRIORITY).rev() {
        let key = tasks.priority_insert(priority, task(priority as u64));
        expected.insert(0, (key, priority as u64));
    }
    assert_eq!(drain(&mut tasks), expected);
}

#[test]
fn removed_task_is_not_handed_out() {
    let mut tasks = TaskCollection::new();
    let a = tasks.insert(task(1));
    let b = tasks.insert(task(2));
    tasks.remove_task(a);
    assert_eq!(tasks.task_num(), 1);
    tasks.wake(a);
    assert_eq!(drain(&mut tasks), vec![(b, 2)]);
}

#[test]
fn tasks_of_odd_priorities_can_be_removed() {
    let mut tasks = TaskCollection::new();
    for priority in 0..MAX_PRIORITY {
        let key = tasks.priority_insert(priority, task(priority as u64));
        tasks.remove_task(key);
    }
    assert_eq!(tasks.task_num(), 0);
    assert_eq!(drain(&mut tasks), vec![]);
}

#[test]
fn removing_undoes_inserting() {
    let mut tasks = TaskCollection::new();
    let a = tasks.insert(task(1));
    let b = tasks.insert(task(2));
    tasks.remove_task(b);
    assert_eq!(tasks.task_num(), 1);
    assert_eq!(tasks.insert(task(3)), b);
    assert_eq!(drain(&mut tasks), vec![(a, 1), (b, 3)]);
}

#[test]
fn removing_a_task_that_is_gone_is_counted() {
    let mut tasks = TaskCollection::new();
    let a = tasks.insert(task(1));
    tasks.remove_task(a);
    tasks.remove_task(a);
    assert_eq!(tasks.task_num(), usize::MAX);
    assert_eq!(tasks.insert(task(2)), a);
    assert_eq!(tasks.task_num(), 0);
}

#[test]
fn task_that_is_removed_after_it_was_taken_is_reported_as_gone() {
    let mut tasks = TaskCollection::new();
    let a = tasks.insert(task(1));
    let b = tasks.insert(task(2));
    assert_eq!(tasks.generator(), Some((a, Some(task(1)))));
    tasks.remove_task(b);
    assert_eq!(tasks.generator(), Some((b, None)));
    assert_eq!(tasks.generator(), None);
}

#[test]
fn dropped_mark_leaves_the_task_in_its_slab() {
    let mut tasks = TaskCollection::new();
    let a = tasks.insert(task(1));
    let b = tasks.insert(task(2));
    tasks.mark_dropped(4, 0, 0);
    assert_eq!(tasks.generator(), Some((b, Some(task(2)))));
    assert_eq!(tasks.generator(), None);
    tasks.wake(a);
    assert_eq!(tasks.generator(), Some((a, Some(task(1)))));
}

#[test]
fn added_tasks_are_taken_in_the_order_of_their_keys() {
    let mut tasks = TaskCollection::new();
    let mut keys = Vec::new();
    for i in 0..300 {
        let priority = (i * 7) % MAX_PRIORITY;
        keys.push((tasks.priority_insert(priority, task(i as u64)), i as u64));
    }
    keys.sort();
    for pair in keys.windows(2) {
        assert!(pair[0].0 < pair[1].0);
    }
    for (key, future) in keys {
        assert_eq!(tasks.take_task(), Some((key, task(future))));
    }
    assert_eq!(tasks.take_task(), None);
    assert_eq!(tasks.task_num(), 300);
}

#[test]
fn keys_are_ordered_by_priority() {
    let mut tasks = TaskCollection::new();
    let high = tasks.priority_insert(31, task(1));
    let low = tasks.priority_insert(0, task(2));
    let middle = tasks.priority_insert(16, task(3));
    assert!(low < middle && middle < high);
    assert_eq!(tasks.parse_key(high).0, 31);
    assert_eq!(tasks.parse_key(middle).0, 16);
}

#[test]
fn insert_uses_the_default_priority() {
    let mut a = TaskCollection::new();
    let mut b = TaskCollection::new();
    for i in 0..70 {
        assert_eq!(a.insert(task(i)), b.priority_insert(4, task(i)));
    }
    assert_eq!(drain(&mut a), drain(&mut b));
}

#[test]
fn task_that_is_added_or_woken_after_a_rest_is_taken_next() {
    let mut tasks = TaskCollection::new();
    let a = tasks.priority_insert(3, task(1));
    assert_eq!(drain(&mut tasks), vec![(a, 1)]);
    let b = tasks.priority_insert(30, task(2));
    assert_eq!(drain(&mut tasks), vec![(b, 2)]);
    tasks.wake(a);
    assert_eq!(drain(&mut tasks), vec![(a, 1)]);
    assert_eq!(drain(&mut tasks), vec![]);
    assert_eq!(tasks.task_num(), 2);
}

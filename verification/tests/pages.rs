//! Waker pages, keys and tasks.

use executor::key::split_key;
use executor::task::{Task, TaskState};
use executor::waker_page::WakerPage;

#[test]
fn new_page_is_blank() {
    let mut page = WakerPage::new();
    assert_eq!(page, WakerPage { notified: 0, dropped: 0 });
    assert_eq!(page.take_notified(), 0);
    assert_eq!(page.take_dropped(), 0);
}

#[test]
fn initialized_task_is_notified_and_not_dropped() {
    let mut page = WakerPage { notified: 0b1, dropped: 0b1010 };
    page.initialize(3);
    assert_eq!(page, WakerPage { notified: 0b1001, dropped: 0b10 });
    page.initialize(63);
    assert_eq!(page, WakerPage { notified: 0x8000_0000_0000_0009, dropped: 0b10 });
}

#[test]
fn dropped_tasks_are_not_taken_as_notified() {
    let mut page = WakerPage { notified: 0b1110, dropped: 0 };
    page.mark_dropped(2);
    assert_eq!(page, WakerPage { notified: 0b1110, dropped: 0b100 });
    assert_eq!(page.take_notified(), 0b1010);
    assert_eq!(page, WakerPage { notified: 0, dropped: 0b100 });
    assert_eq!(page.take_dropped(), 0b100);
    assert_eq!(page, WakerPage { notified: 0, dropped: 0 });
}

#[test]
fn waking_twice_is_waking_once() {
    let mut page = WakerPage { notified: 0, dropped: 0b100000 };
    page.wake(5);
    page.wake(5);
    page.wake(6);
    assert_eq!(page, WakerPage { notified: 0b1100000, dropped: 0b100000 });
}

#[test]
fn cleared_task_has_no_state() {
    let mut page = WakerPage { notified: 0b111, dropped: 0b110 };
    page.clear(1);
    assert_eq!(page, WakerPage { notified: 0b101, dropped: 0b100 });
}

#[test]
fn key_is_split_into_priority_page_and_offset() {
    assert_eq!(split_key(0), (0, 0, 0));
    assert_eq!(split_key(63), (0, 0, 63));
    assert_eq!(split_key(64), (0, 1, 0));
    assert_eq!(split_key((1 << 59) - 1), (0, (1 << 53) - 1, 63));
    assert_eq!(split_key(1 << 59), (1, 0, 0));
    assert_eq!(split_key((5 << 59) | (3 << 6) | 7), (5, 3, 7));
    assert_eq!(split_key(u64::MAX), (31, (1 << 53) - 1, 63));
}

#[test]
fn blocked_task_is_not_runnable() {
    let mut task = Task { future: 7, state: TaskState::RUNNABLE, _priority: 4 };
    assert!(task._is_runnable());
    task._block();
    assert!(!task._is_runnable());
    assert_eq!(task, Task { future: 7, state: TaskState::_BLOCKED, _priority: 4 });
    assert!(!Task { state: TaskState::_RUNNING, ..task }._is_runnable());
}

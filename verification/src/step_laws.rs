//! What each operation does to each task, told by the bits of the pages, the tasks that a scan holds
//! and the tasks that the slabs store.

use crate::bits::{has_bit, is_least};
use crate::key::key_position;
use crate::observe::{bit_is_set, is_paged, law_key_is_priority_and_slot, law_task_is_observed,
    page_for, seen_dropped, seen_held, seen_ready, seen_woken, times_due};
use crate::scan::{before, lemma_resume_in_range, ScanView};
use crate::scan_laws::{is_pending, is_waiting, law_handed_out_once,
    law_rests_when_nothing_is_outstanding, law_smallest_key_first};
use crate::task_collection::position_of_key;
use crate::waker_page::{lemma_blank_page, lemma_page_updates, WakerPage};
use vstd::prelude::*;

verus! {

/// What the operations on a page do to each bit `i` of it. Preparing the state of task `ix` sets its
/// bit among the woken and clears it among the dropped. Waking and dropping set one bit each.
/// Forgetting clears both. No operation touches the bits of another task.
pub proof fn law_page_operations_by_bits(page: WakerPage, ix: int, i: int)
    requires
        0 <= ix < 64,
        0 <= i < 64,
    ensures
        bit_is_set(page.initialized(ix).notified, i) == (i == ix || bit_is_set(page.notified, i)),
        bit_is_set(page.initialized(ix).dropped, i) == (i != ix && bit_is_set(page.dropped, i)),
        bit_is_set(page.woken(ix).notified, i) == (i == ix || bit_is_set(page.notified, i)),
        bit_is_set(page.woken(ix).dropped, i) == bit_is_set(page.dropped, i),
        bit_is_set(page.marked_dropped(ix).notified, i) == bit_is_set(page.notified, i),
        bit_is_set(page.marked_dropped(ix).dropped, i) == (i == ix || bit_is_set(page.dropped, i)),
        bit_is_set(page.cleared(ix).notified, i) == (i != ix && bit_is_set(page.notified, i)),
        bit_is_set(page.cleared(ix).dropped, i) == (i != ix && bit_is_set(page.dropped, i)),
        page.is_ready(i) == (bit_is_set(page.notified, i) && !bit_is_set(page.dropped, i)),
        page.ready().contains(i) == (bit_is_set(page.notified, i) && !bit_is_set(page.dropped, i)),
        !bit_is_set(WakerPage::blank().notified, i),
        !bit_is_set(WakerPage::blank().dropped, i),
{
    lemma_page_updates(page, ix);
    lemma_blank_page();
    let (a, b) = (page.initialized(ix), page.woken(ix));
    let (c, d) = (page.marked_dropped(ix), page.cleared(ix));
    assert(a.is_notified(i) == bit_is_set(a.notified, i));
    assert(a.is_dropped(i) == bit_is_set(a.dropped, i));
    assert(b.is_notified(i) == bit_is_set(b.notified, i));
    assert(b.is_dropped(i) == bit_is_set(b.dropped, i));
    assert(c.is_notified(i) == bit_is_set(c.notified, i));
    assert(c.is_dropped(i) == bit_is_set(c.dropped, i));
    assert(d.is_notified(i) == bit_is_set(d.notified, i));
    assert(d.is_dropped(i) == bit_is_set(d.dropped, i));
    assert(page.is_notified(i) == bit_is_set(page.notified, i));
    assert(page.is_dropped(i) == bit_is_set(page.dropped, i));
    assert(WakerPage::blank().is_notified(i) == bit_is_set(WakerPage::blank().notified, i));
    assert(WakerPage::blank().is_dropped(i) == bit_is_set(WakerPage::blank().dropped, i));
    assert(has_bit(page.notified, i) == bit_is_set(page.notified, i));
}

/// Handing out a task changes a page in one way only: the page is left blank. No page is added or
/// lost.
pub proof fn law_step_blanks_pages_or_keeps_them(
    state: ScanView,
    pages: Seq<Seq<WakerPage>>,
    state1: ScanView,
    pages1: Seq<Seq<WakerPage>>,
    taken: Option<u64>,
    p: int,
    j: int,
)
    requires
        state.wf(pages),
        state.resumes(pages, state1, pages1, position_of_key(taken)),
        0 <= p < pages.len(),
        0 <= j < pages[p].len(),
    ensures
        pages1.len() == pages.len(),
        pages1[p].len() == pages[p].len(),
        pages1[p][j] == pages[p][j] || (pages1[p][j].notified == 0 && pages1[p][j].dropped == 0),
{
    assert(state.swept_to_end(pages)[p].len() == pages[p].len());
}

/// Handing out a task marks no task as dropped and wakes no task: what is marked or woken after a
/// step of the scan was so before it.
pub proof fn law_step_drops_and_wakes_no_task(
    state: ScanView,
    pages: Seq<Seq<WakerPage>>,
    state1: ScanView,
    pages1: Seq<Seq<WakerPage>>,
    taken: Option<u64>,
    key: u64,
)
    requires
        state.wf(pages),
        state.resumes(pages, state1, pages1, position_of_key(taken)),
    ensures
        is_paged(pages1, key) == is_paged(pages, key),
        !seen_dropped(pages, key) ==> !seen_dropped(pages1, key),
        !seen_woken(pages, key) ==> !seen_woken(pages1, key),
{
    law_key_is_priority_and_slot(key);
    let (p, j, b) = key_position(key);
    assert(pages1.len() == pages.len() && pages1[p].len() == pages[p].len());
    if is_paged(pages, key) {
        law_step_blanks_pages_or_keeps_them(state, pages, state1, pages1, taken, p, j);
        law_page_operations_by_bits(pages[p][j], 0, b);
    }
}

/// A step of the scan hands out one task that was due, once, and changes nothing about how often any
/// other task is due. It finds no task only when none is due, and none is then.
pub proof fn law_step_hands_out_what_is_due(
    state: ScanView,
    pages: Seq<Seq<WakerPage>>,
    state1: ScanView,
    pages1: Seq<Seq<WakerPage>>,
    taken: Option<u64>,
    key: u64,
)
    requires
        state.wf(pages),
        state.resumes(pages, state1, pages1, position_of_key(taken)),
    ensures
        taken matches Some(k) ==> times_due(state, pages, k) >= 1,
        taken == Some(key) ==> times_due(state1, pages1, key) == times_due(state, pages, key) - 1,
        taken is Some && taken != Some(key) ==> times_due(state1, pages1, key) == times_due(
            state,
            pages,
            key,
        ),
        taken is None ==> times_due(state, pages, key) == 0 && times_due(state1, pages1, key) == 0,
        taken is None ==> !seen_woken(pages1, key) && !seen_dropped(pages1, key),
        taken is None ==> state1.priority == 32 && state1.pending == Set::<int>::empty(),
{
    law_task_is_observed(state, pages, key);
    law_task_is_observed(state1, pages1, key);
    match taken {
        Some(k) => {
            law_task_is_observed(state, pages, k);
            law_handed_out_once(state, pages, state1, pages1, k, key);
        },
        None => {
            law_rests_when_nothing_is_outstanding(state, pages, state1, pages1, key);
            law_key_is_priority_and_slot(key);
            let (p, j, b) = key_position(key);
            let begun = ScanView::started(pages);
            let swept = state.swept_to_end(pages);
            assert(pages1[p].len() == pages[p].len());
            if is_paged(pages1, key) {
                assert(begun.upcoming(swept, p, j));
                assert(pages1[p][j] == WakerPage::blank());
                law_page_operations_by_bits(pages[p][j], 0, b);
            }
        },
    }
}

/// The pass of a scan has still to come to the page of the key `key`.
pub open spec fn is_ahead(state: ScanView, pages: Seq<Seq<WakerPage>>, key: u64) -> bool {
    let (p, j) = (key as int / 0x0800_0000_0000_0000, (key as int % 0x0800_0000_0000_0000) / 64);
    ||| state.priority < p && is_paged(pages, key)
    ||| state.priority == p && state.page_idx <= j < state.pages_len
}

/// The pass of a scan can still come to the task with the key `key`: the scan holds it, or it waits
/// on a page that is ahead.
pub open spec fn is_in_pass(state: ScanView, pages: Seq<Seq<WakerPage>>, key: u64) -> bool {
    seen_held(state, key) || (seen_ready(pages, key) && is_ahead(state, pages, key))
}

/// The keys that one pass hands out ascend. The scan hands out the smallest key that the pass can
/// still come to. When there is none, a new pass begins, and hands out the smallest key that waits.
pub proof fn law_step_hands_out_the_smallest_key(
    state: ScanView,
    pages: Seq<Seq<WakerPage>>,
    state1: ScanView,
    pages1: Seq<Seq<WakerPage>>,
    taken: u64,
    key: u64,
)
    requires
        state.wf(pages),
        state.resumes(pages, state1, pages1, Some(key_position(taken))),
    ensures
        is_in_pass(state, pages, taken) || seen_ready(pages, taken),
        is_in_pass(state, pages, key) ==> is_in_pass(state, pages, taken) && taken <= key,
        !is_in_pass(state, pages, taken) && seen_ready(pages, key) ==> taken <= key,
{
    law_key_is_priority_and_slot(taken);
    law_key_is_priority_and_slot(key);
    law_task_is_observed(state, pages, key);
    law_task_is_observed(state, pages, taken);
    let (p, j, b) = key_position(taken);
    let (kp, kj, kb) = key_position(key);
    law_handed_out_once(state, pages, state1, pages1, taken, taken);
    if is_in_pass(state, pages, key) {
        if is_pending(state, key) {
            assert(state.pending.contains(kb));
        } else {
            assert(state.upcoming(pages, kp, kj) && pages[kp][kj].is_ready(kb));
            assert(pages[kp][kj].has_ready());
        }
        assert(state.has_work(pages));
    }
    if state.has_work(pages) {
        if exists|x: int| state.pending.contains(x) {
            assert(is_least(state.pending, b));
            assert(is_pending(state, taken));
        } else {
            assert(state.next_page(pages, p, j));
            assert(pages[p][j].ready().contains(b));
            assert(is_waiting(pages, taken));
            if is_in_pass(state, pages, key) {
                assert(!before(kp, kj, p, j));
                if kp == p && kj == j {
                    assert(pages[p][j].ready().contains(kb));
                }
            }
        }
    } else {
        assert(!is_pending(state, taken));
        if is_waiting(pages, key) {
            law_smallest_key_first(state, pages, state1, pages1, taken, key);
        }
    }
}

/// After a step the scan is at the task that it handed out. It holds exactly the tasks of the same
/// page that were due with it: those that it held before, or those that waited on the page when it
/// took the page.
pub proof fn law_step_holds_the_rest_of_the_page(
    state: ScanView,
    pages: Seq<Seq<WakerPage>>,
    state1: ScanView,
    pages1: Seq<Seq<WakerPage>>,
    taken: u64,
    key: u64,
)
    requires
        state.wf(pages),
        state.resumes(pages, state1, pages1, Some(key_position(taken))),
    ensures
        state1.priority == taken as int / 0x0800_0000_0000_0000,
        state1.page_idx - 1 == (taken as int % 0x0800_0000_0000_0000) / 64,
        state1.subpage_idx == taken as int % 64,
        state1.pages_len == if is_in_pass(state, pages, taken) && state.priority
            == state1.priority {
            state.pages_len
        } else {
            pages[state1.priority].len() as int
        },
        seen_held(state1, key) ==> key as int / 64 == taken as int / 64 && key != taken,
        key as int / 64 == taken as int / 64 && key != taken ==> seen_held(state1, key) == (
        if seen_held(state, taken) {
            seen_held(state, key)
        } else {
            seen_ready(pages, key)
        }),
        seen_held(state, taken) ==> pages1 == pages,
        !seen_held(state, taken) ==> page_for(pages1, taken) == (WakerPage {
            notified: 0,
            dropped: 0,
        }),
{
    law_key_is_priority_and_slot(taken);
    law_key_is_priority_and_slot(key);
    law_task_is_observed(state, pages, key);
    law_task_is_observed(state, pages, taken);
    law_task_is_observed(state1, pages1, key);
    lemma_resume_in_range(state, pages, state1, pages1, Some(key_position(taken)));
    let (p, j, b) = key_position(taken);
    let (kp, kj, kb) = key_position(key);
    law_page_operations_by_bits(pages[p][j], 0, kb);
    law_handed_out_once(state, pages, state1, pages1, taken, taken);
    if is_in_pass(state, pages, taken) {
        if is_pending(state, taken) {
            assert(state.pending.contains(b));
        } else {
            assert(state.upcoming(pages, p, j) && pages[p][j].is_ready(b));
            assert(pages[p][j].has_ready());
        }
        assert(state.has_work(pages));
    }
    if state.has_work(pages) {
        if exists|x: int| state.pending.contains(x) {
            assert(is_least(state.pending, b));
        } else {
            assert(state.next_page(pages, p, j));
            assert(pages[p][j].ready().contains(b));
            assert(pages1[p][j] == WakerPage::blank());
        }
    } else {
        let swept = state.swept_to_end(pages);
        let begun = ScanView::started(pages);
        assert(begun.next_page(swept, p, j));
        assert(swept[p][j].ready().contains(b));
        assert(swept[p][j] == pages[p][j]) by {
            lemma_blank_page();
        }
        assert(pages1[p][j] == WakerPage::blank());
    }
}

/// A page that is neither ahead of the pass nor passed by a new pass keeps its bits: while the pass
/// goes on, the pages that it has left behind do not change, and neither do those that it has not
/// come to.
pub proof fn law_step_keeps_other_pages(
    state: ScanView,
    pages: Seq<Seq<WakerPage>>,
    state1: ScanView,
    pages1: Seq<Seq<WakerPage>>,
    taken: u64,
    key: u64,
)
    requires
        state.wf(pages),
        state.resumes(pages, state1, pages1, Some(key_position(taken))),
        key as int / 64 != taken as int / 64,
    ensures
        taken < key && !is_ahead(state, pages, key) ==> {
            &&& seen_woken(pages1, key) == seen_woken(pages, key)
            &&& seen_dropped(pages1, key) == seen_dropped(pages, key)
        },
        is_in_pass(state, pages, taken) && (taken < key || !is_ahead(state, pages, key)) ==> {
            &&& seen_woken(pages1, key) == seen_woken(pages, key)
            &&& seen_dropped(pages1, key) == seen_dropped(pages, key)
        },
{
    law_key_is_priority_and_slot(taken);
    law_key_is_priority_and_slot(key);
    law_task_is_observed(state, pages, taken);
    let (p, j, b) = key_position(taken);
    let (kp, kj, kb) = key_position(key);
    let swept = state.swept_to_end(pages);
    assert(swept[kp].len() == pages[kp].len());
    assert(pages1[kp].len() == pages[kp].len());
    if is_paged(pages, key) {
        assert(is_ahead(state, pages, key) == state.upcoming(pages, kp, kj));
        assert(before(kp, kj, p, j + 1) == (key < taken));
        if is_in_pass(state, pages, taken) {
            if is_pending(state, taken) {
                assert(state.pending.contains(b));
            } else {
                assert(state.upcoming(pages, p, j) && pages[p][j].is_ready(b));
                assert(pages[p][j].has_ready());
            }
            assert(state.has_work(pages));
        }
    }
}

/// The pages that a scan passes are left blank. Within a pass these are the pages ahead, up to that of
/// the key that is handed out. When a new pass begins, they are all pages that were ahead of the old
/// one, and all pages up to that of the key.
pub proof fn law_step_blanks_the_pages_it_passes(
    state: ScanView,
    pages: Seq<Seq<WakerPage>>,
    state1: ScanView,
    pages1: Seq<Seq<WakerPage>>,
    taken: Option<u64>,
    key: u64,
)
    requires
        state.wf(pages),
        state.resumes(pages, state1, pages1, position_of_key(taken)),
        is_paged(pages, key),
        match taken {
            Some(k) => if is_in_pass(state, pages, k) {
                is_ahead(state, pages, key) && key as int / 64 <= k as int / 64
            } else {
                is_ahead(state, pages, key) || key as int / 64 <= k as int / 64
            },
            None => true,
        },
    ensures
        page_for(pages1, key).notified == 0,
        page_for(pages1, key).dropped == 0,
{
    law_key_is_priority_and_slot(key);
    let (kp, kj, kb) = key_position(key);
    let swept = state.swept_to_end(pages);
    let begun = ScanView::started(pages);
    assert(swept[kp].len() == pages[kp].len());
    assert(is_ahead(state, pages, key) == state.upcoming(pages, kp, kj));
    assert(begun.upcoming(swept, kp, kj));
    match taken {
        Some(k) => {
            law_key_is_priority_and_slot(k);
            law_task_is_observed(state, pages, k);
            law_handed_out_once(state, pages, state1, pages1, k, k);
            let (p, j, b) = key_position(k);
            if is_in_pass(state, pages, k) {
                if is_pending(state, k) {
                    assert(state.pending.contains(b));
                    assert(!is_ahead(state, pages, key));
                } else {
                    assert(state.upcoming(pages, p, j) && pages[p][j].is_ready(b));
                    assert(pages[p][j].has_ready());
                    assert(state.has_work(pages));
                    assert(!state.pending.contains(kb));
                    if exists|x: int| state.pending.contains(x) {
                        assert(state.hands_out(pages, p, j, b));
                    }
                    assert(pages1[kp][kj] == WakerPage::blank());
                }
            } else {
                if state.has_work(pages) {
                    if exists|x: int| state.pending.contains(x) {
                        assert(is_least(state.pending, b));
                    } else {
                        assert(pages[p][j].ready().contains(b));
                    }
                }
                assert(pages1[kp][kj] == WakerPage::blank());
            }
        },
        None => {
            assert(pages1[kp][kj] == WakerPage::blank());
        },
    }
}

/// A scan that has not begun is at no page and holds no task.
pub proof fn law_new_scan_holds_no_task(pages: Seq<Seq<WakerPage>>, key: u64)
    ensures
        !seen_held(ScanView::ended(), key),
        !is_ahead(ScanView::ended(), pages, key),
        ScanView::ended().priority == 32,
        ScanView::ended().pending == Set::<int>::empty(),
{
    law_key_is_priority_and_slot(key);
}

} // verus!

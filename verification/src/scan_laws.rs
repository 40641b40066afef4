//! What a scan promises over several steps.

use crate::bits::is_least;
use crate::key::{key_of, key_offset, key_page, key_position, key_priority, lemma_key_parts,
    TASK_NUM_PER_PRIORITY};
use crate::scan::{before, lemma_resume_in_range, lemma_resume_keeps_wf, ScanView};
use crate::task_collection::position_of_key;
use crate::waker_page::{lemma_blank_page, WakerPage};
use vstd::prelude::*;

verus! {

/// The task with the key `key` was taken by the scan and has still to be handed out.
pub open spec fn is_pending(state: ScanView, key: u64) -> bool {
    &&& key_priority(key) == state.priority
    &&& key_page(key) == state.page_idx - 1
    &&& state.pending.contains(key_offset(key))
}

/// The task with the key `key` waits for the scan to take it.
pub open spec fn is_waiting(pages: Seq<Seq<WakerPage>>, key: u64) -> bool {
    &&& key_page(key) < pages[key_priority(key)].len()
    &&& pages[key_priority(key)][key_page(key)].is_ready(key_offset(key))
}

/// How often the task with the key `key` is handed out before the scan rests, if it is not woken
/// again.
pub open spec fn outstanding(state: ScanView, pages: Seq<Seq<WakerPage>>, key: u64) -> int {
    (if is_pending(state, key) {
        1int
    } else {
        0
    }) + (if is_waiting(pages, key) {
        1int
    } else {
        0
    })
}

/// The pages have room for no more tasks than there are keys.
pub open spec fn pages_fit(pages: Seq<Seq<WakerPage>>) -> bool {
    forall|p: int|
        0 <= p < pages.len() ==> 64 * (#[trigger] pages[p].len()) <= TASK_NUM_PER_PRIORITY
}

/// Two keys with the same position are the same.
proof fn lemma_same_position(key1: u64, key2: u64)
    requires
        key_position(key1) == key_position(key2),
    ensures
        key1 == key2,
{
}

/// Taking pages without a ready task changes nothing about which tasks wait.
proof fn lemma_sweeping_idle_pages(state: ScanView, pages: Seq<Seq<WakerPage>>, key: u64)
    requires
        state.wf(pages),
        !state.has_work(pages),
    ensures
        is_waiting(state.swept_to_end(pages), key) == is_waiting(pages, key),
{
    lemma_blank_page();
    let (p, j, b) = key_position(key);
    if j < pages[p].len() && state.upcoming(pages, p, j) {
        assert(!pages[p][j].has_ready());
    }
}

/// What one pass hands out is outstanding no more, and nothing else changes.
proof fn lemma_advance_hands_out_one(
    state: ScanView,
    pages: Seq<Seq<WakerPage>>,
    state1: ScanView,
    pages1: Seq<Seq<WakerPage>>,
    taken: u64,
    key: u64,
)
    requires
        state.wf(pages),
        state.advances(pages, state1, pages1, Some(key_position(taken))),
    ensures
        outstanding(state1, pages1, key) == outstanding(state, pages, key) - (if key == taken {
            1int
        } else {
            0
        }),
{
    lemma_blank_page();
    let (p, j, b) = key_position(taken);
    let (kp, kj, kb) = key_position(key);
    if key_position(key) == key_position(taken) {
        lemma_same_position(key, taken);
    }
    if exists|x: int| state.pending.contains(x) {
        assert(state.pending.contains(b));
    } else {
        assert(state.next_page(pages, p, j));
        assert(is_least(pages[p][j].ready(), b));
        assert(pages[p][j].ready().contains(b));
        if kj < pages[kp].len() {
            if state.upcoming(pages, kp, kj) && before(kp, kj, p, j) {
                assert(!pages[kp][kj].has_ready());
            }
            assert(pages[kp][kj].ready().contains(kb) == pages[kp][kj].is_ready(kb));
        }
    }
}

/// Each time that a task is woken it is handed out once: what the scan hands out is outstanding
/// once less, and nothing else changes.
pub proof fn law_handed_out_once(
    state: ScanView,
    pages: Seq<Seq<WakerPage>>,
    state1: ScanView,
    pages1: Seq<Seq<WakerPage>>,
    taken: u64,
    key: u64,
)
    requires
        state.wf(pages),
        state.resumes(pages, state1, pages1, Some(key_position(taken))),
    ensures
        outstanding(state1, pages1, key) == outstanding(state, pages, key) - (if key == taken {
            1int
        } else {
            0
        }),
        outstanding(state, pages, taken) >= 1,
{
    if state.has_work(pages) {
        lemma_advance_hands_out_one(state, pages, state1, pages1, taken, key);
        lemma_advance_hands_out_one(state, pages, state1, pages1, taken, taken);
    } else {
        let begun = ScanView::started(pages);
        let swept = state.swept_to_end(pages);
        assert(begun.wf(swept));
        lemma_advance_hands_out_one(begun, swept, state1, pages1, taken, key);
        lemma_advance_hands_out_one(begun, swept, state1, pages1, taken, taken);
        lemma_sweeping_idle_pages(state, pages, key);
        lemma_sweeping_idle_pages(state, pages, taken);
        assert(!is_pending(state, key) && !is_pending(state, taken));
    }
}

/// The scan rests only when nothing is outstanding, and it leaves nothing outstanding.
pub proof fn law_rests_when_nothing_is_outstanding(
    state: ScanView,
    pages: Seq<Seq<WakerPage>>,
    state1: ScanView,
    pages1: Seq<Seq<WakerPage>>,
    key: u64,
)
    requires
        state.wf(pages),
        state.resumes(pages, state1, pages1, None),
    ensures
        outstanding(state, pages, key) == 0,
        outstanding(state1, pages1, key) == 0,
{
    lemma_blank_page();
    assert(!state.has_work(pages));
    lemma_sweeping_idle_pages(state, pages, key);
    let begun = ScanView::started(pages);
    let swept = state.swept_to_end(pages);
    assert(begun.wf(swept));
    lemma_sweeping_idle_pages(begun, swept, key);
    assert(!is_pending(state, key));
    let (p, j, b) = key_position(key);
    if is_waiting(swept, key) {
        assert(begun.upcoming(swept, p, j) && swept[p][j].has_ready());
    }
}

/// The scan does not rest while anything is outstanding.
pub proof fn law_outstanding_is_handed_out(
    state: ScanView,
    pages: Seq<Seq<WakerPage>>,
    state1: ScanView,
    pages1: Seq<Seq<WakerPage>>,
    hit: Option<(int, int, int)>,
)
    requires
        state.wf(pages),
        pages_fit(pages),
        state.resumes(pages, state1, pages1, hit),
    ensures
        hit is Some <==> exists|key: u64| outstanding(state, pages, key) > 0,
{
    if exists|key: u64| outstanding(state, pages, key) > 0 {
        let key = choose|key: u64| outstanding(state, pages, key) > 0;
        if hit is None {
            law_rests_when_nothing_is_outstanding(state, pages, state1, pages1, key);
        }
    }
    if let Some((p, j, b)) = hit {
        lemma_resume_in_range(state, pages, state1, pages1, hit);
        let slot = 64 * j + b;
        let taken = key_of(p, slot) as u64;
        lemma_key_parts(taken, p, slot);
        assert(key_position(taken) == (p, j, b));
        law_handed_out_once(state, pages, state1, pages1, taken, taken);
    }
}

/// The scan goes from one state to the next, and hands out the tasks with the keys `taken`.
pub open spec fn is_run(
    states: Seq<ScanView>,
    pages: Seq<Seq<Seq<WakerPage>>>,
    taken: Seq<u64>,
) -> bool {
    &&& states.len() == taken.len() + 1
    &&& pages.len() == taken.len() + 1
    &&& states[0].wf(pages[0])
    &&& forall|i: int|
        0 <= i < taken.len() ==> states[i].resumes(
            pages[i],
            states[i + 1],
            pages[i + 1],
            Some(key_position(#[trigger] taken[i])),
        )
}

/// How often `key` occurs among `taken`.
pub open spec fn times(taken: Seq<u64>, key: u64) -> nat
    decreases taken.len(),
{
    if taken.len() == 0 {
        0
    } else {
        times(taken.drop_last(), key) + (if taken.last() == key {
            1nat
        } else {
            0
        })
    }
}

/// A scan that is not disturbed hands out each task as often as it becomes less outstanding.
pub proof fn law_run_hands_out_what_is_outstanding(
    states: Seq<ScanView>,
    pages: Seq<Seq<Seq<WakerPage>>>,
    taken: Seq<u64>,
    key: u64,
)
    requires
        is_run(states, pages, taken),
    ensures
        states.last().wf(pages.last()),
        times(taken, key) == outstanding(states[0], pages[0], key) - outstanding(
            states.last(),
            pages.last(),
            key,
        ),
    decreases taken.len(),
{
    if taken.len() > 0 {
        let n = taken.len() - 1;
        let (states0, pages0, taken0) = (states.drop_last(), pages.drop_last(), taken.drop_last());
        assert forall|i: int| 0 <= i < taken0.len() implies states0[i].resumes(
            pages0[i],
            states0[i + 1],
            pages0[i + 1],
            Some(key_position(#[trigger] taken0[i])),
        ) by {
            assert(taken0[i] == taken[i]);
        }
        law_run_hands_out_what_is_outstanding(states0, pages0, taken0, key);
        assert(taken[n] == taken.last());
        law_handed_out_once(states[n], pages[n], states[n + 1], pages[n + 1], taken[n], key);
        lemma_resume_keeps_wf(
            states[n],
            pages[n],
            states[n + 1],
            pages[n + 1],
            Some(key_position(taken[n])),
        );
    }
}

/// A scan that is not disturbed has, when it rests, handed out each task as often as it was
/// outstanding: none is lost, and none is handed out in vain.
pub proof fn law_run_to_rest_hands_out_all(
    states: Seq<ScanView>,
    pages: Seq<Seq<Seq<WakerPage>>>,
    taken: Seq<u64>,
    state1: ScanView,
    pages1: Seq<Seq<WakerPage>>,
    key: u64,
)
    requires
        is_run(states, pages, taken),
        states.last().resumes(pages.last(), state1, pages1, None),
    ensures
        times(taken, key) == outstanding(states[0], pages[0], key),
{
    law_run_hands_out_what_is_outstanding(states, pages, taken, key);
    law_rests_when_nothing_is_outstanding(states.last(), pages.last(), state1, pages1, key);
}

/// The keys of the tasks that were taken and have still to be handed out.
pub open spec fn pending_keys(state: ScanView) -> Set<int> {
    Set::new(|k: int| 0 <= k <= u64::MAX && is_pending(state, k as u64))
}

/// The keys of the tasks that wait for the scan to take them.
pub open spec fn waiting_keys(pages: Seq<Seq<WakerPage>>) -> Set<int> {
    Set::new(|k: int| 0 <= k <= u64::MAX && is_waiting(pages, k as u64))
}

/// How many tasks the scan hands out before it rests, if none is woken again.
pub open spec fn backlog(state: ScanView, pages: Seq<Seq<WakerPage>>) -> nat {
    pending_keys(state).len() + waiting_keys(pages).len()
}

/// There are finitely many keys.
pub proof fn lemma_keys_finite(state: ScanView, pages: Seq<Seq<WakerPage>>)
    ensures
        pending_keys(state).finite(),
        waiting_keys(pages).finite(),
{
    let all = vstd::set_lib::set_int_range(0, u64::MAX + 1);
    vstd::set_lib::lemma_int_range(0, u64::MAX + 1);
    vstd::set_lib::lemma_set_subset_finite(all, pending_keys(state));
    vstd::set_lib::lemma_set_subset_finite(all, waiting_keys(pages));
}

/// Each task that the scan hands out makes the backlog smaller by one, so that an undisturbed scan
/// comes to rest.
pub proof fn law_backlog_shrinks(
    state: ScanView,
    pages: Seq<Seq<WakerPage>>,
    state1: ScanView,
    pages1: Seq<Seq<WakerPage>>,
    taken: u64,
)
    requires
        state.wf(pages),
        state.resumes(pages, state1, pages1, Some(key_position(taken))),
    ensures
        backlog(state1, pages1) == backlog(state, pages) - 1,
{
    let (a, b) = (pending_keys(state), waiting_keys(pages));
    let (a1, b1) = (pending_keys(state1), waiting_keys(pages1));
    lemma_keys_finite(state, pages);
    lemma_keys_finite(state1, pages1);
    vstd::set_lib::lemma_set_intersect_union_lens(a, b);
    vstd::set_lib::lemma_set_intersect_union_lens(a1, b1);
    let t = taken as int;
    law_handed_out_once(state, pages, state1, pages1, taken, taken);
    assert forall|k: int| 0 <= k <= u64::MAX implies (#[trigger] outstanding(
        state1,
        pages1,
        k as u64,
    ) == outstanding(state, pages, k as u64) - (if k == t {
        1int
    } else {
        0
    })) by {
        law_handed_out_once(state, pages, state1, pages1, taken, k as u64);
    }
    if outstanding(state, pages, taken) == 2 {
        assert(a1.union(b1) =~= a.union(b)) by {
            assert forall|k: int| a1.union(b1).contains(k) == a.union(b).contains(k) by {
                if 0 <= k <= u64::MAX {
                    assert(outstanding(state1, pages1, k as u64) >= 0);
                }
            }
        }
        assert(a1.intersect(b1) =~= a.intersect(b).remove(t)) by {
            assert forall|k: int|
                a1.intersect(b1).contains(k) == a.intersect(b).remove(t).contains(k) by {
                if 0 <= k <= u64::MAX {
                    assert(outstanding(state1, pages1, k as u64) >= 0);
                }
            }
        }
        assert(a.intersect(b).contains(t));
    } else {
        assert(a1.union(b1) =~= a.union(b).remove(t)) by {
            assert forall|k: int| a1.union(b1).contains(k) == a.union(b).remove(t).contains(k) by {
                if 0 <= k <= u64::MAX {
                    assert(outstanding(state1, pages1, k as u64) >= 0);
                }
            }
        }
        assert(a1.intersect(b1) =~= a.intersect(b)) by {
            assert forall|k: int| a1.intersect(b1).contains(k) == a.intersect(b).contains(k) by {
                if 0 <= k <= u64::MAX {
                    assert(outstanding(state1, pages1, k as u64) >= 0);
                }
            }
        }
        assert(a.union(b).contains(t));
    }
}

/// A scan that begins a new pass hands out the smallest key that waits: the smallest priority
/// first, and within a priority the smallest key first.
pub proof fn law_smallest_key_first(
    state: ScanView,
    pages: Seq<Seq<WakerPage>>,
    state1: ScanView,
    pages1: Seq<Seq<WakerPage>>,
    taken: u64,
    key: u64,
)
    requires
        state.wf(pages),
        !state.has_work(pages),
        state.resumes(pages, state1, pages1, Some(key_position(taken))),
        is_waiting(pages, key),
    ensures
        is_waiting(pages, taken),
        taken <= key,
{
    let begun = ScanView::started(pages);
    let swept = state.swept_to_end(pages);
    assert(begun.wf(swept));
    lemma_sweeping_idle_pages(state, pages, key);
    law_handed_out_once(state, pages, state1, pages1, taken, taken);
    assert(!is_pending(state, taken));
    lemma_sweeping_idle_pages(state, pages, taken);
    let (p, j, b) = key_position(taken);
    let (kp, kj, kb) = key_position(key);
    assert(begun.next_page(swept, p, j));
    assert(begun.upcoming(swept, kp, kj) && swept[kp][kj].has_ready());
    assert(!before(kp, kj, p, j));
    if kp == p && kj == j {
        assert(swept[p][j].ready().contains(kb));
    }
}

/// Within a pass the keys that are handed out ascend: a key that comes next is greater than `last`,
/// the key that was handed out last.
pub proof fn law_pass_ascends(
    state: ScanView,
    pages: Seq<Seq<WakerPage>>,
    state1: ScanView,
    pages1: Seq<Seq<WakerPage>>,
    last: u64,
    taken: u64,
)
    requires
        state.wf(pages),
        state.has_work(pages),
        key_position(last) == state.position(),
        state.resumes(pages, state1, pages1, Some(key_position(taken))),
    ensures
        last < taken,
{
    let (p, j, b) = key_position(taken);
    if exists|x: int| state.pending.contains(x) {
        assert(state.pending.contains(b));
    } else {
        assert(state.upcoming(pages, p, j));
    }
}

/// Each page with a ready task is one that the pass has still to visit.
pub open spec fn all_upcoming(state: ScanView, pages: Seq<Seq<WakerPage>>) -> bool {
    forall|p: int, j: int|
        0 <= p < pages.len() && 0 <= j < pages[p].len() && (#[trigger] pages[p][j]).has_ready()
            ==> state.upcoming(pages, p, j)
}

/// A pass leaves behind no page with a ready task.
proof fn lemma_advance_leaves_none_behind(
    state: ScanView,
    pages: Seq<Seq<WakerPage>>,
    state1: ScanView,
    pages1: Seq<Seq<WakerPage>>,
    taken: u64,
)
    requires
        state.wf(pages),
        all_upcoming(state, pages),
        state.advances(pages, state1, pages1, Some(key_position(taken))),
    ensures
        all_upcoming(state1, pages1),
{
    lemma_blank_page();
    assert forall|p: int, j: int|
        0 <= p < pages1.len() && 0 <= j < pages1[p].len() && (
        #[trigger] pages1[p][j]).has_ready() implies state1.upcoming(pages1, p, j) by {
        assert(pages1[p][j] == pages[p][j] || pages1[p][j] == WakerPage::blank());
        assert(pages[p][j].has_ready());
        assert(state.upcoming(pages, p, j));
    }
}

/// A scan that goes on with a pass that left none behind, or that begins a new pass, leaves none
/// behind.
proof fn lemma_resume_leaves_none_behind(
    state: ScanView,
    pages: Seq<Seq<WakerPage>>,
    state1: ScanView,
    pages1: Seq<Seq<WakerPage>>,
    taken: u64,
)
    requires
        state.wf(pages),
        all_upcoming(state, pages) || !state.has_work(pages),
        state.resumes(pages, state1, pages1, Some(key_position(taken))),
    ensures
        all_upcoming(state1, pages1),
{
    if state.has_work(pages) {
        lemma_advance_leaves_none_behind(state, pages, state1, pages1, taken);
    } else {
        let begun = ScanView::started(pages);
        let swept = state.swept_to_end(pages);
        assert(begun.wf(swept));
        lemma_advance_leaves_none_behind(begun, swept, state1, pages1, taken);
    }
}

/// Where an undisturbed scan is after its step number `m`.
proof fn lemma_run_state(
    states: Seq<ScanView>,
    pages: Seq<Seq<Seq<WakerPage>>>,
    taken: Seq<u64>,
    m: int,
)
    requires
        is_run(states, pages, taken),
        !states[0].has_work(pages[0]),
        1 <= m <= taken.len(),
    ensures
        states[m].wf(pages[m]),
        all_upcoming(states[m], pages[m]),
        states[m].position() == key_position(taken[m - 1]),
    decreases m,
{
    if m > 1 {
        lemma_run_state(states, pages, taken, m - 1);
    }
    let n = m - 1;
    assert(states[n].resumes(
        pages[n],
        states[n + 1],
        pages[n + 1],
        Some(key_position(taken[n])),
    ));
    lemma_resume_keeps_wf(
        states[n],
        pages[n],
        states[n + 1],
        pages[n + 1],
        Some(key_position(taken[n])),
    );
    lemma_resume_leaves_none_behind(states[n], pages[n], states[n + 1], pages[n + 1], taken[n]);
}

/// An undisturbed scan that begins with a new pass hands out the keys in ascending order, all in
/// one pass: the smallest priority first, and within a priority the smallest key first.
pub proof fn law_run_ascends(
    states: Seq<ScanView>,
    pages: Seq<Seq<Seq<WakerPage>>>,
    taken: Seq<u64>,
    i: int,
    j: int,
)
    requires
        is_run(states, pages, taken),
        !states[0].has_work(pages[0]),
        0 <= i < j < taken.len(),
    ensures
        taken[i] < taken[j],
    decreases j - i,
{
    lemma_run_state(states, pages, taken, j);
    assert(states[j].resumes(
        pages[j],
        states[j + 1],
        pages[j + 1],
        Some(key_position(taken[j])),
    ));
    law_handed_out_once(states[j], pages[j], states[j + 1], pages[j + 1], taken[j], taken[j]);
    let (p, k, b) = key_position(taken[j]);
    if is_waiting(pages[j], taken[j]) {
        assert(pages[j][p][k].has_ready());
        assert(states[j].upcoming(pages[j], p, k));
    }
    assert(states[j].has_work(pages[j]));
    law_pass_ascends(
        states[j],
        pages[j],
        states[j + 1],
        pages[j + 1],
        taken[j - 1],
        taken[j],
    );
    if i < j - 1 {
        law_run_ascends(states, pages, taken, i, j - 1);
    }
}

/// A scan that has not begun its first pass, or whose pass is over, has no work left in its pass.
pub proof fn lemma_ended_has_no_work(pages: Seq<Seq<WakerPage>>)
    ensures
        !ScanView::ended().has_work(pages),
{
}

/// An undisturbed scan hands out as many tasks as its backlog becomes smaller.
pub proof fn law_run_works_off_the_backlog(
    states: Seq<ScanView>,
    pages: Seq<Seq<Seq<WakerPage>>>,
    taken: Seq<u64>,
)
    requires
        is_run(states, pages, taken),
    ensures
        states.last().wf(pages.last()),
        taken.len() + backlog(states.last(), pages.last()) == backlog(states[0], pages[0]),
    decreases taken.len(),
{
    if taken.len() > 0 {
        let n = taken.len() - 1;
        let (states0, pages0, taken0) = (states.drop_last(), pages.drop_last(), taken.drop_last());
        assert forall|i: int| 0 <= i < taken0.len() implies states0[i].resumes(
            pages0[i],
            states0[i + 1],
            pages0[i + 1],
            Some(key_position(#[trigger] taken0[i])),
        ) by {
            assert(taken0[i] == taken[i]);
        }
        law_run_works_off_the_backlog(states0, pages0, taken0);
        assert(taken[n] == taken.last());
        law_backlog_shrinks(states[n], pages[n], states[n + 1], pages[n + 1], taken[n]);
        lemma_resume_keeps_wf(
            states[n],
            pages[n],
            states[n + 1],
            pages[n + 1],
            Some(key_position(taken[n])),
        );
    }
}

/// The scan rests exactly when it has no backlog.
pub proof fn law_rests_without_backlog(
    state: ScanView,
    pages: Seq<Seq<WakerPage>>,
    state1: ScanView,
    pages1: Seq<Seq<WakerPage>>,
    taken: Option<u64>,
)
    requires
        state.wf(pages),
        state.resumes(pages, state1, pages1, position_of_key(taken)),
    ensures
        taken is None <==> backlog(state, pages) == 0,
{
    match taken {
        Some(key) => {
            law_backlog_shrinks(state, pages, state1, pages1, key);
        },
        None => {
            assert forall|k: int| !pending_keys(state).contains(k) && !waiting_keys(
                pages,
            ).contains(k) by {
                if 0 <= k <= u64::MAX {
                    law_rests_when_nothing_is_outstanding(
                        state,
                        pages,
                        state1,
                        pages1,
                        k as u64,
                    );
                }
            }
            assert(pending_keys(state) =~= Set::<int>::empty());
            assert(waiting_keys(pages) =~= Set::<int>::empty());
        },
    }
}

/// When a scan gives back what it has taken and not handed out, no task is lost: exactly the tasks
/// wait that waited before, and those that were given back and have not been dropped since they were
/// taken.
pub proof fn law_giving_back_loses_nothing(
    state: ScanView,
    pages: Seq<Seq<WakerPage>>,
    pages1: Seq<Seq<WakerPage>>,
    key: u64,
)
    requires
        state.wf(pages),
        state.gives_back(pages, pages1),
    ensures
        is_waiting(pages1, key) == (is_waiting(pages, key) || (is_pending(state, key)
            && !pages[key_priority(key)][key_page(key)].is_dropped(key_offset(key)))),
        !is_pending(state.without_pending(), key),
{
    let (p, j, _) = state.position();
    let (kp, kj, kb) = key_position(key);
    if exists|b: int| state.pending.contains(b) {
        if kp == p && kj == j {
            assert(pages1[p][j].is_notified(kb) == (pages[p][j].is_notified(kb)
                || state.pending.contains(kb)));
            assert(pages1[p][j].is_dropped(kb) == pages[p][j].is_dropped(kb));
        } else {
            assert(pages1[kp].len() == pages[kp].len());
        }
    }
}

} // verus!

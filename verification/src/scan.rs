//! The scan that hands out the tasks that are ready, one at a time.
//!
//! A pass of the scan visits the pages of each priority, the smallest priority first. It takes all
//! ready tasks of a page together and hands them out in ascending order before it turns to the next
//! page. When a pass is over, the next one begins. A pass that finds nothing ends the search.

use crate::bits::{bit_iter_from, bit_iter_next, bits_left, has_bit, is_least, lemma_nonzero_has_bit,
    lemma_zero_has_no_bit, set_bits};
use crate::task::Task;
use crate::task_collection::{Inner, MAX_PRIORITY};
use crate::waker_page::{lemma_page_updates, WakerPage};
use bit_iter::BitIter;
use vstd::prelude::*;

verus! {

/// The pages of each priority.
pub open spec fn pages_of(inners: Seq<Inner>) -> Seq<Seq<WakerPage>> {
    Seq::new(inners.len(), |p: int| inners[p].pages@)
}

/// The tasks of each priority.
pub open spec fn tasks_of(inners: Seq<Inner>) -> Seq<Map<nat, Task>> {
    Seq::new(inners.len(), |p: int| inners[p].tasks())
}

/// The freed keys of each priority.
pub open spec fn vacant_of(inners: Seq<Inner>) -> Seq<Seq<nat>> {
    Seq::new(inners.len(), |p: int| inners[p].vacant())
}

/// Page `j1` of priority `p1` comes before page `j2` of priority `p2`.
pub open spec fn before(p1: int, j1: int, p2: int, j2: int) -> bool {
    p1 < p2 || (p1 == p2 && j1 < j2)
}

/// How far a scan has come.
#[verifier::ext_equal]
pub struct ScanView {
    /// The priority that the pass is at, or `MAX_PRIORITY` when the pass is over.
    pub priority: int,
    /// The next page of that priority that the pass takes.
    pub page_idx: int,
    /// The number of pages that the priority had when the pass came to it.
    pub pages_len: int,
    /// The index of the task that was handed out last, within its page.
    pub subpage_idx: int,
    /// The tasks that were taken from the page before `page_idx` and are to be handed out.
    pub pending: Set<int>,
}

impl ScanView {
    /// The state of a pass that is over.
    pub open spec fn ended() -> ScanView {
        ScanView {
            priority: MAX_PRIORITY as int,
            page_idx: 0,
            pages_len: 0,
            subpage_idx: 0,
            pending: Set::empty(),
        }
    }

    /// The state of a pass that begins.
    pub open spec fn started(pages: Seq<Seq<WakerPage>>) -> ScanView {
        ScanView {
            priority: 0,
            page_idx: 0,
            pages_len: pages[0].len() as int,
            subpage_idx: 0,
            pending: Set::empty(),
        }
    }

    /// The state is one that a scan of these pages can be in.
    pub open spec fn wf(self, pages: Seq<Seq<WakerPage>>) -> bool {
        &&& pages.len() == MAX_PRIORITY
        &&& 0 <= self.priority <= MAX_PRIORITY
        &&& 0 <= self.page_idx <= self.pages_len
        &&& self.priority < MAX_PRIORITY ==> self.pages_len <= pages[self.priority].len()
        &&& self.priority == MAX_PRIORITY ==> self == ScanView::ended()
        &&& 0 <= self.subpage_idx < 64
        &&& forall|b: int| #[trigger]
            self.pending.contains(b) ==> self.subpage_idx < b < 64 && self.page_idx >= 1
    }

    /// The position of the task that was handed out last.
    pub open spec fn position(self) -> (int, int, int) {
        (self.priority, self.page_idx - 1, self.subpage_idx)
    }

    /// The pass has still to visit page `j` of priority `p`.
    pub open spec fn upcoming(self, pages: Seq<Seq<WakerPage>>, p: int, j: int) -> bool {
        ||| p == self.priority && self.page_idx <= j < self.pages_len
        ||| self.priority < p < MAX_PRIORITY && 0 <= j < pages[p].len()
    }

    /// The first page with a ready task that the pass has still to visit is page `j` of priority
    /// `p`.
    pub open spec fn next_page(self, pages: Seq<Seq<WakerPage>>, p: int, j: int) -> bool {
        &&& self.upcoming(pages, p, j)
        &&& pages[p][j].has_ready()
        &&& forall|p1: int, j1: int| #[trigger]
            self.upcoming(pages, p1, j1) && before(p1, j1, p, j) ==> !pages[p1][j1].has_ready()
    }

    /// The pass has something left to hand out.
    pub open spec fn has_work(self, pages: Seq<Seq<WakerPage>>) -> bool {
        ||| exists|b: int| #[trigger] self.pending.contains(b)
        ||| exists|p: int, j: int| #[trigger]
            self.upcoming(pages, p, j) && pages[p][j].has_ready()
    }

    /// The pages after the pass has taken those that come before page `j_end` of priority `p_end`.
    pub open spec fn swept(self, pages: Seq<Seq<WakerPage>>, p_end: int, j_end: int) -> Seq<
        Seq<WakerPage>,
    > {
        Seq::new(
            pages.len(),
            |p: int|
                Seq::new(
                    pages[p].len(),
                    |j: int|
                        if self.upcoming(pages, p, j) && before(p, j, p_end, j_end) {
                            WakerPage::blank()
                        } else {
                            pages[p][j]
                        },
                ),
        )
    }

    /// The pages after the pass has taken all that it had still to visit.
    pub open spec fn swept_to_end(self, pages: Seq<Seq<WakerPage>>) -> Seq<Seq<WakerPage>> {
        self.swept(pages, MAX_PRIORITY as int, 0)
    }

    /// The next task that the pass hands out is task `b` of page `j` of priority `p`.
    pub open spec fn hands_out(
        self,
        pages: Seq<Seq<WakerPage>>,
        p: int,
        j: int,
        b: int,
    ) -> bool {
        if exists|x: int| #[trigger] self.pending.contains(x) {
            p == self.priority && j == self.page_idx - 1 && is_least(self.pending, b)
        } else {
            self.next_page(pages, p, j) && is_least(pages[p][j].ready(), b)
        }
    }

    /// The state of the pass after it has handed out that task.
    pub open spec fn after(self, pages: Seq<Seq<WakerPage>>, p: int, j: int, b: int) -> ScanView {
        if exists|x: int| #[trigger] self.pending.contains(x) {
            ScanView { subpage_idx: b, pending: self.pending.remove(b), ..self }
        } else {
            ScanView {
                priority: p,
                page_idx: j + 1,
                pages_len: if p == self.priority {
                    self.pages_len
                } else {
                    pages[p].len() as int
                },
                subpage_idx: b,
                pending: pages[p][j].ready().remove(b),
            }
        }
    }

    /// The pages after the pass has handed out that task.
    pub open spec fn pages_after(self, pages: Seq<Seq<WakerPage>>, p: int, j: int) -> Seq<
        Seq<WakerPage>,
    > {
        if exists|x: int| #[trigger] self.pending.contains(x) {
            pages
        } else {
            self.swept(pages, p, j + 1)
        }
    }

    /// The pass goes on to the next task `hit`, or to its end: the state becomes `state1`, and the
    /// pages become `pages1`.
    pub open spec fn advances(
        self,
        pages: Seq<Seq<WakerPage>>,
        state1: ScanView,
        pages1: Seq<Seq<WakerPage>>,
        hit: Option<(int, int, int)>,
    ) -> bool {
        match hit {
            Some((p, j, b)) => {
                &&& self.hands_out(pages, p, j, b)
                &&& state1 == self.after(pages, p, j, b)
                &&& pages1 == self.pages_after(pages, p, j)
            },
            None => {
                &&& !self.has_work(pages)
                &&& state1 == ScanView::ended()
                &&& pages1 == self.swept_to_end(pages)
            },
        }
    }

    /// The state without the tasks that were taken and have still to be handed out.
    pub open spec fn without_pending(self) -> ScanView {
        ScanView { pending: Set::empty(), ..self }
    }

    /// The pages become `pages1` when of the tasks that were taken and have still to be handed out
    /// all but `left` are woken again on their page.
    pub open spec fn gives_back_but(
        self,
        pages: Seq<Seq<WakerPage>>,
        pages1: Seq<Seq<WakerPage>>,
        left: Set<int>,
    ) -> bool {
        let (p, j, _) = self.position();
        if exists|b: int| #[trigger] self.pending.contains(b) {
            &&& pages1 == pages.update(p, pages[p].update(j, pages1[p][j]))
            &&& pages1[p][j].dropped == pages[p][j].dropped
            &&& forall|i: int| #[trigger]
                pages1[p][j].is_notified(i) == (pages[p][j].is_notified(i) || (
                self.pending.contains(i) && !left.contains(i)))
        } else {
            pages1 == pages
        }
    }

    /// The pages become `pages1` when the tasks that were taken and have still to be handed out are
    /// woken again on their page.
    pub open spec fn gives_back(
        self,
        pages: Seq<Seq<WakerPage>>,
        pages1: Seq<Seq<WakerPage>>,
    ) -> bool {
        self.gives_back_but(pages, pages1, Set::empty())
    }

    /// The scan goes on to the next task `hit`: the pass does if it has something left to hand
    /// out; if not, the pass ends and a new pass does. There is no task when the new pass finds
    /// nothing.
    pub open spec fn resumes(
        self,
        pages: Seq<Seq<WakerPage>>,
        state1: ScanView,
        pages1: Seq<Seq<WakerPage>>,
        hit: Option<(int, int, int)>,
    ) -> bool {
        if self.has_work(pages) {
            self.advances(pages, state1, pages1, hit)
        } else {
            ScanView::started(pages).advances(self.swept_to_end(pages), state1, pages1, hit)
        }
    }
}

/// The task that a pass hands out has a place on a page.
pub proof fn lemma_handed_out_in_range(
    state: ScanView,
    pages: Seq<Seq<WakerPage>>,
    p: int,
    j: int,
    b: int,
)
    requires
        state.wf(pages),
        state.hands_out(pages, p, j, b),
    ensures
        0 <= p < MAX_PRIORITY,
        0 <= j < pages[p].len(),
        0 <= b < 64,
{
    if exists|x: int| state.pending.contains(x) {
        assert(state.pending.contains(b));
    } else {
        assert(pages[p][j].ready().contains(b));
    }
}

/// A scan does not change how many pages there are.
pub proof fn lemma_resume_keeps_lengths(
    state: ScanView,
    pages: Seq<Seq<WakerPage>>,
    state1: ScanView,
    pages1: Seq<Seq<WakerPage>>,
    hit: Option<(int, int, int)>,
)
    requires
        state.wf(pages),
        state.resumes(pages, state1, pages1, hit),
    ensures
        pages1.len() == pages.len(),
        forall|p: int| 0 <= p < pages.len() ==> #[trigger] pages1[p].len() == pages[p].len(),
{
}

/// A scan stays within the pages.
pub proof fn lemma_resume_keeps_wf(
    state: ScanView,
    pages: Seq<Seq<WakerPage>>,
    state1: ScanView,
    pages1: Seq<Seq<WakerPage>>,
    hit: Option<(int, int, int)>,
)
    requires
        state.wf(pages),
        state.resumes(pages, state1, pages1, hit),
    ensures
        state1.wf(pages1),
        hit matches Some((p, j, b)) ==> state1.position() == (p, j, b),
{
    if let Some((p, j, b)) = hit {
        if state.has_work(pages) {
            lemma_handed_out_in_range(state, pages, p, j, b);
        } else {
            let swept = state.swept_to_end(pages);
            assert(ScanView::started(pages).wf(swept));
            lemma_handed_out_in_range(ScanView::started(pages), swept, p, j, b);
        }
    }
}

/// The task that a scan hands out has a place on a page.
pub proof fn lemma_resume_in_range(
    state: ScanView,
    pages: Seq<Seq<WakerPage>>,
    state1: ScanView,
    pages1: Seq<Seq<WakerPage>>,
    hit: Option<(int, int, int)>,
)
    requires
        state.wf(pages),
        state.resumes(pages, state1, pages1, hit),
    ensures
        hit matches Some((p, j, b)) ==> {
            &&& 0 <= p < MAX_PRIORITY
            &&& 0 <= j < pages[p].len()
            &&& 0 <= b < 64
        },
{
    if let Some((p, j, b)) = hit {
        if state.has_work(pages) {
            lemma_handed_out_in_range(state, pages, p, j, b);
        } else {
            let swept = state.swept_to_end(pages);
            assert(ScanView::started(pages).wf(swept));
            lemma_handed_out_in_range(ScanView::started(pages), swept, p, j, b);
            assert(swept[p].len() == pages[p].len());
        }
    }
}

/// A state that fits the pages still fits them when there are more pages.
pub proof fn lemma_wf_with_more_pages(
    state: ScanView,
    pages: Seq<Seq<WakerPage>>,
    pages1: Seq<Seq<WakerPage>>,
)
    requires
        state.wf(pages),
        pages1.len() == pages.len(),
        forall|p: int| 0 <= p < pages.len() ==> pages[p].len() <= #[trigger] pages1[p].len(),
    ensures
        state.wf(pages1),
{
}

/// A scan of the pages of all priorities.
pub struct Scan {
    pub priority: usize,
    pub page_idx: usize,
    pub pages_len: usize,
    pub subpage_idx: usize,
    pub pending: BitIter<u64>,
}

impl View for Scan {
    type V = ScanView;

    open spec fn view(&self) -> ScanView {
        ScanView {
            priority: self.priority as int,
            page_idx: self.page_idx as int,
            pages_len: self.pages_len as int,
            subpage_idx: self.subpage_idx as int,
            pending: bits_left(self.pending),
        }
    }
}

/// The position of a task, as mathematical integers.
pub open spec fn position(hit: Option<(usize, usize, usize)>) -> Option<(int, int, int)> {
    match hit {
        Some((p, j, b)) => Some((p as int, j as int, b as int)),
        None => None,
    }
}

impl Scan {
    /// A scan that has not begun its first pass.
    pub fn new() -> (scan: Scan)
        ensures
            scan@ == ScanView::ended(),
    {
        proof {
            lemma_zero_has_no_bit();
        }
        Scan {
            priority: MAX_PRIORITY,
            page_idx: 0,
            pages_len: 0,
            subpage_idx: 0,
            pending: bit_iter_from(0),
        }
    }

    /// Goes on with the pass, up to the next task or to the end of the pass.
    fn advance(&mut self, inners: &mut Vec<Inner>) -> (hit: Option<(usize, usize, usize)>)
        requires
            old(self)@.wf(pages_of(old(inners)@)),
        ensures
            old(self)@.advances(
                pages_of(old(inners)@),
                final(self)@,
                pages_of(final(inners)@),
                position(hit),
            ),
            final(self)@.wf(pages_of(final(inners)@)),
            tasks_of(final(inners)@) == tasks_of(old(inners)@),
            vacant_of(final(inners)@) == vacant_of(old(inners)@),
    {
        let ghost state = self@;
        let ghost pages = pages_of(inners@);
        if let Some(b) = bit_iter_next(&mut self.pending) {
            assert(state.pending.contains(b as int));
            self.subpage_idx = b;
            return Some((self.priority, self.page_idx - 1, b));
        }
        assert(state.swept(pages, state.priority, state.page_idx) =~~= pages);
        while self.priority < MAX_PRIORITY
            invariant
                state == old(self)@,
                pages == pages_of(old(inners)@),
                state.wf(pages),
                forall|b: int| !state.pending.contains(b),
                self@.pending == Set::<int>::empty(),
                inners@.len() == MAX_PRIORITY,
                pages.len() == MAX_PRIORITY,
                0 <= state.priority <= self.priority <= MAX_PRIORITY,
                self.page_idx <= self.pages_len,
                self.priority == MAX_PRIORITY ==> self.pages_len == 0,
                self.priority == state.priority ==> state.page_idx <= self.page_idx
                    && self.pages_len == state.pages_len,
                state.priority < self.priority < MAX_PRIORITY ==> self.pages_len
                    == pages[self.priority as int].len(),
                pages_of(inners@) == state.swept(pages, self.priority as int, self.page_idx as int),
                tasks_of(inners@) == tasks_of(old(inners)@),
                vacant_of(inners@) == vacant_of(old(inners)@),
                forall|p: int, j: int| #[trigger]
                    state.upcoming(pages, p, j) && before(
                        p,
                        j,
                        self.priority as int,
                        self.page_idx as int,
                    ) ==> !pages[p][j].has_ready(),
            decreases MAX_PRIORITY - self.priority, self.pages_len - self.page_idx,
        {
            let priority: usize = self.priority;
            let page_idx: usize = self.page_idx;
            if page_idx < self.pages_len {
                let ghost taken = inners@;
                assert(pages_of(taken)[priority as int] == taken[priority as int].pages@);
                let notified: u64 = inners[priority].take_page(page_idx);
                self.page_idx = page_idx + 1;
                proof {
                    let (p, j) = (priority as int, page_idx as int);
                    assert(state.upcoming(pages, p, j));
                    assert(tasks_of(inners@) =~= tasks_of(taken));
                    assert(vacant_of(inners@) =~= vacant_of(taken));
                    assert forall|p1: int| 0 <= p1 < MAX_PRIORITY implies #[trigger] pages_of(
                        inners@,
                    )[p1] =~= state.swept(pages, p, j + 1)[p1] by {
                        assert(pages_of(taken)[p1] == taken[p1].pages@);
                    }
                    assert(pages_of(inners@) =~= state.swept(pages, p, j + 1));
                    assert(set_bits(notified) =~= pages[p][j].ready());
                    if notified != 0 {
                        lemma_nonzero_has_bit(notified);
                        let i = choose|i: int| has_bit(notified, i);
                        assert(set_bits(notified).contains(i));
                        assert(pages[p][j].is_ready(i));
                    } else {
                        lemma_zero_has_no_bit();
                        assert forall|i: int| !pages[p][j].is_ready(i) by {
                            assert(!set_bits(notified).contains(i));
                            assert(!pages[p][j].ready().contains(i));
                        }
                    }
                }
                if notified != 0 {
                    self.pending = bit_iter_from(notified);
                    match bit_iter_next(&mut self.pending) {
                        Some(b) => {
                            self.subpage_idx = b;
                            return Some((priority, page_idx, b));
                        },
                        None => {
                            assert(false);
                            return None;
                        },
                    }
                }
            } else {
                self.priority = priority + 1;
                self.page_idx = 0;
                if self.priority < MAX_PRIORITY {
                    assert(pages_of(inners@)[priority + 1] == inners@[priority + 1].pages@);
                    self.pages_len = inners[self.priority].pages.len();
                } else {
                    self.pages_len = 0;
                }
                assert(state.swept(pages, priority as int, page_idx as int) =~~= state.swept(
                    pages,
                    self.priority as int,
                    0,
                ));
            }
        }
        self.subpage_idx = 0;
        None
    }

    /// Goes on with the scan, up to the next task. When the pass is over, a new pass begins; when
    /// the new pass finds nothing, there is no task.
    pub fn resume(&mut self, inners: &mut Vec<Inner>) -> (hit: Option<(usize, usize, usize)>)
        requires
            old(self)@.wf(pages_of(old(inners)@)),
        ensures
            old(self)@.resumes(
                pages_of(old(inners)@),
                final(self)@,
                pages_of(final(inners)@),
                position(hit),
            ),
            final(self)@.wf(pages_of(final(inners)@)),
            final(inners)@.len() == old(inners)@.len(),
            tasks_of(final(inners)@) == tasks_of(old(inners)@),
            vacant_of(final(inners)@) == vacant_of(old(inners)@),
    {
        let ghost pages = pages_of(inners@);
        if let Some(hit) = self.advance(inners) {
            return Some(hit);
        }
        let ghost swept = pages_of(inners@);
        assert(swept[0] == inners@[0].pages@);
        self.priority = 0;
        self.page_idx = 0;
        self.pages_len = inners[0].pages.len();
        self.subpage_idx = 0;
        assert(self@ =~= ScanView::started(pages));
        self.advance(inners)
    }

    /// Wakes the tasks again that were taken and have still to be handed out.
    pub fn give_back(&mut self, inners: &mut Vec<Inner>)
        requires
            old(self)@.wf(pages_of(old(inners)@)),
        ensures
            final(self)@ == old(self)@.without_pending(),
            old(self)@.gives_back(pages_of(old(inners)@), pages_of(final(inners)@)),
            final(inners)@.len() == old(inners)@.len(),
            tasks_of(final(inners)@) == tasks_of(old(inners)@),
            vacant_of(final(inners)@) == vacant_of(old(inners)@),
    {
        let ghost state = self@;
        let ghost pages = pages_of(inners@);
        let ghost (p, j, _) = state.position();
        proof {
            vstd::set_lib::lemma_int_range(0, 64);
            vstd::set_lib::lemma_set_subset_finite(
                vstd::set_lib::set_int_range(0, 64),
                state.pending,
            );
            if exists|b: int| state.pending.contains(b) {
                assert(pages[p].update(j, pages[p][j]) =~= pages[p]);
                assert(pages.update(p, pages[p].update(j, pages[p][j])) =~= pages);
            }
        }
        loop
            invariant
                state == old(self)@,
                pages == pages_of(old(inners)@),
                (p, j, state.subpage_idx) == state.position(),
                state.wf(pages),
                self@ == (ScanView { pending: self@.pending, ..state }),
                self@.pending.subset_of(state.pending),
                self@.pending.finite(),
                inners@.len() == MAX_PRIORITY,
                old(inners)@.len() == MAX_PRIORITY,
                state.gives_back_but(pages, pages_of(inners@), self@.pending),
                tasks_of(inners@) == tasks_of(old(inners)@),
                vacant_of(inners@) == vacant_of(old(inners)@),
            decreases self@.pending.len(),
        {
            let ghost left = self@.pending;
            match bit_iter_next(&mut self.pending) {
                Some(b) => {
                    let ghost partly = inners@;
                    proof {
                        assert(state.pending.contains(b as int));
                        assert(pages_of(partly)[p] == partly[p].pages@);
                        lemma_page_updates(partly[p].pages@[j], b as int);
                    }
                    inners[self.priority].wake(self.page_idx - 1, b);
                    proof {
                        assert(tasks_of(inners@) =~= tasks_of(partly));
                        assert(vacant_of(inners@) =~= vacant_of(partly));
                        assert(pages_of(inners@)[p] == inners@[p].pages@);
                        assert(pages_of(partly) == pages.update(
                            p,
                            pages[p].update(j, pages_of(partly)[p][j]),
                        ));
                        assert(inners@[p].pages@ =~= pages[p].update(j, inners@[p].pages@[j]));
                        assert forall|p1: int| 0 <= p1 < MAX_PRIORITY implies #[trigger] pages_of(
                            inners@,
                        )[p1] == pages.update(p, inners@[p].pages@)[p1] by {
                            assert(pages_of(partly)[p1] == partly[p1].pages@);
                        }
                        assert(pages_of(inners@) =~= pages.update(p, inners@[p].pages@));
                    }
                },
                None => {
                    return;
                },
            }
        }
    }
}

} // verus!

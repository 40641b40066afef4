//! What can be seen of one task from outside: the bits of its page, the scan that holds it, and the
//! slab that stores it.
//!
//! A key is 64 bits wide. Its upper 5 bits are the priority, its lower 59 bits the slot, and slot
//! `s` has bit `s % 64` of page `s / 64`.

use crate::key::{key_of, key_offset, key_page, key_position, key_priority, key_slot};
use crate::scan::ScanView;
use crate::scan_laws::{is_pending, is_waiting, outstanding};
use crate::task::Task;
use crate::task_collection::{task_at, TaskCollection};
use crate::waker_page::WakerPage;
use vstd::prelude::*;

verus! {

/// Bit `b` of `word` is set.
pub open spec fn bit_is_set(word: u64, b: int) -> bool {
    (word >> (b as u64)) & 1u64 == 1u64
}

/// The page on which the key `key` has its bits.
pub open spec fn page_for(pages: Seq<Seq<WakerPage>>, key: u64) -> WakerPage {
    pages[key as int / 0x0800_0000_0000_0000][(key as int % 0x0800_0000_0000_0000) / 64]
}

/// There is a page on which the key `key` has its bits.
pub open spec fn is_paged(pages: Seq<Seq<WakerPage>>, key: u64) -> bool {
    (key as int % 0x0800_0000_0000_0000) / 64 < pages[key as int / 0x0800_0000_0000_0000].len()
}

/// The task with the key `key` has been woken and has not been taken since.
pub open spec fn seen_woken(pages: Seq<Seq<WakerPage>>, key: u64) -> bool {
    is_paged(pages, key) && bit_is_set(page_for(pages, key).notified, key as int % 64)
}

/// The task with the key `key` is marked as dropped.
pub open spec fn seen_dropped(pages: Seq<Seq<WakerPage>>, key: u64) -> bool {
    is_paged(pages, key) && bit_is_set(page_for(pages, key).dropped, key as int % 64)
}

/// The task with the key `key` waits: it has been woken and is not marked as dropped.
pub open spec fn seen_ready(pages: Seq<Seq<WakerPage>>, key: u64) -> bool {
    seen_woken(pages, key) && !seen_dropped(pages, key)
}

/// A scan has taken the task with the key `key` off its page, and has still to hand it out.
pub open spec fn seen_held(state: ScanView, key: u64) -> bool {
    &&& key as int / 0x0800_0000_0000_0000 == state.priority
    &&& (key as int % 0x0800_0000_0000_0000) / 64 == state.page_idx - 1
    &&& state.pending.contains(key as int % 64)
}

/// How often the task with the key `key` is still to be handed out: once if a scan holds it, and
/// once if it waits.
pub open spec fn times_due(state: ScanView, pages: Seq<Seq<WakerPage>>, key: u64) -> int {
    (if seen_held(state, key) {
        1int
    } else {
        0
    }) + (if seen_ready(pages, key) {
        1int
    } else {
        0
    })
}

/// The task that is stored under the key `key`, if there is one.
pub open spec fn stored(collection: TaskCollection, key: u64) -> Option<Task> {
    let slab = collection.inners@[key as int / 0x0800_0000_0000_0000].slab;
    let slot = (key as int % 0x0800_0000_0000_0000) as nat;
    if slab.tasks().contains_key(slot) {
        Some(slab.tasks()[slot])
    } else {
        None
    }
}

/// The keys are laid out as the priority in the upper 5 bits and the slot in the lower 59, of which
/// the lowest 6 are the index within the page.
pub proof fn law_key_is_priority_and_slot(key: u64)
    ensures
        key_priority(key) == key as int / 0x0800_0000_0000_0000,
        key_slot(key) == key as int % 0x0800_0000_0000_0000,
        key_page(key) == (key as int % 0x0800_0000_0000_0000) / 64,
        key_offset(key) == key as int % 64,
        key_position(key) == (key_priority(key), key_page(key), key_offset(key)),
        key_of(key_priority(key), key_slot(key)) == key,
        key == key_priority(key) * 0x0800_0000_0000_0000 + key_page(key) * 64 + key_offset(key),
        0 <= key_priority(key) < 32,
        0 <= key_offset(key) < 64,
        0 <= key_page(key) < 0x0020_0000_0000_0000,
{
}

/// A task waits when its bit is set among the woken and clear among the dropped, and is pending when
/// the scan holds it.
pub proof fn law_task_is_observed(state: ScanView, pages: Seq<Seq<WakerPage>>, key: u64)
    ensures
        is_waiting(pages, key) == seen_ready(pages, key),
        is_pending(state, key) == seen_held(state, key),
        outstanding(state, pages, key) == times_due(state, pages, key),
{
}

/// The contents of a collection are those of its slabs and pages, each priority by itself.
pub proof fn law_collection_is_its_slabs_and_pages(collection: TaskCollection, p: int)
    requires
        0 <= p < collection.inners@.len(),
    ensures
        collection.pages().len() == collection.inners@.len(),
        collection.pages()[p] == collection.inners@[p].pages@,
        collection.tasks().len() == collection.inners@.len(),
        collection.tasks()[p] == collection.inners@[p].slab.tasks(),
        collection.vacant().len() == collection.inners@.len(),
        collection.vacant()[p] == collection.inners@[p].slab.vacant(),
{
}

/// What is found under a key is what the slab of its priority stores in its slot.
pub proof fn law_task_is_found_in_its_slot(collection: TaskCollection, key: u64)
    requires
        collection.wf(),
    ensures
        task_at(collection.tasks(), key) == stored(collection, key),
{
    law_collection_is_its_slabs_and_pages(collection, key_priority(key));
}

} // verus!

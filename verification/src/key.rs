//! The keys of tasks: the layout of a 64-bit word.
//!
//! Bits 0 to 6 hold the index of the task within its page, bits 6 to 59 the index of the page, and
//! bits 59 to 64 the priority. Each range leaves out its upper end.

use vstd::prelude::*;

verus! {

/// The number of keys of one priority.
pub const TASK_NUM_PER_PRIORITY: u64 = 0x0800_0000_0000_0000;

/// The priority of the task with the key `key`.
pub open spec fn key_priority(key: u64) -> int {
    key as int / 0x0800_0000_0000_0000
}

/// The key of the task within its priority.
pub open spec fn key_slot(key: u64) -> int {
    key as int % 0x0800_0000_0000_0000
}

/// The page of the task, among the pages of its priority.
pub open spec fn key_page(key: u64) -> int {
    key_slot(key) / 64
}

/// The index of the task within its page.
pub open spec fn key_offset(key: u64) -> int {
    key_slot(key) % 64
}

/// The key of the task that has the key `slot` within the priority `priority`.
pub open spec fn key_of(priority: int, slot: int) -> int {
    priority * 0x0800_0000_0000_0000 + slot
}

/// The priority, the page and the index within the page of the task with the key `key`.
pub open spec fn key_position(key: u64) -> (int, int, int) {
    (key_priority(key), key_page(key), key_offset(key))
}

/// Takes a key apart, into the priority, the page and the index within the page.
pub fn split_key(key: u64) -> (parts: (u64, u64, u64))
    ensures
        parts.0 == key_priority(key),
        parts.1 == key_page(key),
        parts.2 == key_offset(key),
        parts.0 < 32,
        parts.2 < 64,
{
    let subpage_ix: u64 = key % 64;
    let page_ix: u64 = (key << 5) >> 11;
    let priority: u64 = key >> 59;
    proof {
        assert((key << 5) >> 11 == (key % 0x0800_0000_0000_0000) / 64) by (bit_vector);
        assert(key >> 59 == key / 0x0800_0000_0000_0000) by (bit_vector);
        assert((key % 0x0800_0000_0000_0000) % 64 == key % 64) by (bit_vector);
    }
    (priority, page_ix, subpage_ix)
}

/// The parts of a key are those that it was made of.
pub proof fn lemma_key_parts(key: u64, priority: int, slot: int)
    requires
        0 <= priority < 32,
        0 <= slot < TASK_NUM_PER_PRIORITY,
        key == key_of(priority, slot),
    ensures
        key_priority(key) == priority,
        key_slot(key) == slot,
        key_page(key) == slot / 64,
        key_offset(key) == slot % 64,
{
}

} // verus!

# executor

A cooperative task scheduler for a multi-core kernel, verified with Verus.

* `src/` is the library. It decides which task is polled next, which executor a processor runs
  next, and on which processor a new task goes.
  * `bits`, `waker_page`: the state of 64 tasks in two words.
  * `key`: the layout of task keys.
  * `slab`, `task`, `task_collection`: the tasks of one processor, sorted by priority.
  * `scan`: the scan that hands out the tasks that are ready.
  * `executor`, `runtime`: executors, and the runtime that switches between them.
  * `scan_laws`, `collection_laws`, `history_laws`, `runtime_laws`: what the operations promise
    together.
* `app/` runs the library on a machine: it allocates stacks, switches contexts, polls futures and
  handles interrupts.
* `tests/` runs the library.

The slab comes from the `unicycle` crate and the iterator over the bits of a word from the `bit-iter`
crate. The contracts in `slab` and `bits` say what is taken for granted of them.

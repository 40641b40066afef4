//! A cooperative task scheduler for a multi-core kernel.
//!
//! Tasks live in slabs, one slab for each priority. A task is waiting for its turn when its bit in
//! a [`waker_page::WakerPage`] is set. An [`executor::Executor`] scans the pages and asks its
//! caller to poll the tasks that it finds, and a [`runtime::ExecutorRuntime`] decides which
//! executor a processor runs next.

pub mod bits;
pub mod call_laws;
pub mod change_laws;
pub mod collection_laws;
pub mod executor;
pub mod executor_laws;
pub mod history_laws;
pub mod key;
pub mod observe;
pub mod runtime;
pub mod runtime_laws;
pub mod scan;
pub mod scan_laws;
pub mod slab;
pub mod step_laws;
pub mod task;
pub mod task_collection;
pub mod turn_laws;
pub mod waker_page;

pub use runtime::{handle_timeout, run, spawn};

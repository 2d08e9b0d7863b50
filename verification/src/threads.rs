//! Worker-pool components.

pub mod thread_pool;

pub use thread_pool::worker_step;
pub use thread_pool::JobSource;
pub use thread_pool::PoolError;
pub use thread_pool::SubmitError;
pub use thread_pool::TakeOutcome;
pub use thread_pool::ThreadPool;
pub use thread_pool::Worker;
pub use thread_pool::WorkerEvent;
pub use thread_pool::WorkerState;

//! The cooperative scheduler's bookkeeping: task identifiers, the run queue, and the
//! logic of the tasks (keyboard line reading, the shell, the clock).
pub mod executor;
pub mod task;

//! Drill questions (arithmetic and pattern completion), the pipeline that
//! presents them under a replay policy, and the reducers over the samples it
//! collects.

pub mod text;
pub mod task;
pub mod arithmetic;
pub mod abstract_sequence;
pub mod tasks_pipe;
pub mod stats;
pub mod input;
pub mod generate;
pub mod session;
pub mod store;

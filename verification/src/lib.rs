//! Engine of a process monitor: what each process read from and wrote to
//! disk since the previous sample, and the totals and maxima over all
//! processes.
//!
//! The caller lists the process-information root and reads the fact files;
//! this crate decides what they mean. `sampler` picks the entries that
//! stand for processes and reads their facts, `counters` reads the
//! counters text, `reconciler` compares a round with the previous one, and
//! `rows` plans the changes to a table that shows the result.

pub mod counters;
pub mod processes;
pub mod reconciler;
pub mod rows;
pub mod sampler;
pub mod text;

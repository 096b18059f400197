//! Sampling and incremental-state engine of a live process monitor: per-process
//! CPU usage between two samples, pid-keyed reconciliation of successive
//! snapshots, a deterministic sort engine and the row renderer that a
//! virtualized list view queries.
pub mod decimal;
pub mod pid_map;
pub mod process;
pub mod reconcile;
pub mod sort;
pub mod state;
pub mod task_list;

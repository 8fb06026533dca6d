//! The state engine of a terminal process monitor: the input-mode machine,
//! key debouncing, and a sorted, filtered, selectable process table.
pub mod text;
pub mod event;
pub mod process;
pub mod dashboard;

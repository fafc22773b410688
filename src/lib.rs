//! Core logic of a keyboard-driven task manager: a calendar date editor that
//! works one digit at a time, and the controller that keeps a scrolled,
//! reorderable view over a list of tasks.
pub mod calendar;
pub mod date_picker;
pub mod key;
pub mod task;
pub mod list;
pub mod editor;

//! A paned file manager's core: path differences between locations, the stack of open
//! directory panes kept in step with the selection, preview resolution, and the bookkeeping of
//! file operations.
pub mod location;
pub mod panes;
pub mod classify;
pub mod describe;
pub mod preview;
pub mod ops;
pub mod pdf;
pub mod config;
pub mod actions;
pub mod browser;

//! Verified core of a terminal system monitor: key handling, the process
//! table, the process tree, the action menu and the panel layout.
pub mod keys;
pub mod process;
pub mod tree;
pub mod text;
pub mod sort;
pub mod menu;
pub mod app;
pub mod layout;
pub mod labels;
pub mod laws;

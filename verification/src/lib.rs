//! The core of a terminal dashboard for running `apt` across a fleet of
//! Debian and Ubuntu hosts: parsers for the tools' output, configuration
//! resolution, the commands that are run on a host, the dashboard's state
//! machine and the text of its screens. Everything here is free of I/O; the
//! program around it owns the terminal, the SSH sessions and the disk.

pub mod actions;
pub mod app;
pub mod apt;
pub mod cache;
pub mod commands;
pub mod config;
pub mod gather;
pub mod keys;
pub mod laws;
pub mod lemmas;
pub mod looks;
pub mod model;
pub mod panels;
pub mod parse;
pub mod reading;
pub mod review;
pub mod scene;
pub mod sidebar;
pub mod ssh;
pub mod state;
pub mod sudo;
pub mod table;
pub mod task;
pub mod text;
pub mod ui;

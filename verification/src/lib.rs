//! A terminal dashboard for a small Linux box that runs radio receivers.

pub mod app;
pub mod check;
pub mod config;
pub mod format;
pub mod localtoken;
pub mod numeric;
pub mod paint;
pub mod panes;
pub mod run;
pub mod snapshot;
pub mod text;
pub mod ui;

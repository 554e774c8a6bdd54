//! Activity-time tracking: a day-aligned log of focus intervals, the sampler
//! state machine that writes it, and the per-application time reports read
//! from it.

pub mod date;
pub mod date_input_widget;
pub mod date_range_input_widget;
pub mod datetime;
pub mod db;
pub mod period;
pub mod report;
pub mod session;
pub mod timeline;
pub mod tracker;
pub mod tray;
pub mod ui;
pub mod window;

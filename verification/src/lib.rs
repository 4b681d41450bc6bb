//! Verified core of a local application-usage tracker.
pub mod calendar;
pub mod icon;
pub mod laws;
pub mod model;
pub mod report_laws;
pub mod sorting;
pub mod store;
pub mod store_laws;
pub mod text;
pub mod tracker;
pub mod tracker_laws;
pub mod usage;
pub mod widget;

//! Locates the log lines that an OpenStack request ID or resource UUID left in
//! the systemd journals of a cloud's hosts, and merges them into one timeline.

pub mod auth;
pub mod catalog;
pub mod display;
pub mod hosts;
pub mod text;
pub mod json;
pub mod journal;
pub mod remote;
pub mod timeline;

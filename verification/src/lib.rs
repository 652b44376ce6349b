//! Verified core of a real-time Nginx access-log analyzer: log-line parsing,
//! per-IP / per-URL statistics, security / error / bot classification, an
//! indexed in-memory record store, and the navigation state of the terminal UI.

pub mod tab_manager;
pub mod text;
pub mod table;
pub mod sorting;
pub mod clock;
pub mod log_data;
pub mod shared_maps;
pub mod memory_db;
pub mod regex_match;
pub mod datetime;
pub mod helpers;
pub mod file_reader;
pub mod keys;
pub mod settings;
pub mod file_selector;
pub mod file_settings;
pub mod app;
pub mod progress_bar;
pub mod tui_manager;
pub mod sparkline;
pub mod security;
pub mod selection;
pub mod overview;
pub mod requests;
pub mod detailed;
pub mod stat_tabs;
pub mod heatmap;
pub mod report;

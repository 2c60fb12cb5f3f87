//! Playlist processing, HDHomeRun protocol framing and configuration helpers
//! of the m3u filter proxy, with their behaviour stated as Verus contracts.

pub mod text;

pub mod size_utils;
pub mod hdhomerun;
pub mod json_utils;
pub mod model;
pub mod playlist;
pub mod filter;
pub mod processing;
pub mod xtream;
pub mod config;
pub mod logging;
pub mod paths;
pub mod auth;
pub mod repository;
pub mod streams;
pub mod source_run;
pub mod target_run;

//! The verified core of a Wayland screenshot tool: what to capture, where it
//! is on the screen, and what the bytes a compositor hands over mean.

pub mod binary64;
pub mod capture;
pub mod cli;
pub mod cli_i18n;
pub mod cli_i18n_table;
pub mod cli_laws;
pub mod config;
pub mod doubles;
pub mod error;
pub mod geometry;
pub mod inject;
pub mod json;
pub mod longshot;
pub mod model;
pub mod path;
pub mod pin;
pub mod record;
pub mod sections;
pub mod sorting;
pub mod text;

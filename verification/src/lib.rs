//! Peer assessment report generator: the rules behind distributing
//! 50 vEuros across the members of a group, checking the group's
//! configuration, editing text fields, and rendering the report.

pub mod text;
pub mod config;
pub mod defaults;
pub mod veuros;
pub mod report;
pub mod textfield;
pub mod clipboard;
pub mod setup;
pub mod assign;
pub mod fonts;

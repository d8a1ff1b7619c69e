//! Semantic review of chip design files: the decision logic of the layout
//! renderer, the desktop viewer and the command line, with their contracts.

pub mod calendar;
pub mod cli;
pub mod composition;
pub mod diff_text;
pub mod doctor;
pub mod drivers;
pub mod formats;
pub mod gds_diff;
pub mod gds_view;
pub mod launch;
pub mod log_format;
pub mod models;
pub mod names;
pub mod order;
pub mod palette;
pub mod palette_gui;
pub mod picker;
pub mod project;
pub mod registry;
pub mod report;
pub mod style;
pub mod svg;
pub mod text;
pub mod top_cell;
pub mod viewer;

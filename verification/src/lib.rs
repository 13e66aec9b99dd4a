//! Local-first manager for Docker development entries.

pub mod app;
pub mod build_laws;
pub mod build_run;
pub mod cli;
pub mod command_laws;
pub mod course_laws;
pub mod dockerfile;
pub mod editor;
pub mod editor_laws;
pub mod entries;
pub mod entry;
pub mod entry_laws;
pub mod error;
pub mod files;
pub mod finding_laws;
pub mod graph;
pub mod image_laws;
pub mod import;
pub mod init;
pub mod name_order;
pub mod names;
pub mod number;
pub mod order_laws;
pub mod outcome_laws;
pub mod path;
pub mod path_laws;
pub mod plan;
pub mod plan_laws;
pub mod progress;
pub mod record_laws;
pub mod removal;
pub mod report;
pub mod schedule;
pub mod schedule_laws;
pub mod script;
pub mod selection_laws;
pub mod showing_laws;
pub mod sort;
pub mod step_laws;
pub mod text;
pub mod text_laws;
pub mod wording_laws;

//! Keeps a set of scheduled Python scripts and decides what happens to them.

pub mod api;
pub mod calendar_laws;
pub mod clients;
pub mod histories;
pub mod import_laws;
pub mod imports;
pub mod json;
pub mod laws;
pub mod message;
pub mod message_laws;
pub mod moment;
pub mod run_laws;
pub mod run_steps;
pub mod runner;
pub mod scheduler;
pub mod startup;
pub mod store;
pub mod task;
pub mod task_laws;
pub mod text;
pub mod text_laws;
pub mod upload;
pub mod upload_laws;

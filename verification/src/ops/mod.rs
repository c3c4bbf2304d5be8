//! The verbs, each as far as its decisions reach.
pub mod check;
pub mod build_index;
pub mod list;
pub mod discover;
pub mod models;
pub mod collect;
pub mod open;
pub mod read;
pub mod ingest;
pub mod embed;
pub mod doctor;
pub mod probe;
pub mod investigate;
pub mod run;
pub mod crumbs;
pub mod schedule;
pub mod schedules;
pub mod download;
pub mod extract;

//! Verified core of a personal wiki builder: the processing queue, wiki
//! configuration, file classification, wiki path safety, file-list parsing
//! and the processing prompt.
pub mod text;
pub mod toc;
pub mod tools;
pub mod clock;
pub mod config;
pub mod detect;
pub mod ingest;
pub mod megabytes;
pub mod monitor;
pub mod pages;
pub mod path;
pub mod preprocess;
pub mod prompt;
pub mod queue;
pub mod queue_laws;
pub mod report;
pub mod session;
pub mod wiki;

//! DeskCraft core: a verified file-organization engine.
//!
//! The library decides where files should go: it matches files against
//! user-defined rules, expands destination templates, plans moves, resolves
//! destination conflicts, journals every outcome so a run can be rolled
//! back, and computes when scheduled runs are due.  All filesystem and
//! database traffic stays outside; the library works on plain values and a
//! `FsView` model of the relevant directory entries.

pub mod actions;
pub mod conditions;
pub mod conflict;
pub mod cron;
pub mod datetime;
pub mod engine;
pub mod executor;
pub mod fingerprint;
pub mod fsview;
pub mod license;
pub mod models;
pub mod numeric;
pub mod pathutil;
pub mod rollback;
pub mod rows;
pub mod scanner;
pub mod scheduler;
pub mod simulator;
pub mod storage;
pub mod template;
pub mod tips;
pub mod text;
pub mod trusted;

//! Core of a personal expense tracker: record model, recurring-expense
//! materialization, filtered/sorted view model, and monthly aggregation.
//!
//! Everything here is verified. Terminal rendering and file storage live
//! outside the library and talk to it through plain values.

pub mod date;
pub mod text;
pub mod category;
pub mod recurrence;
pub mod expense;
pub mod currency;
pub mod engine;
pub mod filter;
pub mod agg;
pub mod app;

//! A personal timesheet: one record per calendar day with clock-in and
//! clock-out times, target hours and worked hours, kept in a flat
//! semicolon-delimited file, with monthly statistics.
//!
//! Durations are held as whole minutes; the file shows them as decimal hours.
pub mod calendar;
pub mod cli;
pub mod clock;
pub mod error;
pub mod hours;
pub mod record;
pub mod stats;
pub mod timesheet;

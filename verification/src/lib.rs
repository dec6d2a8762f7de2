//! Exam attendance records: ingestion of score sheets, the pass rules that
//! follow from a student's history, and year-over-year cohort comparison.
//!
//! The records live in a [`gradebook::Gradebook`]: exam sessions in a
//! [`registry::Registry`], students on a [`roster::Roster`], and one
//! attendance row per student and session in a [`ledger::Ledger`]. Score
//! sheets are read by [`intake`], written as batches by the gradebook, and
//! a student's standing follows from the ledger by the rules of
//! [`eligibility`]. [`cohort`] compares standings across academic years.
//!
//! Every function carries a contract over plain mathematical values, and
//! every contract is proved. What is taken on trust is named where it is
//! used: the calendar arithmetic of `chrono` in [`calendar`], and one text
//! operation of the standard library in [`text`].

pub mod calendar;
pub mod claims;
pub mod cohort;
pub mod eligibility;
pub mod enrolment;
pub mod export;
pub mod forms;
pub mod gradebook;
pub mod intake;
pub mod ledger;
pub mod lookup;
pub mod order;
pub mod records;
pub mod registry;
pub mod revision;
pub mod roster;
pub mod scholarship;
pub mod sheet;
pub mod text;

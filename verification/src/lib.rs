//! Computational core of a school substitution-plan watcher: it rebuilds a
//! per-class timetable from extracted table pages, finds the subscribers whose
//! classes changed, and lays out the digest that is sent to each of them.

pub mod substitutions;
pub mod table;
pub mod substitution_schedule;
pub mod jonas;
pub mod plan_date;
pub mod classes_and_users;
pub mod differ;
pub mod discord_notifier;
pub mod substitution_pdf_getter;
pub mod data;
pub mod util;
pub mod error;
pub mod clock;

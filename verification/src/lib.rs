//! Year-scoped authorization and progress analysis for a lab course.
pub mod bitset;
pub mod calendar;
pub mod db;
pub mod errors;
pub mod grouping;
pub mod listing;
pub mod ordering;
pub mod relation;
pub mod sheet;
pub mod text;
pub mod web;

//! A dated message store: messages are scheduled for calendar dates, kept
//! in a JSON document on disk, looked up by an offset from "today", and
//! pruned once they fall out of a retention window. The store's data
//! structure and algorithms live here, verified; the surrounding program
//! supplies file contents, the clock and the editor outcome, and takes
//! plain values back.

pub mod arguments;
pub mod command;
pub mod configuration;
pub mod dates;
pub mod document;
pub mod history;
pub mod json_date_format;
pub mod reminder;
pub mod text;

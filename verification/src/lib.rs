//! A stateless bridge between a row-based menu launcher and a task store.
//!
//! The launcher starts the program anew for every keystroke and hands it
//! a few flat strings. This library reads those strings, decides what is
//! to be done, and says which command of the task store has to run and
//! what the next menu shows. It starts no process and prints nothing
//! itself: the caller does that and hands the outcome back.

pub mod command;
pub mod document;
pub mod error;
pub mod export_datetime;
pub mod fidelity;
pub mod fields;
pub mod menu;
pub mod opt_export_datetime;
pub mod rofi;
pub mod table;
pub mod taskwarrior;
pub mod text;
pub mod timestamp;
pub mod token;
pub mod urgency;
pub mod wire;

//! Batch compression of images: several encoder commands are tried on each
//! image, and the smallest result that is small enough is kept.
//!
//! The library decides and describes; it starts no program and touches no
//! file. It says which program to run with which arguments, takes what the
//! program left behind, picks the winner among all results of an image,
//! and says which files to write and what to add to the results table.

pub mod cmds;
pub mod convert;
pub mod csv_output;
pub mod error;
pub mod find;
pub mod is_apng;
pub mod jpegquality;
pub mod preset;
pub mod report;
pub mod selection;
pub mod similar;
pub mod text;
pub mod utils;
pub mod video;

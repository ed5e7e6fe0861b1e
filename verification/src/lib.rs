//! File-metadata scanning and reporting: the verified core of an
//! interactive scanner that lists old or empty files.

pub mod text;
pub mod size;
pub mod utils;
pub mod entry;
pub mod writer;
pub mod scanner;
pub mod commands;

//! A small Lisp interpreter: a garbage-collected heap, a reader, an evaluator and a printer.

pub mod text;
pub mod metadata;
pub mod config;
pub mod memory;
pub mod modules;
pub mod util;
pub mod native;
pub mod error_utils;
pub mod highlight;
pub mod core_lists;
pub mod errors;
pub mod access;
pub mod ui;
pub mod laws;
pub mod parser;
pub mod io;
pub mod debug;
pub mod window;

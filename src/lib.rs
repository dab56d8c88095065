//! Multi-window bookkeeping for a windowed application runtime: a manager that
//! keeps every open window under its logical id and resolves platform window
//! handles back to those ids, and the conversions from platform input
//! primitives into the toolkit's neutral input vocabulary.

pub mod conversion;
pub mod window_manager;

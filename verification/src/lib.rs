//! A verified core for a line-oriented HTTP test-definition tool.
//!
//! The crate provides two cooperating parsers together with the data model
//! they produce:
//!
//! - [`parser`] turns the text of a test-definition file into a structured
//!   sequence of request entries (method, URL, headers, body, expected
//!   status, assertions, captures), keeping source line spans.
//! - [`runner`] turns the diagnostic text streams captured from the external
//!   test-runner process into a structured execution result (response,
//!   per-assertion outcomes).
//!
//! Both parsers are total: every input yields a structurally valid value and
//! no verified function of this crate panics. Their behaviour is pinned down
//! by specification functions over sequences of characters, and the
//! executable code is proved to compute exactly those functions.

pub mod config;
pub mod model;
pub mod parser;
pub mod runner;
pub mod text;
pub mod theme;

//! Reads the console output of a Rust test run and turns it into a JUnit
//! report.
//!
//! The parser in [`parser`] recognises the text that a test harness prints,
//! module by module, and the formatter in [`junit`] maps the parsed modules to
//! an XML element tree. [`layout`] states what the parser reads from whole
//! inputs written out line by line.
pub mod grammar;
pub mod junit;
pub mod layout;
pub mod markup;
pub mod model;
pub mod parser;
pub mod text;

pub use parser::parse;
pub use text::parse_data;
pub use model::{Failure, FailureView, ModuleView, Test, TestModule, TestResult, TestView};

//! Declarative command-line definition and parsing.
//!
//! A [`CommandLineDef`] declares the options, flags and positional arguments
//! of a program; parsing a token sequence against it gives a
//! [`ParseOutcome`]: the resolved [`CommandLine`], the help text, or an
//! error with the usage text.
pub mod cl_def;
pub mod command_line;
pub mod engine;
pub mod error;
pub mod laws;
pub mod option_def;
pub mod schema;
pub mod strings;
pub mod text;
pub mod usage;

pub use cl_def::CommandLineDef;
pub use command_line::{CommandLine, ParseOutcome};
pub use error::{Error, ErrorKind};
pub use text::Text;

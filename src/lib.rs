//! Wordlist generation from a compact pattern language.
//!
//! A pattern is compiled into a sequence of [`PatternToken`]s; the tokens are
//! then expanded into every word they describe, in cartesian-product order.

pub mod cli;
pub mod generator;
pub mod pattern;
pub mod strings;
pub mod utils;

pub use cli::{Arrangement, Cli};
pub use generator::{PatternToken, WordlistGenerator};
pub use pattern::CompileError;
pub use utils::{estimate_size, SizeError};

//! Configuration assembly from layered sources.
//!
//! The crate models configuration data as a structured value (null, boolean,
//! number, string, array, object), collects such values from several kinds of
//! sources (defaults, files, environment variables, command-line arguments),
//! and merges them under an explicit precedence order into a single value.

use vstd::prelude::*;

pub mod builder;
pub mod cli;
pub mod coerce;
pub mod config;
pub mod environment;
pub mod error;
pub mod laws;
pub mod merge;
pub mod source;
pub mod strings;
pub mod value;

pub use builder::{ConfigBuilder, ConfigSource};
pub use cli::Cli;
pub use config::{Config, ConfigFormat};
pub use environment::Environment;
pub use error::Error;
pub use merge::{ConfigMerger, MergeStrategy};
pub use source::Source;
pub use value::ConfigValue;

verus! {

/// A configuration prefix used for environment variable names.
#[derive(Debug, Clone)]
pub struct Prefix(pub String);

impl Prefix {
    /// Create a new prefix.
    pub fn new(prefix: String) -> (r: Self)
        ensures
            r@ == prefix@,
    {
        Prefix(prefix)
    }

    /// Get the prefix as a string slice.
    pub fn as_str(&self) -> (r: &str)
        ensures
            r@ == self@,
    {
        self.0.as_str()
    }
}

impl View for Prefix {
    type V = Seq<char>;

    open spec fn view(&self) -> Seq<char> {
        self.0@
    }
}

} // verus!

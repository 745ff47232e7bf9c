//! The kinds of configuration sources and their fixed precedence order.

use vstd::prelude::*;

verus! {

/// The kind of a configuration source. Each kind carries a fixed priority
/// rank; higher ranks win on conflict during merging.
#[derive(Debug, Clone, Copy, PartialEq, Eq, Structural)]
pub enum Source {
    Environment,
    ConfigFile,
    Cli,
    Default,
}

/// The fixed precedence order: defaults lowest, then files, then the
/// environment, with command-line arguments highest.
pub open spec fn priority_of(s: Source) -> u8 {
    match s {
        Source::Default => 0,
        Source::ConfigFile => 1,
        Source::Environment => 2,
        Source::Cli => 3,
    }
}

impl Source {
    /// The priority rank of this source kind.
    pub fn priority(&self) -> (r: u8)
        ensures
            r == priority_of(*self),
    {
        match self {
            Source::Default => 0,
            Source::ConfigFile => 1,
            Source::Environment => 2,
            Source::Cli => 3,
        }
    }
}

} // verus!

//! The command-line inputs that drive name generation. The surrounding
//! binary parses its arguments into this struct; the library only reads it.

use vstd::prelude::*;

verus! {

/// Inputs for one generation run.
#[derive(Debug, Clone)]
pub struct Cli {
    /// A key to make names deterministic.
    pub checksum: Option<String>,
}

} // verus!

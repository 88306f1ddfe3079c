//! The errors that input handling reports.
use vstd::prelude::*;

verus! {

#[derive(Clone, Debug)]
pub enum VulnFinderError {
    /// A target expression that names no host, or expands to too many.
    InvalidTarget(String),
    /// A port list entry that is not a port number from 1 to 65535.
    InvalidPort(String),
    /// A scan that could not run.
    Scan(String),
}

} // verus!

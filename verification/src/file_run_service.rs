//! The boundary contract for running a Shire file: implementations live
//! with the host editor, outside this crate.

use vstd::prelude::*;

verus! {

/// Runs the named Shire file. Implementations are outside collaborators;
/// nothing is promised of them here beyond the shape of the call.
pub trait FileRunService {
    /// Runs `file`, reporting failure as text.
    fn run_file(&self, file: &str) -> Result<(), String>;
}

} // verus!

//! Addon commands.
use vstd::prelude::*;

verus! {

pub enum Actions {
    /// Creates an addon in a new directory of the given name.
    Init { target_directory: String },
}

} // verus!

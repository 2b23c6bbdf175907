//! Entity commands.
use vstd::prelude::*;

verus! {

pub enum Actions {
    /// Creates an entity in a new directory of the given name.
    Create { directory_name: String },
}

} // verus!

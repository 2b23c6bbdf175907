//! Map commands.
use vstd::prelude::*;

verus! {

pub enum Actions {
    /// Copies the content that a map uses, found in the content roots, to the
    /// output directory.
    CollectContent { vmf_path: String, source_path: Vec<String>, output_path: String },
    /// Prints counts of a map's brushes.
    Stats { vmf_path: String },
}

} // verus!

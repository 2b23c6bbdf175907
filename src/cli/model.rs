//! Model commands.
use vstd::prelude::*;

verus! {

pub enum Actions {
    /// Copies the content that a model uses, found in the content roots, to
    /// the output directory.
    CollectContent { model_path: String, source_path: Vec<String>, output_path: String },
}

} // verus!

//! The documents that references are drawn from, as plain values: what a
//! decoder of maps, models and materials hands to the resolver.
use vstd::prelude::*;

verus! {

/// A brush: its id and the material of each of its faces.
pub struct MapSolid {
    pub id: u64,
    pub face_materials: Vec<String>,
}

/// A placed object, with the properties that can name content.
pub struct MapEntity {
    pub id: u64,
    pub class_name: String,
    pub solids: Vec<MapSolid>,
    /// The `material` property, if set.
    pub material: Option<String>,
    /// The `texture` property, if set.
    pub texture: Option<String>,
    /// The `model` property, if set.
    pub model: Option<String>,
}

/// A map: the world's brushes and the placed objects.
pub struct MapDocument {
    pub world_solids: Vec<MapSolid>,
    pub entities: Vec<MapEntity>,
}

/// A model's material names and the search paths ("cdmaterials") under which
/// each of them may lie.
pub struct ModelDocument {
    pub material_names: Vec<String>,
    pub search_paths: Vec<String>,
}

/// One parameter of a material.
pub struct MaterialParameter {
    pub name: String,
    pub value: String,
}

/// A material: either a shader with its parameters, or a patch of a base
/// material that adds parameters and replaces some of the base's.
pub enum MaterialDocument {
    Shader { parameters: Vec<MaterialParameter> },
    Patch { base: String, insert: Vec<MaterialParameter>, replace: Vec<MaterialParameter> },
}

} // verus!

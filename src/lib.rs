//! Locates the content files (materials, textures, models) that a Source-engine
//! map or model references, and tells apart what lies in user content trees,
//! what ships with the game, and what is missing.
pub mod cli;
pub mod collector;
pub mod content;
pub mod documents;
pub mod materials;
pub mod path_map;
pub mod paths;
pub mod references;
pub mod templates;
pub mod validation;

//! Content files, the source index over the content roots, and the sets that a
//! run accumulates.
use vstd::prelude::*;
use crate::path_map::PathMap;
use crate::paths::{normalize, normalized};

verus! {

/// A file found under a content root.
#[derive(Debug, Clone)]
pub struct SourceContentFile {
    /// Where the file is on disk.
    pub full_path: String,
    /// The path relative to its content root, case kept.
    pub local_path: String,
}

impl SourceContentFile {
    pub fn new(full_path: String, local_path: String) -> (r: Self)
        ensures
            r.full_path == full_path,
            r.local_path == local_path,
    {
        SourceContentFile { full_path, local_path }
    }

    /// A copy of this file entry.
    pub fn copy(&self) -> (r: Self)
        ensures
            r == *self,
    {
        SourceContentFile { full_path: self.full_path.clone(), local_path: self.local_path.clone() }
    }

    /// The reference key under which this file is indexed.
    pub open spec fn key(&self) -> Seq<char> {
        normalized(self.local_path@)
    }
}

/// The entity properties that name a material.
#[derive(Debug, Clone, Copy, PartialEq, Eq)]
pub enum EntityField {
    Material,
    Texture,
}

/// Which document or field brought a reference in.
#[derive(Debug, Clone, PartialEq, Eq)]
pub enum Provenance {
    /// A face of a world brush.
    WorldSolid { solid_id: u64 },
    /// A face of a brush that belongs to an entity.
    EntitySolid { solid_id: u64, entity_id: u64, class_name: String },
    /// A `material` or `texture` property of an entity.
    EntityProperty { entity_id: u64, class_name: String, field: EntityField },
    /// The `model` property of an `env_sprite`, which names a material.
    SpriteMaterial { entity_id: u64, class_name: String },
    /// The `model` property of an entity.
    EntityModel { entity_id: u64, class_name: String },
    /// A material that a model names.
    Model { model_path: String },
    /// A parameter of a material.
    MaterialParameter { material_path: String, parameter: String },
}

impl Provenance {
    /// A copy of this provenance.
    pub fn copy(&self) -> (r: Self)
        ensures
            r == *self,
    {
        match self {
            Provenance::WorldSolid { solid_id } => Provenance::WorldSolid { solid_id: *solid_id },
            Provenance::EntitySolid { solid_id, entity_id, class_name } => Provenance::EntitySolid {
                solid_id: *solid_id,
                entity_id: *entity_id,
                class_name: class_name.clone(),
            },
            Provenance::EntityProperty { entity_id, class_name, field } => Provenance::EntityProperty {
                entity_id: *entity_id,
                class_name: class_name.clone(),
                field: *field,
            },
            Provenance::SpriteMaterial { entity_id, class_name } => Provenance::SpriteMaterial {
                entity_id: *entity_id,
                class_name: class_name.clone(),
            },
            Provenance::EntityModel { entity_id, class_name } => Provenance::EntityModel {
                entity_id: *entity_id,
                class_name: class_name.clone(),
            },
            Provenance::Model { model_path } => Provenance::Model { model_path: model_path.clone() },
            Provenance::MaterialParameter { material_path, parameter } => Provenance::MaterialParameter {
                material_path: material_path.clone(),
                parameter: parameter.clone(),
            },
        }
    }
}

/// The source index: every file under the content roots, by reference key.
pub type SourceIndex = PathMap<SourceContentFile>;

/// The index that a list of files builds, in the order given: the first file
/// with a key is kept.
pub open spec fn index_of(files: Seq<SourceContentFile>) -> Map<Seq<char>, SourceContentFile>
    decreases files.len(),
{
    if files.len() == 0 {
        Map::empty()
    } else {
        let m = index_of(files.drop_last());
        let f = files.last();
        if m.contains_key(f.key()) {
            m
        } else {
            m.insert(f.key(), f)
        }
    }
}

/// Builds the source index from the files found under the content roots, listed
/// root by root in the order the roots were given.
pub fn build_source_files_map(files: &Vec<SourceContentFile>) -> (r: SourceIndex)
    ensures
        r.wf(),
        r@ == index_of(files@),
{
    let mut index: SourceIndex = PathMap::new();
    let mut i: usize = 0;
    while i < files.len()
        invariant
            i <= files@.len(),
            index.wf(),
            index@ == index_of(files@.subrange(0, i as int)),
        decreases files.len() - i,
    {
        let f = &files[i];
        let key = normalize(f.local_path.as_str());
        proof {
            let sub = files@.subrange(0, i as int + 1);
            assert(sub.drop_last() == files@.subrange(0, i as int));
            assert(sub.last() == files@[i as int]);
        }
        if !index.contains_key(&key) {
            index.insert(key, f.copy());
        }
        i += 1;
    }
    proof {
        assert(files@.subrange(0, files@.len() as int) == files@);
    }
    index
}

/// The indexed file under a key is one of the listed files, with that key.
pub proof fn lemma_index_entry_listed(files: Seq<SourceContentFile>, k: Seq<char>)
    requires
        index_of(files).contains_key(k),
    ensures
        exists|i: int| 0 <= i < files.len() && files[i] == index_of(files)[k] && files[i].key() == k,
    decreases files.len(),
{
    let d = files.drop_last();
    if index_of(d).contains_key(k) {
        lemma_index_entry_listed(d, k);
        let i = choose|i: int| 0 <= i < d.len() && d[i] == index_of(d)[k] && d[i].key() == k;
        assert(files[i] == d[i]);
    } else {
        assert(files[files.len() - 1] == files.last());
    }
}

/// Files of an earlier content root shadow those of a later one: once the files
/// of `a` have given a key an entry, the files of `b` listed after them leave it
/// as it is.
pub proof fn lemma_earlier_root_wins(a: Seq<SourceContentFile>, b: Seq<SourceContentFile>, k: Seq<char>)
    requires
        index_of(a).contains_key(k),
    ensures
        index_of(a + b).contains_key(k),
        index_of(a + b)[k] == index_of(a)[k],
        exists|i: int| 0 <= i < a.len() && a[i] == index_of(a + b)[k],
    decreases b.len(),
{
    if b.len() == 0 {
        assert(a + b == a);
    } else {
        lemma_earlier_root_wins(a, b.drop_last(), k);
        assert((a + b).drop_last() == a + b.drop_last());
    }
    lemma_index_entry_listed(a, k);
}

/// Puts a reference in the used set when the index has its key, and in the
/// missing set otherwise.
pub open spec fn recorded(
    used: Map<Seq<char>, SourceContentFile>,
    missing: Map<Seq<char>, Provenance>,
    index: Map<Seq<char>, SourceContentFile>,
    key: Seq<char>,
    why: Provenance,
) -> (Map<Seq<char>, SourceContentFile>, Map<Seq<char>, Provenance>) {
    if index.contains_key(key) {
        (used.insert(key, index[key]), missing)
    } else {
        (used, missing.insert(key, why))
    }
}

/// What a run has found of one kind of asset: used entries come from the index,
/// missing ones are keys that it lacks.
pub open spec fn consistent(
    used: Map<Seq<char>, SourceContentFile>,
    missing: Map<Seq<char>, Provenance>,
    index: Map<Seq<char>, SourceContentFile>,
) -> bool {
    &&& forall|k: Seq<char>| #[trigger] used.contains_key(k) ==> index.contains_key(k) && used[k] == index[k]
    &&& forall|k: Seq<char>| #[trigger] missing.contains_key(k) ==> !index.contains_key(k)
}

/// Looks a key up in the index and records it as used or missing.
pub fn record(
    used: &mut PathMap<SourceContentFile>,
    missing: &mut PathMap<Provenance>,
    index: &SourceIndex,
    key: String,
    why: Provenance,
)
    requires
        old(used).wf(),
        old(missing).wf(),
        index.wf(),
    ensures
        final(used).wf(),
        final(missing).wf(),
        (final(used)@, final(missing)@) == recorded(old(used)@, old(missing)@, index@, key@, why),
{
    match index.get(&key) {
        Some(file) => used.insert(key, file.copy()),
        None => missing.insert(key, why),
    }
}

/// Material and texture references collected from materials.
pub struct SourceMaterialData {
    pub used_materials: PathMap<SourceContentFile>,
    pub missing_materials: PathMap<Provenance>,
    pub used_textures: PathMap<SourceContentFile>,
    pub missing_textures: PathMap<Provenance>,
}

/// The four sets of a `SourceMaterialData`.
pub struct MaterialDataView {
    pub used_materials: Map<Seq<char>, SourceContentFile>,
    pub missing_materials: Map<Seq<char>, Provenance>,
    pub used_textures: Map<Seq<char>, SourceContentFile>,
    pub missing_textures: Map<Seq<char>, Provenance>,
}

impl MaterialDataView {
    pub open spec fn empty() -> MaterialDataView {
        MaterialDataView {
            used_materials: Map::empty(),
            missing_materials: Map::empty(),
            used_textures: Map::empty(),
            missing_textures: Map::empty(),
        }
    }

    /// Both sets merged, those of `other` winning on a shared key.
    pub open spec fn merged(self, other: MaterialDataView) -> MaterialDataView {
        MaterialDataView {
            used_materials: self.used_materials.union_prefer_right(other.used_materials),
            missing_materials: self.missing_materials.union_prefer_right(other.missing_materials),
            used_textures: self.used_textures.union_prefer_right(other.used_textures),
            missing_textures: self.missing_textures.union_prefer_right(other.missing_textures),
        }
    }

    pub open spec fn consistent(self, index: Map<Seq<char>, SourceContentFile>) -> bool {
        &&& consistent(self.used_materials, self.missing_materials, index)
        &&& consistent(self.used_textures, self.missing_textures, index)
    }
}

impl SourceMaterialData {
    pub open spec fn wf(&self) -> bool {
        &&& self.used_materials.wf()
        &&& self.missing_materials.wf()
        &&& self.used_textures.wf()
        &&& self.missing_textures.wf()
    }

    pub open spec fn view(&self) -> MaterialDataView {
        MaterialDataView {
            used_materials: self.used_materials@,
            missing_materials: self.missing_materials@,
            used_textures: self.used_textures@,
            missing_textures: self.missing_textures@,
        }
    }

    pub fn new() -> (r: Self)
        ensures
            r.wf(),
            r@ == MaterialDataView::empty(),
    {
        SourceMaterialData {
            used_materials: PathMap::new(),
            missing_materials: PathMap::new(),
            used_textures: PathMap::new(),
            missing_textures: PathMap::new(),
        }
    }

    /// Merges `other` into this, its entries winning on a shared key.
    pub fn extend(&mut self, other: Self)
        requires
            old(self).wf(),
            other.wf(),
        ensures
            final(self).wf(),
            final(self)@ == old(self)@.merged(other@),
    {
        self.used_materials.extend(other.used_materials);
        self.missing_materials.extend(other.missing_materials);
        self.used_textures.extend(other.used_textures);
        self.missing_textures.extend(other.missing_textures);
    }
}

} // verus!

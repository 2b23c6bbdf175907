//! Materials: which parameters name textures or materials, how a patch
//! material's parameters come from its base, and the references that a material
//! and its whole patch chain bring in.
use vstd::prelude::*;
use crate::content::{
    recorded, MaterialDataView, Provenance, SourceContentFile, SourceIndex, SourceMaterialData,
};
use crate::documents::{MaterialDocument, MaterialParameter};
use crate::path_map::PathMap;
use crate::paths::{
    lower_of, lowercase, make_material_path, make_patch_base_path, make_texture_path, material_key,
    patch_base_key, str_eq, texture_key,
};
use crate::references::{views, AssetKind, RefView, Reference};

verus! {

/// Decoded material documents by reference key; `None` where the document
/// could not be read or decoded.
pub type MaterialStore = PathMap<Option<MaterialDocument>>;

/// The parameters whose value names a texture.
pub open spec fn texture_parameter_names() -> Seq<Seq<char>> {
    seq![
        "$basetexture"@,
        "$basetexture2"@,
        "$detail"@,
        "$detail1"@,
        "$detail2"@,
        "$bumpmap"@,
        "$bumpmap2"@,
        "$bumpmask"@,
        "$selfillummask"@,
        "$selfillumtexture"@,
        "$ambientoccltexture"@,
        "$lightmap"@,
        "$phongexponenttexture"@,
        "$phongwarptexture"@,
        "$envmap"@,
        "$envmapmask"@,
        "$tintmasktexture"@,
        "$blendmodulatetexture"@,
        "$normalmap"@,
        "$lightwarptexture"@,
    ]
}

fn texture_parameter_list() -> (r: Vec<&'static str>)
    ensures
        r@.map_values(|s: &str| s@) == texture_parameter_names(),
{
    let r = vec![
        "$basetexture",
        "$basetexture2",
        "$detail",
        "$detail1",
        "$detail2",
        "$bumpmap",
        "$bumpmap2",
        "$bumpmask",
        "$selfillummask",
        "$selfillumtexture",
        "$ambientoccltexture",
        "$lightmap",
        "$phongexponenttexture",
        "$phongwarptexture",
        "$envmap",
        "$envmapmask",
        "$tintmasktexture",
        "$blendmodulatetexture",
        "$normalmap",
        "$lightwarptexture",
    ];
    proof {
        assert(r@.map_values(|s: &str| s@) =~= texture_parameter_names());
    }
    r
}

/// Whether a lower-cased parameter name names a texture.
fn is_texture_parameter(lower_name: &str) -> (r: bool)
    ensures
        r == texture_parameter_names().contains(lower_name@),
{
    let names = texture_parameter_list();
    let mut i: usize = 0;
    while i < names.len()
        invariant
            names@.map_values(|s: &str| s@) == texture_parameter_names(),
            i <= names@.len(),
            forall|j: int| 0 <= j < i ==> texture_parameter_names()[j] != lower_name@,
        decreases names.len() - i,
    {
        if str_eq(names[i], lower_name) {
            proof {
                assert(texture_parameter_names()[i as int] == lower_name@);
            }
            return true;
        }
        i += 1;
    }
    false
}

/// The reference that one parameter of a material makes, if any.
/// `$bottommaterial` names a material; a texture parameter names a texture,
/// except `$envmap` set to the engine's dynamic cubemap.
pub open spec fn parameter_refs(p: MaterialParameter, material_path: String) -> Seq<RefView> {
    let n = lower_of(p.name@);
    let why = Provenance::MaterialParameter { material_path, parameter: p.name };
    if n == "$bottommaterial"@ {
        seq![RefView { kind: AssetKind::Material, key: material_key(p.value@), why }]
    } else if texture_parameter_names().contains(n) && !(n == "$envmap"@ && texture_key(p.value@)
        == "materials\\env_cubemap.vtf"@) {
        seq![RefView { kind: AssetKind::Texture, key: texture_key(p.value@), why }]
    } else {
        Seq::empty()
    }
}

/// The references of a list of parameters, in order.
pub open spec fn parameters_refs(ps: Seq<MaterialParameter>, material_path: String) -> Seq<RefView>
    decreases ps.len(),
{
    if ps.len() == 0 {
        Seq::empty()
    } else {
        parameters_refs(ps.drop_last(), material_path) + parameter_refs(ps.last(), material_path)
    }
}

impl MaterialParameter {
    pub fn copy(&self) -> (r: Self)
        ensures
            r == *self,
    {
        MaterialParameter { name: self.name.clone(), value: self.value.clone() }
    }
}

/// The references that a material's parameters make, in order.
pub fn parameter_references(ps: &Vec<MaterialParameter>, material_path: &String) -> (r: Vec<Reference>)
    ensures
        views(r@) == parameters_refs(ps@, *material_path),
{
    let mut out: Vec<Reference> = Vec::new();
    let bottom = "$bottommaterial";
    let envmap = "$envmap";
    let cubemap = "materials\\env_cubemap.vtf";
    let mut i: usize = 0;
    proof {
        assert(views(out@) =~= Seq::<RefView>::empty());
    }
    while i < ps.len()
        invariant
            i <= ps@.len(),
            bottom@ == "$bottommaterial"@,
            envmap@ == "$envmap"@,
            cubemap@ == "materials\\env_cubemap.vtf"@,
            views(out@) == parameters_refs(ps@.subrange(0, i as int), *material_path),
        decreases ps.len() - i,
    {
        let p = &ps[i];
        let n = lowercase(p.name.as_str());
        let ghost o0 = out@;
        if str_eq(n.as_str(), bottom) {
            let key = make_material_path(p.value.as_str());
            out.push(Reference {
                kind: AssetKind::Material,
                key,
                provenance: Provenance::MaterialParameter { material_path: material_path.clone(), parameter: p.name.clone() },
            });
        } else if is_texture_parameter(n.as_str()) {
            let key = make_texture_path(p.value.as_str());
            let sentinel = str_eq(n.as_str(), envmap) && str_eq(key.as_str(), cubemap);
            if !sentinel {
                out.push(Reference {
                    kind: AssetKind::Texture,
                    key,
                    provenance: Provenance::MaterialParameter { material_path: material_path.clone(), parameter: p.name.clone() },
                });
            }
        }
        proof {
            let sub = ps@.subrange(0, i as int + 1);
            assert(sub.drop_last() == ps@.subrange(0, i as int));
            assert(sub.last() == ps@[i as int]);
            assert(views(out@) =~= views(o0) + parameter_refs(ps@[i as int], *material_path));
        }
        i += 1;
    }
    proof {
        assert(ps@.subrange(0, ps@.len() as int) == ps@);
    }
    out
}

/// Whether some parameter of `ps` has the lower-cased name `n`.
pub open spec fn has_parameter(ps: Seq<MaterialParameter>, n: Seq<char>) -> bool {
    exists|i: int| 0 <= i < ps.len() && lower_of(ps[i].name@) == n
}

/// The `replace` parameters that apply: those whose name the base has.
pub open spec fn applicable(base: Seq<MaterialParameter>, replace: Seq<MaterialParameter>) -> Seq<MaterialParameter>
    decreases replace.len(),
{
    if replace.len() == 0 {
        Seq::empty()
    } else {
        let rest = applicable(base, replace.drop_last());
        if has_parameter(base, lower_of(replace.last().name@)) {
            rest.push(replace.last())
        } else {
            rest
        }
    }
}

/// The parameters of a patch material: the base's, then those the patch
/// inserts, then those of its replacements whose name the base has. Base
/// values that the patch overrides stay in the list: they are the base's own
/// references, which the base brings in anyway.
pub open spec fn patched(
    base: Seq<MaterialParameter>,
    insert: Seq<MaterialParameter>,
    replace: Seq<MaterialParameter>,
) -> Seq<MaterialParameter> {
    base + insert + applicable(base, replace)
}

fn copy_parameters(out: &mut Vec<MaterialParameter>, ps: &Vec<MaterialParameter>)
    ensures
        final(out)@ == old(out)@ + ps@,
{
    let mut i: usize = 0;
    while i < ps.len()
        invariant
            i <= ps@.len(),
            out@ == old(out)@ + ps@.subrange(0, i as int),
        decreases ps.len() - i,
    {
        out.push(ps[i].copy());
        proof {
            assert(ps@.subrange(0, i as int + 1) == ps@.subrange(0, i as int).push(ps@[i as int]));
        }
        i += 1;
    }
    proof {
        assert(ps@.subrange(0, ps@.len() as int) == ps@);
    }
}

fn names_parameter(ps: &Vec<MaterialParameter>, lower_name: &String) -> (r: bool)
    ensures
        r == has_parameter(ps@, lower_name@),
{
    let mut i: usize = 0;
    while i < ps.len()
        invariant
            i <= ps@.len(),
            forall|j: int| 0 <= j < i ==> lower_of(ps@[j].name@) != lower_name@,
        decreases ps.len() - i,
    {
        let n = lowercase(ps[i].name.as_str());
        if n == *lower_name {
            return true;
        }
        i += 1;
    }
    false
}

/// The parameters of a patch material, given those of its base.
pub fn patch_parameters(
    base: &Vec<MaterialParameter>,
    insert: &Vec<MaterialParameter>,
    replace: &Vec<MaterialParameter>,
) -> (r: Vec<MaterialParameter>)
    ensures
        r@ == patched(base@, insert@, replace@),
{
    let mut out: Vec<MaterialParameter> = Vec::new();
    copy_parameters(&mut out, base);
    copy_parameters(&mut out, insert);
    let ghost head = out@;
    let mut i: usize = 0;
    proof {
        assert(head == base@ + insert@);
    }
    while i < replace.len()
        invariant
            i <= replace@.len(),
            head == base@ + insert@,
            out@ == head + applicable(base@, replace@.subrange(0, i as int)),
        decreases replace.len() - i,
    {
        let n = lowercase(replace[i].name.as_str());
        let applies = names_parameter(base, &n);
        proof {
            let sub = replace@.subrange(0, i as int + 1);
            assert(sub.drop_last() == replace@.subrange(0, i as int));
            assert(sub.last() == replace@[i as int]);
        }
        if applies {
            out.push(replace[i].copy());
        }
        i += 1;
    }
    proof {
        assert(replace@.subrange(0, replace@.len() as int) == replace@);
    }
    out
}

/// Why the references of a material could not be collected.
#[derive(Debug, Clone, PartialEq, Eq)]
pub enum MaterialError {
    /// The base of a patch is in no content root.
    PatchBaseNotFound { base: String },
    /// The base of a patch is in a content root but has not been decoded yet.
    PatchBaseNotLoaded { key: String },
    /// The base of a patch could not be read or decoded.
    PatchBaseUnreadable { key: String },
    /// The patch chain is longer than the store allows: it runs in a circle.
    PatchChainTooLong,
}

pub enum MaterialErrorView {
    PatchBaseNotFound { base: Seq<char> },
    PatchBaseNotLoaded { key: Seq<char> },
    PatchBaseUnreadable { key: Seq<char> },
    PatchChainTooLong,
}

impl MaterialError {
    pub open spec fn view(&self) -> MaterialErrorView {
        match self {
            MaterialError::PatchBaseNotFound { base } => MaterialErrorView::PatchBaseNotFound { base: base@ },
            MaterialError::PatchBaseNotLoaded { key } => MaterialErrorView::PatchBaseNotLoaded { key: key@ },
            MaterialError::PatchBaseUnreadable { key } => MaterialErrorView::PatchBaseUnreadable { key: key@ },
            MaterialError::PatchChainTooLong => MaterialErrorView::PatchChainTooLong,
        }
    }
}

/// One reference recorded into a material data set (models are not its business).
pub open spec fn data_step(d: MaterialDataView, r: RefView, index: Map<Seq<char>, SourceContentFile>) -> MaterialDataView {
    match r.kind {
        AssetKind::Material => {
            let (u, m) = recorded(d.used_materials, d.missing_materials, index, r.key, r.why);
            MaterialDataView { used_materials: u, missing_materials: m, ..d }
        },
        AssetKind::Texture => {
            let (u, m) = recorded(d.used_textures, d.missing_textures, index, r.key, r.why);
            MaterialDataView { used_textures: u, missing_textures: m, ..d }
        },
        AssetKind::Model => d,
    }
}

/// A list of references recorded one after the other.
pub open spec fn collected(d: MaterialDataView, refs: Seq<RefView>, index: Map<Seq<char>, SourceContentFile>) -> MaterialDataView
    decreases refs.len(),
{
    if refs.len() == 0 {
        d
    } else {
        data_step(collected(d, refs.drop_last(), index), refs.last(), index)
    }
}

/// Records references one after the other into a material data set.
pub fn record_material_references(data: &mut SourceMaterialData, refs: &Vec<Reference>, index: &SourceIndex)
    requires
        old(data).wf(),
        index.wf(),
    ensures
        final(data).wf(),
        final(data)@ == collected(old(data)@, views(refs@), index@),
{
    let mut i: usize = 0;
    while i < refs.len()
        invariant
            i <= refs@.len(),
            index.wf(),
            data.wf(),
            data@ == collected(old(data)@, views(refs@.subrange(0, i as int)), index@),
        decreases refs.len() - i,
    {
        let r = &refs[i];
        match r.kind {
            AssetKind::Material => crate::content::record(
                &mut data.used_materials,
                &mut data.missing_materials,
                index,
                r.key.clone(),
                r.provenance.copy(),
            ),
            AssetKind::Texture => crate::content::record(
                &mut data.used_textures,
                &mut data.missing_textures,
                index,
                r.key.clone(),
                r.provenance.copy(),
            ),
            AssetKind::Model => {},
        }
        proof {
            let sub = views(refs@.subrange(0, i as int + 1));
            assert(sub.drop_last() =~= views(refs@.subrange(0, i as int)));
            assert(sub.last() == refs@[i as int].view());
        }
        i += 1;
    }
    proof {
        assert(refs@.subrange(0, refs@.len() as int) == refs@);
    }
}

/// What collecting the references of a material gives: the data of its whole
/// patch chain and its own parameters, or why that failed. Each base is
/// looked up in the index (never the game archive), recorded as a used
/// material, and its data merged in before the material's own references.
pub open spec fn material_result(
    doc: MaterialDocument,
    material_path: String,
    index: Map<Seq<char>, SourceContentFile>,
    store: Map<Seq<char>, Option<MaterialDocument>>,
    fuel: nat,
) -> Result<(MaterialDataView, Seq<MaterialParameter>), MaterialErrorView>
    decreases fuel,
{
    match doc {
        MaterialDocument::Shader { parameters } => Ok(
            (collected(MaterialDataView::empty(), parameters_refs(parameters@, material_path), index), parameters@),
        ),
        MaterialDocument::Patch { base, insert, replace } => {
            let k = patch_base_key(base@);
            if !index.contains_key(k) {
                Err(MaterialErrorView::PatchBaseNotFound { base: base@ })
            } else if !store.contains_key(k) {
                Err(MaterialErrorView::PatchBaseNotLoaded { key: k })
            } else if store[k] is None {
                Err(MaterialErrorView::PatchBaseUnreadable { key: k })
            } else if fuel == 0 {
                Err(MaterialErrorView::PatchChainTooLong)
            } else {
                let f = index[k];
                match material_result(store[k]->Some_0, f.full_path, index, store, (fuel - 1) as nat) {
                    Err(e) => Err(e),
                    Ok((base_data, base_params)) => {
                        let params = patched(base_params, insert@, replace@);
                        let start = MaterialDataView {
                            used_materials: Map::empty().insert(k, f),
                            ..MaterialDataView::empty()
                        }.merged(base_data);
                        Ok((collected(start, parameters_refs(params, material_path), index), params))
                    },
                }
            }
        },
    }
}

fn resolve_material(
    doc: &MaterialDocument,
    material_path: &String,
    index: &SourceIndex,
    store: &MaterialStore,
    fuel: usize,
) -> (r: Result<(SourceMaterialData, Vec<MaterialParameter>), MaterialError>)
    requires
        index.wf(),
        store.wf(),
    ensures
        match (r, material_result(*doc, *material_path, index@, store@, fuel as nat)) {
            (Ok((d, ps)), Ok((dv, psv))) => d.wf() && d@ == dv && ps@ == psv,
            (Err(e), Err(ev)) => e@ == ev,
            _ => false,
        },
    decreases fuel,
{
    match doc {
        MaterialDocument::Shader { parameters } => {
            let refs = parameter_references(parameters, material_path);
            let mut data = SourceMaterialData::new();
            record_material_references(&mut data, &refs, index);
            let mut ps: Vec<MaterialParameter> = Vec::new();
            copy_parameters(&mut ps, parameters);
            proof {
                assert(ps@ =~= parameters@);
            }
            Ok((data, ps))
        },
        MaterialDocument::Patch { base, insert, replace } => {
            let k = make_patch_base_path(base.as_str());
            let file = match index.get(&k) {
                None => {
                    return Err(MaterialError::PatchBaseNotFound { base: base.clone() });
                },
                Some(f) => f,
            };
            let base_doc = match store.get(&k) {
                None => {
                    return Err(MaterialError::PatchBaseNotLoaded { key: k });
                },
                Some(None) => {
                    return Err(MaterialError::PatchBaseUnreadable { key: k });
                },
                Some(Some(d)) => d,
            };
            if fuel == 0 {
                return Err(MaterialError::PatchChainTooLong);
            }
            let (base_data, base_params) = match resolve_material(base_doc, &file.full_path, index, store, fuel - 1) {
                Err(e) => {
                    return Err(e);
                },
                Ok(x) => x,
            };
            let params = patch_parameters(&base_params, insert, replace);
            let mut data = SourceMaterialData::new();
            data.used_materials.insert(k, file.copy());
            data.extend(base_data);
            let refs = parameter_references(&params, material_path);
            record_material_references(&mut data, &refs, index);
            Ok((data, params))
        },
    }
}

/// Collects the material and texture references of a material and of its
/// whole patch chain. `material_path` names the material in provenance. A
/// chain longer than the index runs in a circle.
pub fn get_material_data(
    doc: &MaterialDocument,
    material_path: &String,
    index: &SourceIndex,
    store: &MaterialStore,
) -> (r: Result<SourceMaterialData, MaterialError>)
    requires
        index.wf(),
        store.wf(),
    ensures
        match (r, material_result(*doc, *material_path, index@, store@, index@.dom().len())) {
            (Ok(d), Ok((dv, _))) => d.wf() && d@ == dv,
            (Err(e), Err(ev)) => e@ == ev,
            _ => false,
        },
{
    let fuel = index.len();
    match resolve_material(doc, material_path, index, store, fuel) {
        Ok((data, _)) => Ok(data),
        Err(e) => Err(e),
    }
}

/// Collects the references of the material stored under `key`, which lies at
/// `full_path`; `None` where the store holds no decoded document for it.
pub fn read_material_data(
    key: &String,
    full_path: &String,
    index: &SourceIndex,
    store: &MaterialStore,
) -> (r: Option<Result<SourceMaterialData, MaterialError>>)
    requires
        index.wf(),
        store.wf(),
    ensures
        match r {
            None => !store@.contains_key(key@) || store@[key@] is None,
            Some(res) => store@.contains_key(key@) && store@[key@] is Some && match (
                res,
                material_result(store@[key@]->Some_0, *full_path, index@, store@, index@.dom().len()),
            ) {
                (Ok(d), Ok((dv, _))) => d.wf() && d@ == dv,
                (Err(e), Err(ev)) => e@ == ev,
                _ => false,
            },
        },
{
    match store.get(key) {
        Some(Some(doc)) => Some(get_material_data(doc, full_path, index, store)),
        _ => None,
    }
}

/// Every reference of `refs` has its key in the used or missing set of its kind.
pub open spec fn covers(d: MaterialDataView, refs: Seq<RefView>) -> bool {
    forall|i: int|
        0 <= i < refs.len() ==> {
            &&& (#[trigger] refs[i]).kind == AssetKind::Material ==> (d.used_materials.contains_key(refs[i].key)
                || d.missing_materials.contains_key(refs[i].key))
            &&& refs[i].kind == AssetKind::Texture ==> (d.used_textures.contains_key(refs[i].key)
                || d.missing_textures.contains_key(refs[i].key))
        }
}

/// Every key of `d` is still a key of `e`, in the same used-or-missing pair,
/// and every used material entry is kept.
pub open spec fn keys_kept(d: MaterialDataView, e: MaterialDataView) -> bool {
    &&& d.used_materials <= e.used_materials
    &&& d.used_textures.dom() <= e.used_textures.dom()
    &&& forall|k: Seq<char>| #[trigger] d.missing_materials.contains_key(k)
        ==> e.used_materials.contains_key(k) || e.missing_materials.contains_key(k)
    &&& forall|k: Seq<char>| #[trigger] d.missing_textures.contains_key(k)
        ==> e.used_textures.contains_key(k) || e.missing_textures.contains_key(k)
}

proof fn lemma_kept_trans(d: MaterialDataView, e: MaterialDataView, f: MaterialDataView)
    requires
        keys_kept(d, e),
        keys_kept(e, f),
    ensures
        keys_kept(d, f),
{
    assert forall|k: Seq<char>| #[trigger] d.missing_materials.contains_key(k) implies
        f.used_materials.contains_key(k) || f.missing_materials.contains_key(k) by {
        if e.used_materials.contains_key(k) {
            assert(f.used_materials.contains_key(k));
        } else {
            assert(e.missing_materials.contains_key(k));
        }
    }
    assert forall|k: Seq<char>| #[trigger] d.missing_textures.contains_key(k) implies
        f.used_textures.contains_key(k) || f.missing_textures.contains_key(k) by {
        if e.used_textures.contains_key(k) {
            assert(e.used_textures.dom().contains(k));
            assert(f.used_textures.dom().contains(k));
        } else {
            assert(e.missing_textures.contains_key(k));
        }
    }
    assert forall|k: Seq<char>| d.used_textures.dom().contains(k) implies f.used_textures.dom().contains(k) by {
        assert(e.used_textures.dom().contains(k));
    }
    assert forall|k: Seq<char>| #[trigger] d.used_materials.dom().contains(k) implies f.used_materials.dom().contains(k)
        && f.used_materials[k] == d.used_materials[k] by {
        assert(e.used_materials.dom().contains(k));
        assert(d.used_materials[k] == e.used_materials[k]);
        assert(f.used_materials.dom().contains(k));
        assert(e.used_materials[k] == f.used_materials[k]);
    }
    assert(d.used_materials <= f.used_materials);
    assert(d.used_textures.dom() <= f.used_textures.dom());
}

proof fn lemma_covers_kept(d: MaterialDataView, e: MaterialDataView, refs: Seq<RefView>)
    requires
        covers(d, refs),
        keys_kept(d, e),
    ensures
        covers(e, refs),
{
    assert forall|i: int| 0 <= i < refs.len() implies {
        &&& (#[trigger] refs[i]).kind == AssetKind::Material ==> (e.used_materials.contains_key(refs[i].key)
            || e.missing_materials.contains_key(refs[i].key))
        &&& refs[i].kind == AssetKind::Texture ==> (e.used_textures.contains_key(refs[i].key)
            || e.missing_textures.contains_key(refs[i].key))
    } by {
        if refs[i].kind == AssetKind::Material {
            assert(d.used_materials.contains_key(refs[i].key) || d.missing_materials.contains_key(refs[i].key));
        }
        if refs[i].kind == AssetKind::Texture {
            assert(d.used_textures.contains_key(refs[i].key) || d.missing_textures.contains_key(refs[i].key));
        }
    }
}

proof fn lemma_collected_covers(d: MaterialDataView, refs: Seq<RefView>, index: Map<Seq<char>, SourceContentFile>)
    requires
        d.consistent(index),
    ensures
        covers(collected(d, refs, index), refs),
        keys_kept(d, collected(d, refs, index)),
    decreases refs.len(),
{
    if refs.len() > 0 {
        let pre = refs.drop_last();
        let mid = collected(d, pre, index);
        lemma_collected_covers(d, pre, index);
        crate::collector::lemma_data_collected_consistent(d, pre, index);
        let last = collected(d, refs, index);
        assert(keys_kept(mid, last));
        lemma_kept_trans(d, mid, last);
        lemma_covers_kept(mid, last, pre);
        assert forall|i: int| 0 <= i < refs.len() implies {
            &&& (#[trigger] refs[i]).kind == AssetKind::Material ==> (last.used_materials.contains_key(refs[i].key)
                || last.missing_materials.contains_key(refs[i].key))
            &&& refs[i].kind == AssetKind::Texture ==> (last.used_textures.contains_key(refs[i].key)
                || last.missing_textures.contains_key(refs[i].key))
        } by {
            if i < refs.len() - 1 {
                assert(pre[i] == refs[i]);
            }
        }
    }
}

proof fn lemma_merged_keeps(d: MaterialDataView, e: MaterialDataView, index: Map<Seq<char>, SourceContentFile>)
    requires
        d.consistent(index),
        e.consistent(index),
    ensures
        keys_kept(d, d.merged(e)),
        keys_kept(e, d.merged(e)),
{
}

/// Resolving a material that patches a base, which patches a base of its own,
/// collects the references of all three documents: each base is a used
/// material, each reference of each level has its key in the used or missing
/// set of its kind, and no key is both used and missing.
pub proof fn lemma_patch_chain_unwound(
    a: MaterialDocument,
    a_path: String,
    index: Map<Seq<char>, SourceContentFile>,
    store: Map<Seq<char>, Option<MaterialDocument>>,
    fuel: nat,
)
    requires
        fuel >= 2,
        a is Patch,
        index.contains_key(patch_base_key(a->base@)),
        store.contains_key(patch_base_key(a->base@)),
        store[patch_base_key(a->base@)] is Some,
        store[patch_base_key(a->base@)]->Some_0 is Patch,
        index.contains_key(patch_base_key(store[patch_base_key(a->base@)]->Some_0->base@)),
        store.contains_key(patch_base_key(store[patch_base_key(a->base@)]->Some_0->base@)),
        store[patch_base_key(store[patch_base_key(a->base@)]->Some_0->base@)] is Some,
        store[patch_base_key(store[patch_base_key(a->base@)]->Some_0->base@)]->Some_0 is Shader,
    ensures
        ({
            let kb = patch_base_key(a->base@);
            let b = store[kb]->Some_0;
            let kc = patch_base_key(b->base@);
            let c = store[kc]->Some_0;
            let c_params = c->parameters@;
            let b_params = patched(c_params, b->insert@, b->replace@);
            let a_params = patched(b_params, a->insert@, a->replace@);
            let r = material_result(a, a_path, index, store, fuel);
            &&& r is Ok
            &&& r->Ok_0.0.used_materials.contains_key(kb)
            &&& r->Ok_0.0.used_materials.contains_key(kc)
            &&& covers(r->Ok_0.0, parameters_refs(c_params, index[kc].full_path))
            &&& covers(r->Ok_0.0, parameters_refs(b_params, index[kb].full_path))
            &&& covers(r->Ok_0.0, parameters_refs(a_params, a_path))
            &&& r->Ok_0.0.consistent(index)
        }),
{
    let kb = patch_base_key(a->base@);
    let b = store[kb]->Some_0;
    let kc = patch_base_key(b->base@);
    let c = store[kc]->Some_0;
    let fb = index[kb];
    let fc = index[kc];
    let c_params = c->parameters@;
    let b_params = patched(c_params, b->insert@, b->replace@);
    let a_params = patched(b_params, a->insert@, a->replace@);
    let empty = MaterialDataView::empty();
    // the innermost material
    let c_refs = parameters_refs(c_params, fc.full_path);
    let dc = collected(empty, c_refs, index);
    lemma_collected_covers(empty, c_refs, index);
    crate::collector::lemma_data_collected_consistent(empty, c_refs, index);
    assert(material_result(c, fc.full_path, index, store, (fuel - 2) as nat) == Ok::<_, MaterialErrorView>((dc, c_params)));
    // the middle material
    let start_b = MaterialDataView { used_materials: Map::empty().insert(kc, fc), ..empty };
    assert(start_b.consistent(index));
    let sb = start_b.merged(dc);
    lemma_merged_keeps(start_b, dc, index);
    lemma_covers_kept(dc, sb, c_refs);
    let b_refs = parameters_refs(b_params, fb.full_path);
    let db = collected(sb, b_refs, index);
    lemma_collected_covers(sb, b_refs, index);
    crate::collector::lemma_data_collected_consistent(sb, b_refs, index);
    lemma_covers_kept(sb, db, c_refs);
    assert(material_result(b, fb.full_path, index, store, (fuel - 1) as nat) == Ok::<_, MaterialErrorView>((db, b_params)));
    // the outer material
    let start_a = MaterialDataView { used_materials: Map::empty().insert(kb, fb), ..empty };
    assert(start_a.consistent(index));
    let sa = start_a.merged(db);
    lemma_merged_keeps(start_a, db, index);
    lemma_covers_kept(db, sa, c_refs);
    lemma_covers_kept(db, sa, b_refs);
    let a_refs = parameters_refs(a_params, a_path);
    let da = collected(sa, a_refs, index);
    lemma_collected_covers(sa, a_refs, index);
    crate::collector::lemma_data_collected_consistent(sa, a_refs, index);
    lemma_covers_kept(sa, da, c_refs);
    lemma_covers_kept(sa, da, b_refs);
    assert(material_result(a, a_path, index, store, fuel) == Ok::<_, MaterialErrorView>((da, a_params)));
    assert(sb.used_materials.contains_key(kc));
    assert(db.used_materials.contains_key(kc));
    assert(sa.used_materials.contains_key(kb));
    assert(sa.used_materials.contains_key(kc));
    assert(da.used_materials.contains_key(kb));
    assert(da.used_materials.contains_key(kc));
}

/// A result other than "base not loaded" stays as it is when more documents
/// are decoded: the chain it followed is still there.
pub proof fn lemma_material_result_stable(
    doc: MaterialDocument,
    material_path: String,
    index: Map<Seq<char>, SourceContentFile>,
    store: Map<Seq<char>, Option<MaterialDocument>>,
    later: Map<Seq<char>, Option<MaterialDocument>>,
    fuel: nat,
)
    requires
        store <= later,
        !(material_result(doc, material_path, index, store, fuel) is Err && material_result(
            doc,
            material_path,
            index,
            store,
            fuel,
        )->Err_0 is PatchBaseNotLoaded),
    ensures
        material_result(doc, material_path, index, later, fuel) == material_result(doc, material_path, index, store, fuel),
    decreases fuel,
{
    match doc {
        MaterialDocument::Shader { .. } => {},
        MaterialDocument::Patch { base, insert, replace } => {
            let k = patch_base_key(base@);
            if index.contains_key(k) && store.contains_key(k) {
                assert(store.dom().contains(k) && later.dom().contains(k));
                assert(later[k] == store[k]);
                if store[k] is Some && fuel > 0 {
                    lemma_material_result_stable(store[k]->Some_0, index[k].full_path, index, store, later, (fuel - 1) as nat);
                }
            }
        },
    }
}

} // verus!

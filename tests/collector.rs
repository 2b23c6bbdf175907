use gmod_content::collector::{missing_game_paths, remove_game_content, CollectStep, CollectedContent, ContentCollector};
use gmod_content::content::{build_source_files_map, EntityField, Provenance, SourceContentFile, SourceIndex, SourceMaterialData};
use gmod_content::documents::{MapDocument, MapEntity, MapSolid, MaterialDocument, MaterialParameter, ModelDocument};
use gmod_content::materials::{get_material_data, patch_parameters, MaterialError, MaterialStore};
use gmod_content::path_map::PathMap;
use gmod_content::references::{map_references, model_references, AssetKind};

fn s(x: &str) -> String {
    x.to_string()
}

fn index_of(locals: &[&str]) -> SourceIndex {
    let files: Vec<SourceContentFile> =
        locals.iter().map(|l| SourceContentFile::new(format!("/content/{}", l), s(l))).collect();
    build_source_files_map(&files)
}

fn param(name: &str, value: &str) -> MaterialParameter {
    MaterialParameter { name: s(name), value: s(value) }
}

fn shader(params: Vec<MaterialParameter>) -> MaterialDocument {
    MaterialDocument::Shader { parameters: params }
}

fn patch(base: &str, insert: Vec<MaterialParameter>, replace: Vec<MaterialParameter>) -> MaterialDocument {
    MaterialDocument::Patch { base: s(base), insert, replace }
}

fn entity(id: u64, class: &str) -> MapEntity {
    MapEntity { id, class_name: s(class), solids: vec![], material: None, texture: None, model: None }
}

fn map_with(world: Vec<MapSolid>, entities: Vec<MapEntity>) -> MapDocument {
    MapDocument { world_solids: world, entities }
}

fn has(m: &PathMap<SourceContentFile>, k: &str) -> bool {
    m.contains_key(&s(k))
}

fn missing(m: &PathMap<Provenance>, k: &str) -> bool {
    m.contains_key(&s(k))
}

/// Answers every request from the given documents until the collector is done;
/// returns how many requests there were.
fn drive(
    c: &mut ContentCollector,
    material: &dyn Fn(&str) -> Option<MaterialDocument>,
    model: &dyn Fn(&str) -> Option<ModelDocument>,
) -> usize {
    let mut requests = 0;
    loop {
        match c.advance() {
            CollectStep::ReadModel { key, path } => {
                c.model_read(&key, model(&path));
            }
            CollectStep::ReadMaterial { key, path } => {
                c.material_read(key, material(&path));
            }
            CollectStep::Finished => return requests,
        }
        requests += 1;
        assert!(requests < 1000);
    }
}

fn no_material(_: &str) -> Option<MaterialDocument> {
    None
}

fn no_model(_: &str) -> Option<ModelDocument> {
    None
}

#[test]
fn missing_material_with_no_content_roots() {
    let index = index_of(&[]);
    let mut e = entity(7, "prop_dynamic");
    e.material = Some(s("custom/glass"));
    let doc = map_with(vec![], vec![e]);
    let mut c = ContentCollector::for_map(index, &doc);
    drive(&mut c, &no_material, &no_model);
    let mut content = c.finish();
    assert_eq!(content.used_materials.len(), 0);
    assert_eq!(content.missing_materials.len(), 1);
    let paths = missing_game_paths(&content.missing_materials);
    assert_eq!(paths, vec![s("materials/custom/glass.vmt")]);
    let removed = remove_game_content(&mut content.missing_materials, &vec![false]);
    assert_eq!(removed, 0);
    assert_eq!(content.missing_materials.len(), 1);
    assert_eq!(
        content.missing_materials.get(&s("materials\\custom\\glass.vmt")),
        Some(&Provenance::EntityProperty { entity_id: 7, class_name: s("prop_dynamic"), field: EntityField::Material })
    );
}

#[test]
fn sprite_model_is_a_material() {
    let index = index_of(&[]);
    let mut e = entity(12, "env_sprite");
    e.model = Some(s("sprites/glow"));
    let doc = map_with(vec![], vec![e]);
    let mut c = ContentCollector::for_map(index, &doc);
    drive(&mut c, &no_material, &no_model);
    let content = c.finish();
    assert_eq!(content.missing_materials.len(), 1);
    assert_eq!(content.missing_models.len(), 0);
    assert_eq!(
        content.missing_materials.get(&s("materials\\sprites\\glow.vmt")),
        Some(&Provenance::SpriteMaterial { entity_id: 12, class_name: s("env_sprite") })
    );
}

#[test]
fn other_entities_name_models() {
    let index = index_of(&[]);
    let mut e = entity(3, "prop_static");
    e.model = Some(s("Models/Props/Crate.mdl"));
    let doc = map_with(vec![], vec![e]);
    let c = ContentCollector::for_map(index, &doc);
    let content = c.finish();
    assert_eq!(content.missing_materials.len(), 0);
    assert_eq!(
        content.missing_models.get(&s("models\\props\\crate.mdl")),
        Some(&Provenance::EntityModel { entity_id: 3, class_name: s("prop_static") })
    );
}

#[test]
fn patch_material_brings_base_and_texture() {
    let index = index_of(&["materials/a.vmt", "materials/b.vmt", "materials/t.vtf"]);
    let doc = map_with(vec![MapSolid { id: 1, face_materials: vec![s("A")] }], vec![]);
    let mut c = ContentCollector::for_map(index, &doc);
    let material = |path: &str| match path {
        "/content/materials/a.vmt" => Some(patch("materials/b.vmt", vec![], vec![])),
        "/content/materials/b.vmt" => Some(shader(vec![param("$basetexture", "t")])),
        _ => None,
    };
    drive(&mut c, &material, &no_model);
    assert!(c.failures().is_empty());
    let content = c.finish();
    assert!(has(&content.used_materials, "materials\\a.vmt"));
    assert!(has(&content.used_materials, "materials\\b.vmt"));
    assert_eq!(content.used_materials.len(), 2);
    assert!(has(&content.used_textures, "materials\\t.vtf"));
    assert_eq!(content.used_textures.len(), 1);
    assert_eq!(content.missing_materials.len(), 0);
    assert_eq!(content.missing_textures.len(), 0);
    assert_eq!(content.missing_models.len(), 0);
}

#[test]
fn three_level_patch_chain_is_unwound() {
    let index = index_of(&["materials/a.vmt", "materials/b.vmt", "materials/c.vmt", "materials/tc.vtf"]);
    let mut store: MaterialStore = PathMap::new();
    store.insert(s("materials\\b.vmt"), Some(patch("materials/c", vec![param("$detail", "tb")], vec![param("$basetexture", "tb2")])));
    store.insert(s("materials\\c.vmt"), Some(shader(vec![param("$basetexture", "tc")])));
    let a = patch("materials/B.vmt", vec![param("$bumpmap", "ta")], vec![param("$nothere", "x")]);
    let data = get_material_data(&a, &s("/content/materials/a.vmt"), &index, &store).unwrap();
    assert!(has(&data.used_materials, "materials\\b.vmt"));
    assert!(has(&data.used_materials, "materials\\c.vmt"));
    assert!(has(&data.used_textures, "materials\\tc.vtf"));
    assert!(missing(&data.missing_textures, "materials\\tb.vtf"));
    assert!(missing(&data.missing_textures, "materials\\tb2.vtf"));
    assert!(missing(&data.missing_textures, "materials\\ta.vtf"));
    assert!(!missing(&data.missing_textures, "materials\\x.vtf"));
    assert_eq!(data.used_textures.len(), 1);
    assert_eq!(data.missing_textures.len(), 3);
    assert_eq!(
        data.missing_textures.get(&s("materials\\ta.vtf")),
        Some(&Provenance::MaterialParameter { material_path: s("/content/materials/a.vmt"), parameter: s("$bumpmap") })
    );
}

#[test]
fn patch_base_outside_the_roots_fails() {
    let index = index_of(&["materials/a.vmt"]);
    let store: MaterialStore = PathMap::new();
    let a = patch("materials/gone", vec![], vec![]);
    let r = get_material_data(&a, &s("/content/materials/a.vmt"), &index, &store);
    assert_eq!(r.err(), Some(MaterialError::PatchBaseNotFound { base: s("materials/gone") }));
}

#[test]
fn patch_base_not_decoded_yet_is_asked_for() {
    let index = index_of(&["materials/a.vmt", "materials/b.vmt"]);
    let store: MaterialStore = PathMap::new();
    let a = patch("materials/b", vec![], vec![]);
    let r = get_material_data(&a, &s("/content/materials/a.vmt"), &index, &store);
    assert_eq!(r.err(), Some(MaterialError::PatchBaseNotLoaded { key: s("materials\\b.vmt") }));
}

#[test]
fn circular_patch_chain_fails() {
    let index = index_of(&["materials/a.vmt", "materials/b.vmt"]);
    let mut store: MaterialStore = PathMap::new();
    store.insert(s("materials\\a.vmt"), Some(patch("materials/b", vec![], vec![])));
    store.insert(s("materials\\b.vmt"), Some(patch("materials/a", vec![], vec![])));
    let a = patch("materials/b", vec![], vec![]);
    let r = get_material_data(&a, &s("/content/materials/a.vmt"), &index, &store);
    assert_eq!(r.err(), Some(MaterialError::PatchChainTooLong));
}

#[test]
fn unreadable_patch_base_fails() {
    let index = index_of(&["materials/b.vmt"]);
    let mut store: MaterialStore = PathMap::new();
    store.insert(s("materials\\b.vmt"), None);
    let a = patch("materials/b", vec![], vec![]);
    let r = get_material_data(&a, &s("/content/materials/a.vmt"), &index, &store);
    assert_eq!(r.err(), Some(MaterialError::PatchBaseUnreadable { key: s("materials\\b.vmt") }));
}

#[test]
fn material_parameters_name_textures_and_materials() {
    let index = index_of(&["materials/water/bottom.vmt"]);
    let store: MaterialStore = PathMap::new();
    let doc = shader(vec![
        param("$BaseTexture", "Brick/Wall"),
        param("$envmap", "env_cubemap"),
        param("$bumpmap", "env_cubemap"),
        param("$bottommaterial", "water/bottom"),
        param("$surfaceprop", "concrete"),
        param("$AmbientOcclTexture", "brick/ao"),
    ]);
    let data = get_material_data(&doc, &s("m.vmt"), &index, &store).unwrap();
    assert!(has(&data.used_materials, "materials\\water\\bottom.vmt"));
    assert_eq!(data.used_materials.len(), 1);
    assert_eq!(data.missing_materials.len(), 0);
    assert!(missing(&data.missing_textures, "materials\\brick\\wall.vtf"));
    assert!(missing(&data.missing_textures, "materials\\env_cubemap.vtf"));
    assert!(missing(&data.missing_textures, "materials\\brick\\ao.vtf"));
    assert_eq!(data.missing_textures.len(), 3);
    assert_eq!(
        data.missing_textures.get(&s("materials\\env_cubemap.vtf")),
        Some(&Provenance::MaterialParameter { material_path: s("m.vmt"), parameter: s("$bumpmap") })
    );
}

#[test]
fn envmap_sentinel_alone_brings_nothing() {
    let index = index_of(&[]);
    let store: MaterialStore = PathMap::new();
    let doc = shader(vec![param("$EnvMap", "env_cubemap")]);
    let data = get_material_data(&doc, &s("m.vmt"), &index, &store).unwrap();
    assert_eq!(data.missing_textures.len(), 0);
    assert_eq!(data.used_textures.len(), 0);
}

#[test]
fn patch_parameters_apply_only_known_replacements() {
    let base = vec![param("$basetexture", "a"), param("$Detail", "d")];
    let insert = vec![param("$bumpmap", "b")];
    let replace = vec![param("$DETAIL", "d2"), param("$lightmap", "l")];
    let r = patch_parameters(&base, &insert, &replace);
    let names: Vec<&str> = r.iter().map(|p| p.value.as_str()).collect();
    assert_eq!(names, vec!["a", "d", "b", "d2"]);
}

#[test]
fn map_references_in_document_order() {
    let mut e = entity(5, "func_brush");
    e.solids = vec![MapSolid { id: 9, face_materials: vec![s("Dev/Dev_Measure")] }];
    e.texture = Some(s("decals/x"));
    let doc = map_with(vec![MapSolid { id: 2, face_materials: vec![s("a"), s("b")] }], vec![e]);
    let refs = map_references(&doc);
    let keys: Vec<&str> = refs.iter().map(|r| r.key.as_str()).collect();
    assert_eq!(
        keys,
        vec!["materials\\a.vmt", "materials\\b.vmt", "materials\\dev\\dev_measure.vmt", "materials\\decals\\x.vmt"]
    );
    assert_eq!(refs[0].provenance, Provenance::WorldSolid { solid_id: 2 });
    assert_eq!(refs[2].provenance, Provenance::EntitySolid { solid_id: 9, entity_id: 5, class_name: s("func_brush") });
    assert_eq!(
        refs[3].provenance,
        Provenance::EntityProperty { entity_id: 5, class_name: s("func_brush"), field: EntityField::Texture }
    );
    assert!(refs.iter().all(|r| r.kind == AssetKind::Material));
}

#[test]
fn model_references_cross_names_and_search_paths() {
    let doc = ModelDocument { material_names: vec![s("Skin"), s("Eyes")], search_paths: vec![s("models/a/"), s("models/b/")] };
    let refs = model_references(&doc, &s("/c/m.mdl"));
    let keys: Vec<&str> = refs.iter().map(|r| r.key.as_str()).collect();
    assert_eq!(
        keys,
        vec!["materials\\models\\a\\skin.vmt", "materials\\models\\b\\skin.vmt", "materials\\models\\a\\eyes.vmt", "materials\\models\\b\\eyes.vmt"]
    );
    assert_eq!(refs[0].provenance, Provenance::Model { model_path: s("/c/m.mdl") });
}

#[test]
fn map_models_bring_their_materials_and_textures() {
    let index = index_of(&["models/crate.mdl", "models/crate.vvd", "materials/models/crate/wood.vmt", "materials/models/crate/wood.vtf"]);
    let mut e = entity(4, "prop_physics");
    e.model = Some(s("models/crate.mdl"));
    let doc = map_with(vec![], vec![e]);
    let mut c = ContentCollector::for_map(index, &doc);
    let model = |path: &str| {
        assert_eq!(path, "/content/models/crate.mdl");
        Some(ModelDocument { material_names: vec![s("wood")], search_paths: vec![s("models/crate/"), s("models/other/")] })
    };
    let material = |path: &str| {
        assert_eq!(path, "/content/materials/models/crate/wood.vmt");
        Some(shader(vec![param("$basetexture", "models/crate/wood")]))
    };
    let requests = drive(&mut c, &material, &model);
    assert_eq!(requests, 2);
    let content = c.finish();
    assert!(has(&content.used_models, "models\\crate.mdl"));
    assert!(has(&content.used_materials, "materials\\models\\crate\\wood.vmt"));
    assert!(missing(&content.missing_materials, "materials\\models\\other\\wood.vmt"));
    assert!(has(&content.used_textures, "materials\\models\\crate\\wood.vtf"));
    assert_eq!(
        content.missing_materials.get(&s("materials\\models\\other\\wood.vmt")),
        Some(&Provenance::Model { model_path: s("/content/models/crate.mdl") })
    );
}

#[test]
fn model_root_collects_its_materials() {
    let index = index_of(&["materials/m/skin.vmt"]);
    let doc = ModelDocument { material_names: vec![s("skin")], search_paths: vec![s("m/")] };
    let mut c = ContentCollector::for_model(index, &s("/x/model.mdl"), Some(&doc));
    drive(&mut c, &|_: &str| Some(shader(vec![])), &no_model);
    let content = c.finish();
    assert!(has(&content.used_materials, "materials\\m\\skin.vmt"));
    assert_eq!(content.used_models.len(), 0);
}

#[test]
fn model_root_that_is_not_mdl_has_no_references() {
    let index = index_of(&["materials/m/skin.vmt"]);
    let doc = ModelDocument { material_names: vec![s("skin")], search_paths: vec![s("m/")] };
    let c = ContentCollector::for_model(index, &s("/x/model.vvd"), Some(&doc));
    let content = c.finish();
    assert_eq!(content.used_materials.len(), 0);
    assert_eq!(content.missing_materials.len(), 0);
}

#[test]
fn bottom_material_is_followed_to_its_textures() {
    let index = index_of(&["materials/water.vmt", "materials/bottom.vmt", "materials/sand.vtf"]);
    let mut e = entity(1, "func_water");
    e.material = Some(s("water"));
    let doc = map_with(vec![], vec![e]);
    let mut c = ContentCollector::for_map(index, &doc);
    let material = |path: &str| match path {
        "/content/materials/water.vmt" => Some(shader(vec![param("$bottommaterial", "bottom")])),
        "/content/materials/bottom.vmt" => Some(shader(vec![param("$basetexture", "sand")])),
        _ => None,
    };
    drive(&mut c, &material, &no_model);
    let content = c.finish();
    assert!(has(&content.used_materials, "materials\\bottom.vmt"));
    assert!(has(&content.used_textures, "materials\\sand.vtf"));
}

#[test]
fn used_entries_stay_and_keep_their_file() {
    let index = index_of(&["materials/a.vmt"]);
    let doc = map_with(vec![MapSolid { id: 1, face_materials: vec![s("a"), s("a")] }], vec![]);
    let mut c = ContentCollector::for_map(index, &doc);
    let before = c.content().used_materials.get(&s("materials\\a.vmt")).unwrap().full_path.clone();
    drive(&mut c, &|_: &str| Some(shader(vec![param("$bottommaterial", "a")])), &no_model);
    let content = c.finish();
    assert_eq!(content.used_materials.get(&s("materials\\a.vmt")).unwrap().full_path, before);
    assert!(!missing(&content.missing_materials, "materials\\a.vmt"));
}

#[test]
fn swept_keys_leave_missing_and_never_become_used() {
    let index = index_of(&["materials/here.vmt"]);
    let doc = map_with(vec![MapSolid { id: 1, face_materials: vec![s("here"), s("Stock/One"), s("custom/two")] }], vec![]);
    let mut c = ContentCollector::for_map(index, &doc);
    drive(&mut c, &|_: &str| Some(shader(vec![])), &no_model);
    let mut content: CollectedContent = c.finish();
    let paths = missing_game_paths(&content.missing_materials);
    assert_eq!(paths, vec![s("materials/stock/one.vmt"), s("materials/custom/two.vmt")]);
    let found: Vec<bool> = paths.iter().map(|p| p.starts_with("materials/stock/")).collect();
    let removed = remove_game_content(&mut content.missing_materials, &found);
    assert_eq!(removed, 1);
    assert!(!missing(&content.missing_materials, "materials\\stock\\one.vmt"));
    assert!(missing(&content.missing_materials, "materials\\custom\\two.vmt"));
    assert!(!has(&content.used_materials, "materials\\stock\\one.vmt"));
    assert_eq!(content.used_materials.len(), 1);
}

#[test]
fn closure_asks_each_document_once() {
    let index = index_of(&["materials/a.vmt", "materials/b.vmt", "materials/c.vmt"]);
    let doc = map_with(vec![MapSolid { id: 1, face_materials: vec![s("a"), s("b"), s("c")] }], vec![]);
    let mut c = ContentCollector::for_map(index, &doc);
    let material = |path: &str| match path {
        "/content/materials/a.vmt" => Some(shader(vec![param("$bottommaterial", "b")])),
        "/content/materials/b.vmt" => Some(patch("materials/c", vec![], vec![])),
        "/content/materials/c.vmt" => Some(shader(vec![param("$bottommaterial", "a")])),
        _ => None,
    };
    let requests = drive(&mut c, &material, &no_model);
    assert_eq!(requests, 3);
    assert_eq!(c.finish().used_materials.len(), 3);
}

#[test]
fn unreadable_material_is_skipped() {
    let index = index_of(&["materials/a.vmt"]);
    let doc = map_with(vec![MapSolid { id: 1, face_materials: vec![s("a")] }], vec![]);
    let mut c = ContentCollector::for_map(index, &doc);
    let requests = drive(&mut c, &no_material, &no_model);
    assert_eq!(requests, 1);
    let content = c.finish();
    assert_eq!(content.used_materials.len(), 1);
    assert_eq!(content.used_textures.len(), 0);
}

#[test]
fn material_data_extend_prefers_later_entries() {
    let mut a = SourceMaterialData::new();
    a.missing_textures.insert(s("k"), Provenance::Model { model_path: s("first") });
    let mut b = SourceMaterialData::new();
    b.missing_textures.insert(s("k"), Provenance::Model { model_path: s("second") });
    b.missing_textures.insert(s("j"), Provenance::WorldSolid { solid_id: 1 });
    a.extend(b);
    assert_eq!(a.missing_textures.len(), 2);
    assert_eq!(a.missing_textures.get(&s("k")), Some(&Provenance::Model { model_path: s("second") }));
}

#[test]
fn path_map_remove_and_flags() {
    let mut m: PathMap<u32> = PathMap::new();
    m.insert(s("a"), 1);
    m.insert(s("b"), 2);
    m.insert(s("c"), 3);
    m.insert(s("b"), 4);
    assert_eq!(m.len(), 3);
    assert_eq!(m.get(&s("b")), Some(&4));
    assert_eq!(m.remove(&s("a")), Some(1));
    assert_eq!(m.remove(&s("a")), None);
    let removed = m.remove_flagged(&vec![true]);
    assert_eq!(removed, 1);
    assert_eq!(m.len(), 1);
    assert_eq!(m.get(&s("c")), Some(&3));
}

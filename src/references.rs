//! Reference extraction: the raw references of maps, models and material
//! parameters, each with its key and provenance, and how a list of them is
//! recorded against the source index.
use vstd::prelude::*;
use crate::content::{EntityField, Provenance};
use crate::documents::{MapDocument, MapEntity, MapSolid, ModelDocument};
use crate::paths::{
    face_material_key, make_face_material_path, make_material_path, make_model_material_path,
    make_model_path, material_key, model_material_key, normalized, str_eq,
};

verus! {

/// The kind of asset a reference names.
#[derive(Debug, Clone, Copy, PartialEq, Eq, Structural)]
pub enum AssetKind {
    Material,
    Texture,
    Model,
}

/// A reference: the kind of asset, its key, and where it came from.
pub struct Reference {
    pub kind: AssetKind,
    pub key: String,
    pub provenance: Provenance,
}

pub struct RefView {
    pub kind: AssetKind,
    pub key: Seq<char>,
    pub why: Provenance,
}

impl Reference {
    pub open spec fn view(&self) -> RefView {
        RefView { kind: self.kind, key: self.key@, why: self.provenance }
    }
}

pub open spec fn views(s: Seq<Reference>) -> Seq<RefView> {
    s.map_values(|r: Reference| r.view())
}

pub open spec fn sprite_class() -> Seq<char> {
    seq!['e', 'n', 'v', '_', 's', 'p', 'r', 'i', 't', 'e']
}

pub open spec fn faces_refs(faces: Seq<String>, why: Provenance) -> Seq<RefView> {
    faces.map_values(|m: String| RefView { kind: AssetKind::Material, key: face_material_key(m@), why })
}

/// The provenance of a brush face: a world brush, or a brush of an entity.
pub open spec fn solid_why(s: MapSolid, owner: Option<(u64, String)>) -> Provenance {
    match owner {
        None => Provenance::WorldSolid { solid_id: s.id },
        Some((e, c)) => Provenance::EntitySolid { solid_id: s.id, entity_id: e, class_name: c },
    }
}

pub open spec fn solids_refs(solids: Seq<MapSolid>, owner: Option<(u64, String)>) -> Seq<RefView>
    decreases solids.len(),
{
    if solids.len() == 0 {
        Seq::empty()
    } else {
        solids_refs(solids.drop_last(), owner) + faces_refs(
            solids.last().face_materials@,
            solid_why(solids.last(), owner),
        )
    }
}

pub open spec fn opt_ref(v: Option<String>, kind: AssetKind, key: spec_fn(Seq<char>) -> Seq<char>, why: Provenance) -> Seq<RefView> {
    match v {
        Some(s) => seq![RefView { kind, key: key(s@), why }],
        None => Seq::empty(),
    }
}

/// The references of an entity's properties: `material` and `texture` name
/// materials; `model` names a model, except on an `env_sprite`, where it names
/// the sprite's material.
pub open spec fn property_refs(e: MapEntity) -> Seq<RefView> {
    opt_ref(
        e.material,
        AssetKind::Material,
        |s: Seq<char>| material_key(s),
        Provenance::EntityProperty { entity_id: e.id, class_name: e.class_name, field: EntityField::Material },
    ) + opt_ref(
        e.texture,
        AssetKind::Material,
        |s: Seq<char>| material_key(s),
        Provenance::EntityProperty { entity_id: e.id, class_name: e.class_name, field: EntityField::Texture },
    ) + if e.class_name@ == sprite_class() {
        opt_ref(
            e.model,
            AssetKind::Material,
            |s: Seq<char>| material_key(s),
            Provenance::SpriteMaterial { entity_id: e.id, class_name: e.class_name },
        )
    } else {
        opt_ref(
            e.model,
            AssetKind::Model,
            |s: Seq<char>| normalized(s),
            Provenance::EntityModel { entity_id: e.id, class_name: e.class_name },
        )
    }
}

pub open spec fn entity_refs(e: MapEntity) -> Seq<RefView> {
    solids_refs(e.solids@, Some((e.id, e.class_name))) + property_refs(e)
}

pub open spec fn entities_refs(es: Seq<MapEntity>) -> Seq<RefView>
    decreases es.len(),
{
    if es.len() == 0 {
        Seq::empty()
    } else {
        entities_refs(es.drop_last()) + entity_refs(es.last())
    }
}

/// Every reference of a map, in document order: world brushes, then each
/// entity's brushes and properties.
pub open spec fn map_refs(doc: MapDocument) -> Seq<RefView> {
    solids_refs(doc.world_solids@, None) + entities_refs(doc.entities@)
}

/// The candidate references of a model: each material name under each search path.
pub open spec fn model_refs(names: Seq<String>, search_paths: Seq<String>, model_path: String) -> Seq<RefView>
    decreases names.len(),
{
    if names.len() == 0 {
        Seq::empty()
    } else {
        model_refs(names.drop_last(), search_paths, model_path) + search_paths.map_values(
            |p: String|
                RefView {
                    kind: AssetKind::Material,
                    key: model_material_key(p@, names.last()@),
                    why: Provenance::Model { model_path },
                },
        )
    }
}

fn push_face_refs(out: &mut Vec<Reference>, faces: &Vec<String>, solid_id: u64, owner: &Option<(u64, String)>, ghost_solid: Ghost<MapSolid>)
    requires
        ghost_solid@.id == solid_id,
    ensures
        views(final(out)@) == views(old(out)@) + faces_refs(faces@, solid_why(ghost_solid@, *owner)),
{
    let ghost why = solid_why(ghost_solid@, *owner);
    let mut i: usize = 0;
    while i < faces.len()
        invariant
            i <= faces@.len(),
            why == solid_why(ghost_solid@, *owner),
            ghost_solid@.id == solid_id,
            views(out@) == views(old(out)@) + faces_refs(faces@.subrange(0, i as int), why),
        decreases faces.len() - i,
    {
        let key = make_face_material_path(faces[i].as_str());
        let provenance = match owner {
            None => Provenance::WorldSolid { solid_id },
            Some((e, c)) => Provenance::EntitySolid { solid_id, entity_id: *e, class_name: c.clone() },
        };
        let ghost o0 = out@;
        out.push(Reference { kind: AssetKind::Material, key, provenance });
        proof {
            assert(views(out@) =~= views(o0).push(out@.last().view()));
            assert(faces_refs(faces@.subrange(0, i as int + 1), why) =~= faces_refs(faces@.subrange(0, i as int), why).push(
                out@.last().view(),
            ));
        }
        i += 1;
    }
    proof {
        assert(faces@.subrange(0, faces@.len() as int) == faces@);
    }
}

fn push_solids_refs(out: &mut Vec<Reference>, solids: &Vec<MapSolid>, owner: &Option<(u64, String)>)
    ensures
        views(final(out)@) == views(old(out)@) + solids_refs(solids@, *owner),
{
    let mut i: usize = 0;
    while i < solids.len()
        invariant
            i <= solids@.len(),
            views(out@) == views(old(out)@) + solids_refs(solids@.subrange(0, i as int), *owner),
        decreases solids.len() - i,
    {
        let ghost o0 = out@;
        push_face_refs(out, &solids[i].face_materials, solids[i].id, owner, Ghost(solids@[i as int]));
        proof {
            let sub = solids@.subrange(0, i as int + 1);
            assert(sub.drop_last() == solids@.subrange(0, i as int));
            assert(sub.last() == solids@[i as int]);
        }
        i += 1;
    }
    proof {
        assert(solids@.subrange(0, solids@.len() as int) == solids@);
    }
}

fn is_sprite_class(class_name: &String) -> (r: bool)
    ensures
        r == (class_name@ == sprite_class()),
{
    let sprite = "env_sprite";
    proof {
        reveal_strlit("env_sprite");
        assert(sprite@ =~= sprite_class());
    }
    str_eq(class_name.as_str(), sprite)
}

fn push_property_refs(out: &mut Vec<Reference>, e: &MapEntity)
    ensures
        views(final(out)@) == views(old(out)@) + property_refs(*e),
{
    let ghost o0 = out@;
    if let Some(v) = &e.material {
        let key = make_material_path(v.as_str());
        out.push(Reference {
            kind: AssetKind::Material,
            key,
            provenance: Provenance::EntityProperty { entity_id: e.id, class_name: e.class_name.clone(), field: EntityField::Material },
        });
    }
    let ghost o1 = out@;
    if let Some(v) = &e.texture {
        let key = make_material_path(v.as_str());
        out.push(Reference {
            kind: AssetKind::Material,
            key,
            provenance: Provenance::EntityProperty { entity_id: e.id, class_name: e.class_name.clone(), field: EntityField::Texture },
        });
    }
    let ghost o2 = out@;
    if let Some(v) = &e.model {
        if is_sprite_class(&e.class_name) {
            let key = make_material_path(v.as_str());
            out.push(Reference {
                kind: AssetKind::Material,
                key,
                provenance: Provenance::SpriteMaterial { entity_id: e.id, class_name: e.class_name.clone() },
            });
        } else {
            let key = make_model_path(v.as_str());
            out.push(Reference {
                kind: AssetKind::Model,
                key,
                provenance: Provenance::EntityModel { entity_id: e.id, class_name: e.class_name.clone() },
            });
        }
    }
    proof {
        assert(views(o1) =~= views(o0) + opt_ref(
            e.material,
            AssetKind::Material,
            |s: Seq<char>| material_key(s),
            Provenance::EntityProperty { entity_id: e.id, class_name: e.class_name, field: EntityField::Material },
        ));
        assert(views(o2) =~= views(o1) + opt_ref(
            e.texture,
            AssetKind::Material,
            |s: Seq<char>| material_key(s),
            Provenance::EntityProperty { entity_id: e.id, class_name: e.class_name, field: EntityField::Texture },
        ));
        assert(views(out@) =~= views(o0) + property_refs(*e));
    }
}

/// The references of a map, in document order.
pub fn map_references(doc: &MapDocument) -> (r: Vec<Reference>)
    ensures
        views(r@) == map_refs(*doc),
{
    let mut out: Vec<Reference> = Vec::new();
    push_solids_refs(&mut out, &doc.world_solids, &None);
    let mut i: usize = 0;
    while i < doc.entities.len()
        invariant
            i <= doc.entities@.len(),
            views(out@) == solids_refs(doc.world_solids@, None) + entities_refs(doc.entities@.subrange(0, i as int)),
        decreases doc.entities.len() - i,
    {
        let e = &doc.entities[i];
        let owner = Some((e.id, e.class_name.clone()));
        push_solids_refs(&mut out, &e.solids, &owner);
        push_property_refs(&mut out, e);
        proof {
            let sub = doc.entities@.subrange(0, i as int + 1);
            assert(sub.drop_last() == doc.entities@.subrange(0, i as int));
            assert(sub.last() == doc.entities@[i as int]);
        }
        i += 1;
    }
    proof {
        assert(views(Seq::<Reference>::empty()) =~= Seq::<RefView>::empty());
        assert(doc.entities@.subrange(0, doc.entities@.len() as int) == doc.entities@);
    }
    out
}

/// The candidate material references of a model: every material name under
/// every search path, names first.
pub fn model_references(doc: &ModelDocument, model_path: &String) -> (r: Vec<Reference>)
    ensures
        views(r@) == model_refs(doc.material_names@, doc.search_paths@, *model_path),
{
    let mut out: Vec<Reference> = Vec::new();
    let mut i: usize = 0;
    proof {
        assert(views(out@) =~= Seq::<RefView>::empty());
    }
    while i < doc.material_names.len()
        invariant
            i <= doc.material_names@.len(),
            views(out@) == model_refs(doc.material_names@.subrange(0, i as int), doc.search_paths@, *model_path),
        decreases doc.material_names.len() - i,
    {
        let name = &doc.material_names[i];
        let ghost base = out@;
        let ghost row = doc.search_paths@.map_values(
            |p: String|
                RefView {
                    kind: AssetKind::Material,
                    key: model_material_key(p@, name@),
                    why: Provenance::Model { model_path: *model_path },
                },
        );
        let mut j: usize = 0;
        while j < doc.search_paths.len()
            invariant
                j <= doc.search_paths@.len(),
                row == doc.search_paths@.map_values(
                    |p: String|
                        RefView {
                            kind: AssetKind::Material,
                            key: model_material_key(p@, name@),
                            why: Provenance::Model { model_path: *model_path },
                        },
                ),
                views(out@) == views(base) + row.subrange(0, j as int),
            decreases doc.search_paths.len() - j,
        {
            let key = make_model_material_path(doc.search_paths[j].as_str(), name.as_str());
            let ghost o0 = out@;
            out.push(Reference { kind: AssetKind::Material, key, provenance: Provenance::Model { model_path: model_path.clone() } });
            proof {
                assert(views(out@) =~= views(o0).push(out@.last().view()));
                assert(row.subrange(0, j as int + 1) =~= row.subrange(0, j as int).push(row[j as int]));
            }
            j += 1;
        }
        proof {
            assert(row.subrange(0, row.len() as int) == row);
            let sub = doc.material_names@.subrange(0, i as int + 1);
            assert(sub.drop_last() == doc.material_names@.subrange(0, i as int));
            assert(sub.last() == doc.material_names@[i as int]);
        }
        i += 1;
    }
    proof {
        assert(doc.material_names@.subrange(0, doc.material_names@.len() as int) == doc.material_names@);
    }
    out
}

} // verus!

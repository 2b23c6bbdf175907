//! The closure: starting from a map's or a model's references, it asks for the
//! documents of every model and material found in the content roots, collects
//! their references in turn, and stops when nothing new is found. Reading and
//! decoding documents is the caller's part: the collector says what it needs
//! next, and the caller hands the document back.
use vstd::prelude::*;
use vstd::set_lib::lemma_len_subset;
use crate::content::{
    consistent, record, recorded, MaterialDataView, Provenance, SourceContentFile, SourceIndex,
    SourceMaterialData,
};
use crate::documents::{MapDocument, MaterialDocument, ModelDocument};
use crate::materials::{get_material_data, lemma_material_result_stable, material_result, MaterialError, MaterialStore};
use crate::path_map::{flagged_keys, PathMap};
use crate::paths::{ends_with, game_path, is_model_file, make_game_path, mdl_ext};
use crate::references::{
    map_references, map_refs, model_references, model_refs, views, AssetKind, RefView, Reference,
};

verus! {

/// The six sets of a run: used and missing materials, models and textures.
pub struct CollectedContent {
    pub used_materials: PathMap<SourceContentFile>,
    pub missing_materials: PathMap<Provenance>,
    pub used_models: PathMap<SourceContentFile>,
    pub missing_models: PathMap<Provenance>,
    pub used_textures: PathMap<SourceContentFile>,
    pub missing_textures: PathMap<Provenance>,
}

pub struct ContentView {
    pub used_materials: Map<Seq<char>, SourceContentFile>,
    pub missing_materials: Map<Seq<char>, Provenance>,
    pub used_models: Map<Seq<char>, SourceContentFile>,
    pub missing_models: Map<Seq<char>, Provenance>,
    pub used_textures: Map<Seq<char>, SourceContentFile>,
    pub missing_textures: Map<Seq<char>, Provenance>,
}

impl ContentView {
    pub open spec fn empty() -> ContentView {
        ContentView {
            used_materials: Map::empty(),
            missing_materials: Map::empty(),
            used_models: Map::empty(),
            missing_models: Map::empty(),
            used_textures: Map::empty(),
            missing_textures: Map::empty(),
        }
    }

    /// Used entries come from the index; missing keys are keys it lacks.
    pub open spec fn consistent(self, index: Map<Seq<char>, SourceContentFile>) -> bool {
        &&& consistent(self.used_materials, self.missing_materials, index)
        &&& consistent(self.used_models, self.missing_models, index)
        &&& consistent(self.used_textures, self.missing_textures, index)
    }

    /// The used sets of `self` are all kept in `later`.
    pub open spec fn used_kept_in(self, later: ContentView) -> bool {
        &&& self.used_materials <= later.used_materials
        &&& self.used_models <= later.used_models
        &&& self.used_textures <= later.used_textures
    }

    /// `later` holds everything `self` holds: the used entries as they were,
    /// and every missing key.
    pub open spec fn grows_to(self, later: ContentView) -> bool {
        &&& self.used_kept_in(later)
        &&& self.missing_materials.dom() <= later.missing_materials.dom()
        &&& self.missing_models.dom() <= later.missing_models.dom()
        &&& self.missing_textures.dom() <= later.missing_textures.dom()
    }

    /// The material data of one material merged in, its entries winning.
    pub open spec fn absorbed(self, d: MaterialDataView) -> ContentView {
        ContentView {
            used_materials: self.used_materials.union_prefer_right(d.used_materials),
            missing_materials: self.missing_materials.union_prefer_right(d.missing_materials),
            used_textures: self.used_textures.union_prefer_right(d.used_textures),
            missing_textures: self.missing_textures.union_prefer_right(d.missing_textures),
            ..self
        }
    }
}

/// The sets hold a material's data: its used entries as they are, and its
/// missing keys.
pub open spec fn absorbed_in(d: MaterialDataView, c: ContentView) -> bool {
    &&& d.used_materials <= c.used_materials
    &&& d.used_textures <= c.used_textures
    &&& d.missing_materials.dom() <= c.missing_materials.dom()
    &&& d.missing_textures.dom() <= c.missing_textures.dom()
}

pub proof fn lemma_absorbed_in_grows(d: MaterialDataView, c: ContentView, later: ContentView)
    requires
        absorbed_in(d, c),
        c.grows_to(later),
    ensures
        absorbed_in(d, later),
{
    assert forall|k: Seq<char>| #[trigger] d.used_materials.dom().contains(k) implies later.used_materials.dom().contains(k)
        && d.used_materials[k] == later.used_materials[k] by {
        assert(c.used_materials.dom().contains(k));
        assert(d.used_materials[k] == c.used_materials[k]);
        assert(later.used_materials.dom().contains(k));
    }
    assert forall|k: Seq<char>| #[trigger] d.used_textures.dom().contains(k) implies later.used_textures.dom().contains(k)
        && d.used_textures[k] == later.used_textures[k] by {
        assert(c.used_textures.dom().contains(k));
        assert(d.used_textures[k] == c.used_textures[k]);
        assert(later.used_textures.dom().contains(k));
    }
}

pub proof fn lemma_grows_trans(a: ContentView, b: ContentView, c: ContentView)
    requires
        a.grows_to(b),
        b.grows_to(c),
    ensures
        a.grows_to(c),
{
    assert forall|k: Seq<char>| #[trigger] a.used_materials.dom().contains(k) implies c.used_materials.dom().contains(k)
        && a.used_materials[k] == c.used_materials[k] by {
        assert(b.used_materials.dom().contains(k));
    }
    assert forall|k: Seq<char>| #[trigger] a.used_models.dom().contains(k) implies c.used_models.dom().contains(k)
        && a.used_models[k] == c.used_models[k] by {
        assert(b.used_models.dom().contains(k));
        assert(a.used_models[k] == b.used_models[k]);
        assert(c.used_models.dom().contains(k));
        assert(b.used_models[k] == c.used_models[k]);
    }
    assert forall|k: Seq<char>| #[trigger] a.used_textures.dom().contains(k) implies c.used_textures.dom().contains(k)
        && a.used_textures[k] == c.used_textures[k] by {
        assert(b.used_textures.dom().contains(k));
        assert(a.used_textures[k] == b.used_textures[k]);
        assert(c.used_textures.dom().contains(k));
        assert(b.used_textures[k] == c.used_textures[k]);
    }
}

/// One reference recorded into the sets of its kind.
pub open spec fn content_step(c: ContentView, r: RefView, index: Map<Seq<char>, SourceContentFile>) -> ContentView {
    match r.kind {
        AssetKind::Material => {
            let (u, m) = recorded(c.used_materials, c.missing_materials, index, r.key, r.why);
            ContentView { used_materials: u, missing_materials: m, ..c }
        },
        AssetKind::Texture => {
            let (u, m) = recorded(c.used_textures, c.missing_textures, index, r.key, r.why);
            ContentView { used_textures: u, missing_textures: m, ..c }
        },
        AssetKind::Model => {
            let (u, m) = recorded(c.used_models, c.missing_models, index, r.key, r.why);
            ContentView { used_models: u, missing_models: m, ..c }
        },
    }
}

/// A list of references recorded one after the other.
pub open spec fn content_collected(c: ContentView, refs: Seq<RefView>, index: Map<Seq<char>, SourceContentFile>) -> ContentView
    decreases refs.len(),
{
    if refs.len() == 0 {
        c
    } else {
        content_step(content_collected(c, refs.drop_last(), index), refs.last(), index)
    }
}

pub proof fn lemma_collected_consistent(c: ContentView, refs: Seq<RefView>, index: Map<Seq<char>, SourceContentFile>)
    requires
        c.consistent(index),
    ensures
        content_collected(c, refs, index).consistent(index),
        c.used_kept_in(content_collected(c, refs, index)),
        c.grows_to(content_collected(c, refs, index)),
    decreases refs.len(),
{
    if refs.len() > 0 {
        let mid = content_collected(c, refs.drop_last(), index);
        lemma_collected_consistent(c, refs.drop_last(), index);
        let last = content_collected(c, refs, index);
        assert(mid.grows_to(last));
        lemma_grows_trans(c, mid, last);
    }
}

impl CollectedContent {
    pub open spec fn wf(&self) -> bool {
        &&& self.used_materials.wf()
        &&& self.missing_materials.wf()
        &&& self.used_models.wf()
        &&& self.missing_models.wf()
        &&& self.used_textures.wf()
        &&& self.missing_textures.wf()
    }

    pub open spec fn view(&self) -> ContentView {
        ContentView {
            used_materials: self.used_materials@,
            missing_materials: self.missing_materials@,
            used_models: self.used_models@,
            missing_models: self.missing_models@,
            used_textures: self.used_textures@,
            missing_textures: self.missing_textures@,
        }
    }

    pub fn new() -> (r: Self)
        ensures
            r.wf(),
            r@ == ContentView::empty(),
    {
        CollectedContent {
            used_materials: PathMap::new(),
            missing_materials: PathMap::new(),
            used_models: PathMap::new(),
            missing_models: PathMap::new(),
            used_textures: PathMap::new(),
            missing_textures: PathMap::new(),
        }
    }

    /// Records references one after the other, each into the sets of its kind.
    pub fn record_references(&mut self, refs: &Vec<Reference>, index: &SourceIndex)
        requires
            old(self).wf(),
            index.wf(),
        ensures
            final(self).wf(),
            final(self)@ == content_collected(old(self)@, views(refs@), index@),
    {
        let mut i: usize = 0;
        while i < refs.len()
            invariant
                i <= refs@.len(),
                index.wf(),
                self.wf(),
                self@ == content_collected(old(self)@, views(refs@.subrange(0, i as int)), index@),
            decreases refs.len() - i,
        {
            let r = &refs[i];
            match r.kind {
                AssetKind::Material => record(
                    &mut self.used_materials,
                    &mut self.missing_materials,
                    index,
                    r.key.clone(),
                    r.provenance.copy(),
                ),
                AssetKind::Texture => record(
                    &mut self.used_textures,
                    &mut self.missing_textures,
                    index,
                    r.key.clone(),
                    r.provenance.copy(),
                ),
                AssetKind::Model => record(
                    &mut self.used_models,
                    &mut self.missing_models,
                    index,
                    r.key.clone(),
                    r.provenance.copy(),
                ),
            }
            proof {
                let sub = views(refs@.subrange(0, i as int + 1));
                assert(sub.drop_last() =~= views(refs@.subrange(0, i as int)));
                assert(sub.last() == refs@[i as int].view());
            }
            i += 1;
        }
        proof {
            assert(refs@.subrange(0, refs@.len() as int) == refs@);
        }
    }

    /// Merges the material data of one material in, its entries winning.
    pub fn absorb(&mut self, data: SourceMaterialData)
        requires
            old(self).wf(),
            data.wf(),
        ensures
            final(self).wf(),
            final(self)@ == old(self)@.absorbed(data@),
    {
        self.used_materials.extend(data.used_materials);
        self.missing_materials.extend(data.missing_materials);
        self.used_textures.extend(data.used_textures);
        self.missing_textures.extend(data.missing_textures);
    }
}

/// Merging consistent material data keeps the sets consistent, and keeps every
/// used entry as it was.
pub proof fn lemma_absorbed_consistent(c: ContentView, d: MaterialDataView, index: Map<Seq<char>, SourceContentFile>)
    requires
        c.consistent(index),
        d.consistent(index),
    ensures
        c.absorbed(d).consistent(index),
        c.used_kept_in(c.absorbed(d)),
        c.grows_to(c.absorbed(d)),
        absorbed_in(d, c.absorbed(d)),
{
}

/// The game-archive paths of the keys of a missing set, in its order.
pub fn missing_game_paths(missing: &PathMap<Provenance>) -> (r: Vec<String>)
    requires
        missing.wf(),
    ensures
        r@.len() == missing.len_spec(),
        forall|i: int| 0 <= i < r@.len() ==> #[trigger] r@[i]@ == game_path(missing.key_at(i)),
{
    let mut out: Vec<String> = Vec::new();
    let mut i: usize = 0;
    while i < missing.len()
        invariant
            missing.wf(),
            i <= missing.len_spec(),
            out@.len() == i,
            forall|j: int| 0 <= j < i ==> #[trigger] out@[j]@ == game_path(missing.key_at(j)),
        decreases missing.len_spec() - i,
    {
        out.push(make_game_path(missing.key(i).as_str()));
        i += 1;
    }
    out
}

/// Takes out of a missing set the keys that the game archive has: `found`
/// holds, in the set's order, whether the archive has each key's game path.
/// Returns how many were taken out.
pub fn remove_game_content(missing: &mut PathMap<Provenance>, found: &Vec<bool>) -> (removed: usize)
    requires
        old(missing).wf(),
    ensures
        final(missing).wf(),
        final(missing)@ == old(missing)@.remove_keys(flagged_keys(*old(missing), found@)),
        removed == old(missing)@.dom().len() - final(missing)@.dom().len(),
{
    missing.remove_flagged(found)
}

/// A key that a sweep of the game archive took out of a missing set is in none
/// of the used sets, then or in any later state of the run: missing keys are
/// keys that the index lacks, and used entries all come from the index.
pub proof fn lemma_swept_never_used(c: ContentView, later: ContentView, index: Map<Seq<char>, SourceContentFile>, k: Seq<char>)
    requires
        c.consistent(index),
        later.consistent(index),
        c.missing_materials.contains_key(k) || c.missing_models.contains_key(k) || c.missing_textures.contains_key(k),
    ensures
        !later.used_materials.contains_key(k),
        !later.used_models.contains_key(k),
        !later.used_textures.contains_key(k),
{
}

/// Sticky resolution: a used key stays used, with the same file, in every
/// later state of a run (each step keeps the used sets), and is never missing
/// there.
pub proof fn lemma_used_sticky(c: ContentView, later: ContentView, index: Map<Seq<char>, SourceContentFile>, k: Seq<char>)
    requires
        c.consistent(index),
        later.consistent(index),
        c.used_kept_in(later),
        c.used_materials.contains_key(k) || c.used_models.contains_key(k) || c.used_textures.contains_key(k),
    ensures
        c.used_materials.contains_key(k) ==> later.used_materials.contains_key(k)
            && later.used_materials[k] == c.used_materials[k] && !later.missing_materials.contains_key(k),
        c.used_models.contains_key(k) ==> later.used_models.contains_key(k)
            && later.used_models[k] == c.used_models[k] && !later.missing_models.contains_key(k),
        c.used_textures.contains_key(k) ==> later.used_textures.contains_key(k)
            && later.used_textures[k] == c.used_textures[k] && !later.missing_textures.contains_key(k),
{
    if c.used_materials.contains_key(k) {
        assert(c.used_materials.dom().contains(k));
        assert(later.used_materials.dom().contains(k));
    }
    if c.used_models.contains_key(k) {
        assert(c.used_models.dom().contains(k));
        assert(later.used_models.dom().contains(k));
    }
    if c.used_textures.contains_key(k) {
        assert(c.used_textures.dom().contains(k));
        assert(later.used_textures.dom().contains(k));
    }
}

/// What the collector needs next.
pub enum CollectStep {
    /// The model under `key`, at `path`, is to be decoded and handed to `model_read`.
    ReadModel { key: String, path: String },
    /// The material under `key`, at `path`, is to be decoded and handed to `material_read`.
    ReadMaterial { key: String, path: String },
    /// Every used model and material has been processed.
    Finished,
}

/// The closure's state: the index, the decoded materials, the sets found so
/// far, and which used models and materials have been processed.
pub struct ContentCollector {
    index: SourceIndex,
    store: MaterialStore,
    content: CollectedContent,
    models_done: PathMap<()>,
    materials_done: PathMap<()>,
    failures: Vec<(String, MaterialError)>,
}

impl ContentCollector {
    pub closed spec fn index_view(&self) -> Map<Seq<char>, SourceContentFile> {
        self.index@
    }

    pub closed spec fn content_view(&self) -> ContentView {
        self.content@
    }

    pub closed spec fn stored(&self) -> Map<Seq<char>, Option<MaterialDocument>> {
        self.store@
    }

    pub closed spec fn models_done(&self) -> Set<Seq<char>> {
        self.models_done@.dom()
    }

    pub closed spec fn materials_done(&self) -> Set<Seq<char>> {
        self.materials_done@.dom()
    }

    pub closed spec fn failure_list(&self) -> Seq<(String, MaterialError)> {
        self.failures@
    }

    /// A material whose patch chain fails for good, with `e` as the reason.
    pub open spec fn fails_with(&self, k: Seq<char>, e: MaterialError) -> bool {
        &&& self.materials_done().contains(k)
        &&& self.stored().contains_key(k)
        &&& self.stored()[k] is Some
        &&& !(e is PatchBaseNotLoaded)
        &&& material_result(
            self.stored()[k]->Some_0,
            self.index_view()[k].full_path,
            self.index_view(),
            self.stored(),
            self.index_view().dom().len(),
        ) == Err::<(MaterialDataView, Seq<crate::documents::MaterialParameter>), _>(e@)
    }

    pub closed spec fn wf(&self) -> bool {
        &&& self.index.wf()
        &&& self.store.wf()
        &&& self.content.wf()
        &&& self.models_done.wf()
        &&& self.materials_done.wf()
        &&& self.content@.consistent(self.index@)
        &&& self.store@.dom() <= self.index@.dom()
        &&& self.models_done@.dom() <= self.content@.used_models.dom()
        &&& self.materials_done@.dom() <= self.content@.used_materials.dom()
        &&& self.materials_done@.dom() <= self.store@.dom()
        &&& forall|k: Seq<char>| #[trigger] self.materials_done@.dom().contains(k) ==> self.settled(k)
        &&& forall|i: int| 0 <= i < self.failures@.len() ==> self.fails_with(
            (#[trigger] self.failures@[i]).0@,
            self.failures@[i].1,
        )
    }

    /// The work left: it falls with every document handed back, and no step
    /// raises it.
    pub closed spec fn measure(&self) -> nat {
        let n = self.index@.dom().len();
        ((n - self.store@.dom().len()) + (n - self.models_done@.dom().len()) + (n
            - self.materials_done@.dom().len())) as nat
    }

    /// A processed material is settled: its document was handed back, and where
    /// it could be decoded, its patch chain either failed for good or its data
    /// is in the sets.
    pub open spec fn settled(&self, k: Seq<char>) -> bool {
        &&& self.stored().contains_key(k)
        &&& self.stored()[k] is Some ==> {
            let r = material_result(
                self.stored()[k]->Some_0,
                self.index_view()[k].full_path,
                self.index_view(),
                self.stored(),
                self.index_view().dom().len(),
            );
            &&& !(r is Err && r->Err_0 is PatchBaseNotLoaded)
            &&& r is Ok ==> absorbed_in(r->Ok_0.0, self.content_view())
        }
    }

    /// A used model whose document has not been handed back yet.
    pub open spec fn awaits_model(&self, key: Seq<char>) -> bool {
        self.content_view().used_models.contains_key(key) && !self.models_done().contains(key)
    }

    /// An indexed material whose document has not been handed back yet.
    pub open spec fn awaits_material(&self, key: Seq<char>) -> bool {
        self.index_view().contains_key(key) && !self.stored().contains_key(key)
    }

    proof fn lemma_bounds(&self)
        requires
            self.wf(),
        ensures
            self.index@.dom().finite(),
            self.store@.dom().len() <= self.index@.dom().len(),
            self.models_done@.dom().len() <= self.index@.dom().len(),
            self.materials_done@.dom().len() <= self.index@.dom().len(),
    {
        self.index.lemma_wf_facts();
        self.store.lemma_wf_facts();
        self.models_done.lemma_wf_facts();
        self.materials_done.lemma_wf_facts();
        lemma_len_subset(self.store@.dom(), self.index@.dom());
        assert(self.content@.used_models.dom() <= self.index@.dom());
        assert(self.content@.used_materials.dom() <= self.index@.dom());
        lemma_len_subset(self.models_done@.dom(), self.index@.dom());
        lemma_len_subset(self.materials_done@.dom(), self.index@.dom());
    }

    proof fn lemma_settled_kept(a: Self, b: Self, k: Seq<char>)
        requires
            a.index@ == b.index@,
            a.store@ <= b.store@,
            a.content@.grows_to(b.content@),
            a.settled(k),
        ensures
            b.settled(k),
    {
        assert(a.store@.dom().contains(k));
        assert(b.store@.dom().contains(k));
        assert(a.store@[k] == b.store@[k]);
        if a.store@[k] is Some {
            let fuel = a.index@.dom().len();
            let p = a.index@[k].full_path;
            lemma_material_result_stable(a.store@[k]->Some_0, p, a.index@, a.store@, b.store@, fuel);
            let r = material_result(a.store@[k]->Some_0, p, a.index@, a.store@, fuel);
            if r is Ok {
                lemma_absorbed_in_grows(r->Ok_0.0, a.content@, b.content@);
            }
        }
    }

    proof fn lemma_failure_kept(a: Self, b: Self, k: Seq<char>, e: MaterialError)
        requires
            a.index@ == b.index@,
            a.store@ <= b.store@,
            a.materials_done@.dom() <= b.materials_done@.dom(),
            a.fails_with(k, e),
        ensures
            b.fails_with(k, e),
    {
        assert(a.store@.dom().contains(k));
        assert(b.store@.dom().contains(k));
        assert(a.store@[k] == b.store@[k]);
        lemma_material_result_stable(
            a.store@[k]->Some_0,
            a.index@[k].full_path,
            a.index@,
            a.store@,
            b.store@,
            a.index@.dom().len(),
        );
    }

    /// The work left is bounded by three times the size of the index, so a
    /// run that hands back every document asked for comes to an end.
    pub proof fn lemma_measure_bounded(&self)
        requires
            self.wf(),
        ensures
            self.measure() <= 3 * self.index_view().dom().len(),
    {
        self.lemma_bounds();
    }

    /// Starts a run on a map: its references recorded against the index.
    pub fn for_map(index: SourceIndex, doc: &MapDocument) -> (r: Self)
        requires
            index.wf(),
        ensures
            r.wf(),
            r.index_view() == index@,
            r.content_view() == content_collected(ContentView::empty(), map_refs(*doc), index@),
            r.stored() == Map::<Seq<char>, Option<MaterialDocument>>::empty(),
            r.models_done() == Set::<Seq<char>>::empty(),
            r.materials_done() == Set::<Seq<char>>::empty(),
    {
        let refs = map_references(doc);
        let mut content = CollectedContent::new();
        content.record_references(&refs, &index);
        proof {
            lemma_collected_consistent(ContentView::empty(), views(refs@), index@);
        }
        Self::start(index, content)
    }

    /// Starts a run on a model at `model_path`, with its decoded document
    /// (`None` where it could not be decoded). Only a compiled model file
    /// (`.mdl`) has references.
    pub fn for_model(index: SourceIndex, model_path: &String, doc: Option<&ModelDocument>) -> (r: Self)
        requires
            index.wf(),
        ensures
            r.wf(),
            r.index_view() == index@,
            r.content_view() == match doc {
                Some(d) if ends_with(model_path@, mdl_ext()) => content_collected(
                    ContentView::empty(),
                    model_refs(d.material_names@, d.search_paths@, *model_path),
                    index@,
                ),
                _ => ContentView::empty(),
            },
            r.stored() == Map::<Seq<char>, Option<MaterialDocument>>::empty(),
            r.models_done() == Set::<Seq<char>>::empty(),
            r.materials_done() == Set::<Seq<char>>::empty(),
    {
        let mut content = CollectedContent::new();
        if let Some(d) = doc {
            if is_model_file(model_path.as_str()) {
                let refs = model_references(d, model_path);
                content.record_references(&refs, &index);
                proof {
                    lemma_collected_consistent(ContentView::empty(), views(refs@), index@);
                }
            }
        }
        Self::start(index, content)
    }

    fn start(index: SourceIndex, content: CollectedContent) -> (r: Self)
        requires
            index.wf(),
            content.wf(),
            content@.consistent(index@),
        ensures
            r.wf(),
            r.index_view() == index@,
            r.content_view() == content@,
            r.stored() == Map::<Seq<char>, Option<MaterialDocument>>::empty(),
            r.models_done() == Set::<Seq<char>>::empty(),
            r.materials_done() == Set::<Seq<char>>::empty(),
    {
        let r = ContentCollector {
            index,
            store: PathMap::new(),
            content,
            models_done: PathMap::new(),
            materials_done: PathMap::new(),
            failures: Vec::new(),
        };
        proof {
            assert(r.models_done@.dom() =~= Set::<Seq<char>>::empty());
            assert(r.materials_done@.dom() =~= Set::<Seq<char>>::empty());
            assert(r.store@.dom() =~= Set::<Seq<char>>::empty());
        }
        r
    }

    /// Processes what can be processed without a document from outside, and
    /// says what is needed next. Used models that are not compiled model files
    /// are done without a document; a used material whose document (and that
    /// of each base in its patch chain) is at hand has its references collected
    /// and merged in; one whose patch chain fails is done, and the failure kept.
    pub fn advance(&mut self) -> (r: CollectStep)
        requires
            old(self).wf(),
        ensures
            final(self).wf(),
            final(self).index_view() == old(self).index_view(),
            final(self).stored() == old(self).stored(),
            old(self).content_view().grows_to(final(self).content_view()),
            old(self).models_done() <= final(self).models_done(),
            old(self).materials_done() <= final(self).materials_done(),
            final(self).measure() <= old(self).measure(),
            match r {
                CollectStep::ReadModel { key, path } => final(self).awaits_model(key@)
                    && path == final(self).content_view().used_models[key@].full_path,
                CollectStep::ReadMaterial { key, path } => final(self).awaits_material(key@)
                    && path == final(self).index_view()[key@].full_path,
                CollectStep::Finished => final(self).content_view().used_models.dom() <= final(self).models_done()
                    && final(self).content_view().used_materials.dom() <= final(self).materials_done()
                    && forall|k: Seq<char>| #[trigger] final(self).content_view().used_materials.contains_key(k)
                        ==> final(self).settled(k),
            },
    {
        proof {
            self.lemma_bounds();
        }
        let mut i: usize = 0;
        while i < self.content.used_models.len()
            invariant
                self.wf(),
                self.index@ == old(self).index@,
                self.store@ == old(self).store@,
                self.content@ == old(self).content@,
                self.materials_done@ == old(self).materials_done@,
                old(self).models_done@.dom() <= self.models_done@.dom(),
                self.measure() <= old(self).measure(),
                i <= self.content.used_models.len_spec(),
                forall|j: int| 0 <= j < i ==> #[trigger] self.models_done@.contains_key(
                    self.content.used_models.key_at(j),
                ),
            decreases self.content.used_models.len_spec() - i,
        {
            let key = self.content.used_models.key(i).clone();
            if !self.models_done.contains_key(&key) {
                let path = self.content.used_models.value(i).full_path.clone();
                if is_model_file(path.as_str()) {
                    proof {
                        self.lemma_bounds();
                    }
                    return CollectStep::ReadModel { key, path };
                }
                let ghost before = self.models_done@.dom();
                self.models_done.insert(key, ());
                proof {
                    self.content.used_models.lemma_wf_facts();
                    self.models_done.lemma_wf_facts();
                    assert(self.models_done@.dom() =~= before.insert(key@));
                    self.lemma_bounds();
                }
            }
            i += 1;
        }
        proof {
            self.content.used_models.lemma_wf_facts();
            self.lemma_bounds();
        }
        let ghost mid = *self;
        proof {
            assert(mid.content@ == old(self).content@);
            assert(mid.content@.grows_to(mid.content@));
            assert(old(self).models_done@.dom() <= mid.models_done@.dom());
        }
        let mut i: usize = 0;
        while i < self.content.used_materials.len()
            invariant
                self.wf(),
                self.index@ == old(self).index@,
                self.store@ == old(self).store@,
                self.models_done@ == mid.models_done@,
                self.content@.used_models == mid.content@.used_models,
                self.content@.used_models.dom() <= self.models_done@.dom(),
                mid.content@.grows_to(self.content@),
                old(self).content@.grows_to(self.content@),
                old(self).models_done@.dom() <= self.models_done@.dom(),
                old(self).materials_done@.dom() <= self.materials_done@.dom(),
                mid.measure() <= old(self).measure(),
                self.measure() <= mid.measure(),
                i <= self.content.used_materials.len_spec(),
                forall|j: int| 0 <= j < i ==> #[trigger] self.materials_done@.contains_key(
                    self.content.used_materials.key_at(j),
                ),
            decreases
                self.index@.dom().len() - self.materials_done@.dom().len(),
                self.content.used_materials.len_spec() - i,
        {
            proof {
                self.lemma_bounds();
            }
            let key = self.content.used_materials.key(i).clone();
            if !self.materials_done.contains_key(&key) {
                proof {
                    self.content.used_materials.lemma_wf_facts();
                }
                let path = self.content.used_materials.value(i).full_path.clone();
                match self.store.get(&key) {
                    None => {
                        proof {
                            assert(old(self).content@.grows_to(self.content@));
                            assert(old(self).models_done@.dom() <= self.models_done@.dom());
                        }
                        return CollectStep::ReadMaterial { key, path };
                    },
                    Some(None) => {
                        let ghost before = self.materials_done@.dom();
                        let ghost kk = key@;
                        self.materials_done.insert(key, ());
                        proof {
                            self.materials_done.lemma_wf_facts();
                            assert(self.materials_done@.dom() =~= before.insert(kk));
                            assert(self.settled(kk));
                            assert forall|k: Seq<char>| #[trigger] self.materials_done@.dom().contains(k) implies self.settled(k) by {
                                if k != kk {
                                    assert(before.contains(k));
                                }
                            }
                            self.lemma_bounds();
                        }
                        i += 1;
                    },
                    Some(Some(doc)) => {
                        match get_material_data(doc, &path, &self.index, &self.store) {
                            Ok(data) => {
                                proof {
                                    let ghost fuel = self.index@.dom().len();
                                    lemma_material_result_consistent(*doc, path, self.index@, self.store@, fuel);
                                    lemma_absorbed_consistent(self.content@, data@, self.index@);
                                }
                                let ghost pre = *self;
                                let ghost dv = data@;
                                self.content.absorb(data);
                                let ghost before = self.materials_done@.dom();
                                let ghost kk = key@;
                                self.materials_done.insert(key, ());
                                proof {
                                    assert(self.materials_done@.dom() =~= before.insert(kk));
                                    assert(pre.content@.grows_to(self.content@));
                                    lemma_grows_trans(old(self).content@, pre.content@, self.content@);
                                    lemma_grows_trans(mid.content@, pre.content@, self.content@);
                                    assert(absorbed_in(dv, self.content@));
                                    assert(self.settled(kk));
                                    assert forall|k: Seq<char>| #[trigger] self.materials_done@.dom().contains(k) implies self.settled(k) by {
                                        if k != kk {
                                            assert(before.contains(k));
                                            Self::lemma_settled_kept(pre, *self, k);
                                        }
                                    }
                                    self.materials_done.lemma_wf_facts();
                                    self.lemma_bounds();
                                }
                                i = 0;
                            },
                            Err(MaterialError::PatchBaseNotLoaded { key: base }) => {
                                proof {
                                    lemma_material_result_not_loaded(*doc, path, self.index@, self.store@, self.index@.dom().len(), base@);
                                }
                                let base_path = match self.index.get(&base) {
                                    Some(f) => f.full_path.clone(),
                                    None => path,
                                };
                                return CollectStep::ReadMaterial { key: base, path: base_path };
                            },
                            Err(e) => {
                                self.failures.push((key.clone(), e));
                                let ghost before = self.materials_done@.dom();
                                let ghost kk = key@;
                                self.materials_done.insert(key, ());
                                proof {
                                    assert(self.materials_done@.dom() =~= before.insert(kk));
                                    assert(self.settled(kk));
                                    assert forall|k: Seq<char>| #[trigger] self.materials_done@.dom().contains(k) implies self.settled(k) by {
                                        if k != kk {
                                            assert(before.contains(k));
                                        }
                                    }
                                    self.materials_done.lemma_wf_facts();
                                    self.lemma_bounds();
                                }
                                i += 1;
                            },
                        }
                    },
                }
            } else {
                i += 1;
            }
        }
        proof {
            self.content.used_materials.lemma_wf_facts();
        }
        CollectStep::Finished
    }

    /// Hands back the document of a model that `advance` asked for (`None`
    /// where it could not be decoded): its references are recorded, and the
    /// model is done. A key that is not awaited changes nothing.
    pub fn model_read(&mut self, key: &String, doc: Option<ModelDocument>)
        requires
            old(self).wf(),
        ensures
            final(self).wf(),
            final(self).index_view() == old(self).index_view(),
            final(self).stored() == old(self).stored(),
            final(self).materials_done() == old(self).materials_done(),
            old(self).content_view().grows_to(final(self).content_view()),
            if old(self).awaits_model(key@) {
                &&& final(self).models_done() == old(self).models_done().insert(key@)
                &&& final(self).measure() < old(self).measure()
                &&& final(self).content_view() == match doc {
                    Some(d) if ends_with(old(self).content_view().used_models[key@].full_path@, mdl_ext()) =>
                        content_collected(
                            old(self).content_view(),
                            model_refs(d.material_names@, d.search_paths@, old(self).content_view().used_models[key@].full_path),
                            old(self).index_view(),
                        ),
                    _ => old(self).content_view(),
                }
            } else {
                &&& final(self).models_done() == old(self).models_done()
                &&& final(self).content_view() == old(self).content_view()
            },
    {
        proof {
            self.lemma_bounds();
        }
        let path = match self.content.used_models.get(key) {
            Some(f) => f.full_path.clone(),
            None => {
                return;
            },
        };
        if self.models_done.contains_key(key) {
            return;
        }
        let ghost pre = *self;
        if let Some(d) = &doc {
            if is_model_file(path.as_str()) {
                let refs = model_references(d, &path);
                proof {
                    lemma_collected_consistent(self.content@, views(refs@), self.index@);
                }
                self.content.record_references(&refs, &self.index);
            }
        }
        self.models_done.insert(key.clone(), ());
        proof {
            assert forall|k: Seq<char>| #[trigger] self.materials_done@.dom().contains(k) implies self.settled(k) by {
                Self::lemma_settled_kept(pre, *self, k);
            }
            self.models_done.lemma_wf_facts();
            old(self).models_done.lemma_wf_facts();
            self.lemma_bounds();
            assert(self.models_done@.dom() =~= old(self).models_done@.dom().insert(key@));
        }
    }

    /// Hands back the document of a material that `advance` asked for (`None`
    /// where it could not be read or decoded). A key that is not awaited
    /// changes nothing.
    pub fn material_read(&mut self, key: String, doc: Option<MaterialDocument>)
        requires
            old(self).wf(),
        ensures
            final(self).wf(),
            final(self).index_view() == old(self).index_view(),
            final(self).content_view() == old(self).content_view(),
            final(self).models_done() == old(self).models_done(),
            final(self).materials_done() == old(self).materials_done(),
            if old(self).awaits_material(key@) {
                &&& final(self).stored() == old(self).stored().insert(key@, doc)
                &&& final(self).measure() < old(self).measure()
            } else {
                final(self).stored() == old(self).stored()
            },
    {
        proof {
            self.lemma_bounds();
        }
        if !self.index.contains_key(&key) || self.store.contains_key(&key) {
            return;
        }
        let ghost pre = *self;
        let ghost kk = key@;
        let ghost dd = doc;
        self.store.insert(key, doc);
        proof {
            assert(pre.store@ <= self.store@);
            assert forall|k: Seq<char>| #[trigger] self.materials_done@.dom().contains(k) implies self.settled(k) by {
                Self::lemma_settled_kept(pre, *self, k);
            }
            self.store.lemma_wf_facts();
            old(self).store.lemma_wf_facts();
            assert(self.store@.dom() =~= old(self).store@.dom().insert(kk));
            assert forall|k: Seq<char>| self.store@.dom().contains(k) implies self.index@.dom().contains(k) by {
                if k != kk {
                    assert(pre.store@.dom().contains(k));
                }
            }
            assert forall|k: Seq<char>| self.materials_done@.dom().contains(k) implies self.store@.dom().contains(k) by {
                assert(pre.store@.dom().contains(k));
            }
            assert forall|i: int| 0 <= i < self.failures@.len() implies self.fails_with(
                (#[trigger] self.failures@[i]).0@,
                self.failures@[i].1,
            ) by {
                Self::lemma_failure_kept(pre, *self, self.failures@[i].0@, self.failures@[i].1);
            }
            self.lemma_bounds();
        }
    }

    /// The sets found so far.
    pub fn content(&self) -> (r: &CollectedContent)
        requires
            self.wf(),
        ensures
            r.wf(),
            r@ == self.content_view(),
            r@.consistent(self.index_view()),
    {
        &self.content
    }

    /// The materials whose patch chain failed, with why.
    pub fn failures(&self) -> (r: &Vec<(String, MaterialError)>)
        requires
            self.wf(),
        ensures
            r@ == self.failure_list(),
            forall|i: int| 0 <= i < r@.len() ==> self.fails_with((#[trigger] r@[i]).0@, r@[i].1),
    {
        &self.failures
    }

    /// Ends the run and hands over the sets.
    pub fn finish(self) -> (r: CollectedContent)
        requires
            self.wf(),
        ensures
            r.wf(),
            r@ == self.content_view(),
            r@.consistent(self.index_view()),
    {
        self.content
    }
}

/// Collecting a material's references keeps its sets consistent with the index.
pub proof fn lemma_material_result_consistent(
    doc: MaterialDocument,
    material_path: String,
    index: Map<Seq<char>, SourceContentFile>,
    store: Map<Seq<char>, Option<MaterialDocument>>,
    fuel: nat,
)
    ensures
        material_result(doc, material_path, index, store, fuel) is Ok ==> material_result(
            doc,
            material_path,
            index,
            store,
            fuel,
        )->Ok_0.0.consistent(index),
    decreases fuel,
{
    match doc {
        MaterialDocument::Shader { parameters } => {
            lemma_data_collected_consistent(MaterialDataView::empty(), crate::materials::parameters_refs(parameters@, material_path), index);
        },
        MaterialDocument::Patch { base, insert, replace } => {
            let k = crate::paths::patch_base_key(base@);
            if index.contains_key(k) && store.contains_key(k) && store[k] is Some && fuel > 0 {
                let f = index[k];
                lemma_material_result_consistent(store[k]->Some_0, f.full_path, index, store, (fuel - 1) as nat);
                match material_result(store[k]->Some_0, f.full_path, index, store, (fuel - 1) as nat) {
                    Ok((base_data, base_params)) => {
                        let params = crate::materials::patched(base_params, insert@, replace@);
                        let start = MaterialDataView {
                            used_materials: Map::empty().insert(k, f),
                            ..MaterialDataView::empty()
                        }.merged(base_data);
                        lemma_data_collected_consistent(start, crate::materials::parameters_refs(params, material_path), index);
                    },
                    Err(_) => {},
                }
            }
        },
    }
}

pub proof fn lemma_data_collected_consistent(d: MaterialDataView, refs: Seq<RefView>, index: Map<Seq<char>, SourceContentFile>)
    requires
        d.consistent(index),
    ensures
        crate::materials::collected(d, refs, index).consistent(index),
    decreases refs.len(),
{
    if refs.len() > 0 {
        lemma_data_collected_consistent(d, refs.drop_last(), index);
    }
}

/// A patch base that is "not loaded" is indexed and not in the store.
pub proof fn lemma_material_result_not_loaded(
    doc: MaterialDocument,
    material_path: String,
    index: Map<Seq<char>, SourceContentFile>,
    store: Map<Seq<char>, Option<MaterialDocument>>,
    fuel: nat,
    k: Seq<char>,
)
    requires
        material_result(doc, material_path, index, store, fuel) == Err::<(MaterialDataView, Seq<crate::documents::MaterialParameter>), _>(
            crate::materials::MaterialErrorView::PatchBaseNotLoaded { key: k },
        ),
    ensures
        index.contains_key(k),
        !store.contains_key(k),
    decreases fuel,
{
    match doc {
        MaterialDocument::Shader { .. } => {},
        MaterialDocument::Patch { base, insert, replace } => {
            let kb = crate::paths::patch_base_key(base@);
            if index.contains_key(kb) && store.contains_key(kb) && store[kb] is Some && fuel > 0 {
                lemma_material_result_not_loaded(store[kb]->Some_0, index[kb].full_path, index, store, (fuel - 1) as nat, k);
            }
        },
    }
}

} // verus!

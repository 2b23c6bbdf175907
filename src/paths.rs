//! Reference keys: the lower-case, backslash-separated form under which every
//! content file is indexed and looked up.
use vstd::prelude::*;

verus! {

/// What `str::to_lowercase` returns for a string.
pub uninterp spec fn lower_of(s: Seq<char>) -> Seq<char>;

/// Relies on `str::to_lowercase`: the result depends on the characters alone.
#[verifier::external_body]
pub(crate) fn lowercase(s: &str) -> (r: String)
    ensures
        r@ == lower_of(s@),
{
    s.to_lowercase()
}

/// The characters of a string, in order.
pub(crate) fn chars_of(s: &str) -> (r: Vec<char>)
    ensures
        r@ == s@,
{
    let n = s.unicode_len();
    let mut r: Vec<char> = Vec::new();
    let mut i: usize = 0;
    while i < n
        invariant
            n == s@.len(),
            i <= n,
            r@ == s@.subrange(0, i as int),
        decreases n - i,
    {
        r.push(s.get_char(i));
        proof {
            assert(s@.subrange(0, i as int + 1) == s@.subrange(0, i as int).push(s@[i as int]));
        }
        i += 1;
    }
    proof {
        assert(s@.subrange(0, n as int) == s@);
    }
    r
}

/// Relies on `String: FromIterator<char>`: the string of the given characters.
#[verifier::external_body]
pub(crate) fn string_of(v: &Vec<char>) -> (r: String)
    ensures
        r@ == v@,
{
    v.iter().collect()
}

/// `s` with every character `from` replaced by `to`.
pub open spec fn swap_char(s: Seq<char>, from: char, to: char) -> Seq<char> {
    s.map_values(|c: char| if c == from { to } else { c })
}

/// Forward slashes turned into backslashes.
pub open spec fn backslashed(s: Seq<char>) -> Seq<char> {
    swap_char(s, '/', '\\')
}

/// Backslashes turned into forward slashes.
pub open spec fn forward_slashed(s: Seq<char>) -> Seq<char> {
    swap_char(s, '\\', '/')
}

/// One pass of the key transform: backslash-separated, then lower-cased.
pub open spec fn lowered(s: Seq<char>) -> Seq<char> {
    lower_of(backslashed(s))
}

/// The reference key of a relative path: one pass of the transform, taken when
/// a second pass leaves it as it is. The documentation of `str::to_lowercase`
/// does not say that lower-casing is stable after one pass; where it were not,
/// the path is kept as given, so that a key is always its own key.
pub open spec fn normalized(s: Seq<char>) -> Seq<char> {
    if lowered(lowered(s)) == lowered(s) {
        lowered(s)
    } else {
        s
    }
}

/// `p` with the extension `ext` added unless it already ends with it.
pub open spec fn with_extension(p: Seq<char>, ext: Seq<char>) -> Seq<char> {
    if ends_with(p, ext) {
        p
    } else {
        p + ext
    }
}

pub open spec fn ends_with(s: Seq<char>, suffix: Seq<char>) -> bool {
    suffix.len() <= s.len() && s.subrange(s.len() - suffix.len(), s.len() as int) == suffix
}

pub open spec fn materials_prefix() -> Seq<char> {
    seq!['m', 'a', 't', 'e', 'r', 'i', 'a', 'l', 's', '\\']
}

pub open spec fn vmt_ext() -> Seq<char> {
    seq!['.', 'v', 'm', 't']
}

pub open spec fn vtf_ext() -> Seq<char> {
    seq!['.', 'v', 't', 'f']
}

pub open spec fn mdl_ext() -> Seq<char> {
    seq!['.', 'm', 'd', 'l']
}

/// The key of a material named as maps and materials name it (relative to
/// `materials`, extension optional).
pub open spec fn material_key(name: Seq<char>) -> Seq<char> {
    with_extension(normalized(materials_prefix() + name), vmt_ext())
}

/// The key of a texture named as materials name it.
pub open spec fn texture_key(name: Seq<char>) -> Seq<char> {
    with_extension(normalized(materials_prefix() + name), vtf_ext())
}

/// The key of a brush face's material: its name is always given without extension.
pub open spec fn face_material_key(name: Seq<char>) -> Seq<char> {
    materials_prefix() + normalized(name) + vmt_ext()
}

/// The key of a material that a model names, under one of its search paths.
pub open spec fn model_material_key(search_path: Seq<char>, name: Seq<char>) -> Seq<char> {
    normalized(materials_prefix() + search_path + name + vmt_ext())
}

/// The key of the base material that a patch material names (relative to the
/// content root, extension optional).
pub open spec fn patch_base_key(base: Seq<char>) -> Seq<char> {
    with_extension(normalized(base), vmt_ext())
}

/// The path under which the game archive is asked for a key.
pub open spec fn game_path(key: Seq<char>) -> Seq<char> {
    lower_of(forward_slashed(key))
}

fn swap_chars(v: &Vec<char>, from: char, to: char) -> (r: Vec<char>)
    ensures
        r@ == swap_char(v@, from, to),
{
    let mut r: Vec<char> = Vec::new();
    let mut i: usize = 0;
    while i < v.len()
        invariant
            i <= v.len(),
            r@ == swap_char(v@.subrange(0, i as int), from, to),
        decreases v.len() - i,
    {
        let c = v[i];
        r.push(if c == from { to } else { c });
        proof {
            assert(v@.subrange(0, i as int + 1) == v@.subrange(0, i as int).push(c));
        }
        i += 1;
    }
    proof {
        assert(v@.subrange(0, v@.len() as int) == v@);
    }
    r
}

fn chars_end_with(v: &Vec<char>, suffix: &Vec<char>) -> (r: bool)
    ensures
        r == ends_with(v@, suffix@),
{
    if suffix.len() > v.len() {
        return false;
    }
    let start = v.len() - suffix.len();
    let mut i: usize = 0;
    while i < suffix.len()
        invariant
            start == v.len() - suffix.len(),
            i <= suffix.len(),
            forall|j: int| 0 <= j < i ==> v@[start + j] == suffix@[j],
        decreases suffix.len() - i,
    {
        if v[start + i] != suffix[i] {
            proof {
                assert(v@.subrange(start as int, v@.len() as int)[i as int] != suffix@[i as int]);
            }
            return false;
        }
        i += 1;
    }
    proof {
        assert(v@.subrange(start as int, v@.len() as int) =~= suffix@);
    }
    true
}

/// Whether `s` ends with `suffix`.
pub fn str_ends_with(s: &str, suffix: &str) -> (r: bool)
    ensures
        r == ends_with(s@, suffix@),
{
    chars_end_with(&chars_of(s), &chars_of(suffix))
}

fn join_chars(a: &Vec<char>, b: &Vec<char>) -> (r: Vec<char>)
    ensures
        r@ == a@ + b@,
{
    let mut r = a.clone();
    let mut i: usize = 0;
    while i < b.len()
        invariant
            i <= b.len(),
            r@ == a@ + b@.subrange(0, i as int),
        decreases b.len() - i,
    {
        r.push(b[i]);
        proof {
            assert(b@.subrange(0, i as int + 1) == b@.subrange(0, i as int).push(b@[i as int]));
        }
        i += 1;
    }
    proof {
        assert(b@.subrange(0, b@.len() as int) == b@);
    }
    r
}

/// The concatenation of two strings.
pub fn join_str(a: &str, b: &str) -> (r: String)
    ensures
        r@ == a@ + b@,
{
    string_of(&join_chars(&chars_of(a), &chars_of(b)))
}

fn swapped(s: &str, from: char, to: char) -> (r: String)
    ensures
        r@ == swap_char(s@, from, to),
{
    string_of(&swap_chars(&chars_of(s), from, to))
}

fn add_extension(p: String, ext: &str) -> (r: String)
    ensures
        r@ == with_extension(p@, ext@),
{
    if str_ends_with(p.as_str(), ext) {
        p
    } else {
        join_str(p.as_str(), ext)
    }
}

fn materials_str() -> (r: &'static str)
    ensures
        r@ == materials_prefix(),
{
    let r = "materials\\";
    proof {
        reveal_strlit("materials\\");
    }
    r
}

fn vmt_str() -> (r: &'static str)
    ensures
        r@ == vmt_ext(),
{
    proof {
        reveal_strlit(".vmt");
    }
    ".vmt"
}

fn vtf_str() -> (r: &'static str)
    ensures
        r@ == vtf_ext(),
{
    proof {
        reveal_strlit(".vtf");
    }
    ".vtf"
}

fn lower_pass(path: &str) -> (r: String)
    ensures
        r@ == lowered(path@),
{
    let slashed = swapped(path, '/', '\\');
    lowercase(slashed.as_str())
}

/// The reference key of a path relative to a content root.
pub fn normalize(path: &str) -> (r: String)
    ensures
        r@ == normalized(path@),
{
    let once = lower_pass(path);
    let twice = lower_pass(once.as_str());
    if twice == once {
        once
    } else {
        path.to_string()
    }
}

/// Creates the key of a material from its name.
pub fn make_material_path(material_name: &str) -> (r: String)
    ensures
        r@ == material_key(material_name@),
{
    let joined = join_str(materials_str(), material_name);
    add_extension(normalize(joined.as_str()), vmt_str())
}

/// Creates the key of a texture from its name.
pub fn make_texture_path(texture_name: &str) -> (r: String)
    ensures
        r@ == texture_key(texture_name@),
{
    let joined = join_str(materials_str(), texture_name);
    add_extension(normalize(joined.as_str()), vtf_str())
}

/// Creates the key of a model from its path.
pub fn make_model_path(model_name: &str) -> (r: String)
    ensures
        r@ == normalized(model_name@),
{
    normalize(model_name)
}

/// Creates the key of a brush face's material.
pub fn make_face_material_path(material_name: &str) -> (r: String)
    ensures
        r@ == face_material_key(material_name@),
{
    let n = normalize(material_name);
    let joined = join_str(materials_str(), n.as_str());
    join_str(joined.as_str(), vmt_str())
}

/// Creates the key of a material that a model names under one of its search paths.
pub fn make_model_material_path(search_path: &str, material_name: &str) -> (r: String)
    ensures
        r@ == model_material_key(search_path@, material_name@),
{
    let a = join_str(materials_str(), search_path);
    let b = join_str(a.as_str(), material_name);
    let c = join_str(b.as_str(), vmt_str());
    normalize(c.as_str())
}

/// Creates the key of the base material that a patch material names.
pub fn make_patch_base_path(base_name: &str) -> (r: String)
    ensures
        r@ == patch_base_key(base_name@),
{
    add_extension(normalize(base_name), vmt_str())
}

/// The path under which the game archive is asked for a key.
pub fn make_game_path(key: &str) -> (r: String)
    ensures
        r@ == game_path(key@),
{
    let slashed = swapped(key, '\\', '/');
    lowercase(slashed.as_str())
}

/// Whether a path names a compiled model file.
pub fn is_model_file(path: &str) -> (r: bool)
    ensures
        r == ends_with(path@, mdl_ext()),
{
    let ext = ".mdl";
    proof {
        reveal_strlit(".mdl");
        assert(ext@ =~= mdl_ext());
    }
    str_ends_with(path, ext)
}

/// Normalizing a key gives the key back.
pub proof fn lemma_normalize_idempotent(r: Seq<char>)
    ensures
        normalized(normalized(r)) == normalized(r),
{
    if lowered(lowered(r)) == lowered(r) {
        let k = lowered(r);
        assert(lowered(k) == k);
        assert(lowered(lowered(k)) == lowered(k));
    }
}

} // verus!

verus! {

/// Whether two strings have the same characters.
pub fn str_eq(a: &str, b: &str) -> (r: bool)
    ensures
        r == (a@ == b@),
{
    let x = chars_of(a);
    let y = chars_of(b);
    if x.len() != y.len() {
        return false;
    }
    let mut i: usize = 0;
    while i < x.len()
        invariant
            x@ == a@,
            y@ == b@,
            x@.len() == y@.len(),
            i <= x@.len(),
            forall|j: int| 0 <= j < i ==> x@[j] == y@[j],
        decreases x.len() - i,
    {
        if x[i] != y[i] {
            return false;
        }
        i += 1;
    }
    proof {
        assert(x@ =~= y@);
    }
    true
}

} // verus!

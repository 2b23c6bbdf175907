//! Filling the placeholders of the addon and entity templates.
use vstd::prelude::*;
use crate::paths::join_str;

verus! {

/// `s` with every occurrence of `from`, scanned left to right without
/// overlaps, replaced by `to`.
pub open spec fn replace_all(s: Seq<char>, from: Seq<char>, to: Seq<char>) -> Seq<char>
    decreases s.len(),
{
    if from.len() == 0 || s.len() < from.len() {
        s
    } else if s.subrange(0, from.len() as int) == from {
        to + replace_all(s.subrange(from.len() as int, s.len() as int), from, to)
    } else {
        seq![s[0]] + replace_all(s.subrange(1, s.len() as int), from, to)
    }
}

/// Relies on `str::replace`: every non-overlapping match of `from`, leftmost
/// first, replaced by `to`.
#[verifier::external_body]
fn replace(s: &str, from: &str, to: &str) -> (r: String)
    requires
        from@.len() > 0,
    ensures
        r@ == replace_all(s@, from@, to@),
{
    s.replace(from, to)
}

/// The parts in order, with `sep` between each two.
pub open spec fn joined(parts: Seq<Seq<char>>, sep: Seq<char>) -> Seq<char>
    decreases parts.len(),
{
    if parts.len() == 0 {
        Seq::empty()
    } else if parts.len() == 1 {
        parts[0]
    } else {
        joined(parts.drop_last(), sep) + sep + parts.last()
    }
}

/// Relies on `itertools::Itertools::join`: the items in order, with `sep`
/// between each two.
#[verifier::external_body]
fn join_with(items: &Vec<String>, sep: &str) -> (r: String)
    ensures
        r@ == joined(string_views(items@), sep@),
{
    itertools::Itertools::join(&mut items.iter(), sep)
}

pub open spec fn string_views(v: Seq<String>) -> Seq<Seq<char>> {
    v.map_values(|s: String| s@)
}

pub open spec fn quoted_views(v: Seq<String>) -> Seq<Seq<char>> {
    v.map_values(|s: String| quoted(s@))
}

pub open spec fn quoted(s: Seq<char>) -> Seq<char> {
    seq!['"'] + s + seq!['"']
}

/// The tags as the addon file lists them: each quoted, separated by `, `.
pub fn tag_list(tags: &Vec<String>) -> (r: String)
    ensures
        r@ == joined(quoted_views(tags@), ", "@),
{
    let mut quoted_tags: Vec<String> = Vec::new();
    let q = "\"";
    proof {
        reveal_strlit("\"");
    }
    let mut i: usize = 0;
    while i < tags.len()
        invariant
            i <= tags@.len(),
            q@ == seq!['"'],
            quoted_tags@.len() == i,
            string_views(quoted_tags@) == quoted_views(tags@.subrange(0, i as int)),
        decreases tags.len() - i,
    {
        let a = join_str(q, tags[i].as_str());
        let b = join_str(a.as_str(), q);
        let ghost before = quoted_tags@;
        proof {
            assert(b@ == quoted(tags@[i as int]@));
        }
        quoted_tags.push(b);
        proof {
            let sub = tags@.subrange(0, i as int + 1);
            assert(sub == tags@.subrange(0, i as int).push(tags@[i as int]));
            assert(quoted_tags@ == before.push(quoted_tags@[i as int]));
            assert forall|j: int| 0 <= j < i + 1 implies #[trigger] string_views(quoted_tags@)[j]
                == quoted_views(sub)[j] by {
                if j < i {
                    assert(quoted_tags@[j] == before[j]);
                    assert(string_views(before)[j] == quoted_views(tags@.subrange(0, i as int))[j]);
                }
            }
            assert(string_views(quoted_tags@) =~= quoted_views(sub));
        }
        i += 1;
    }
    proof {
        assert(tags@.subrange(0, tags@.len() as int) == tags@);
    }
    join_with(&quoted_tags, ", ")
}

/// The addon file: the template with its name, type and tags filled in.
pub fn fill_addon_json(template: &str, name: &str, addon_type: &str, tags: &Vec<String>) -> (r: String)
    ensures
        r@ == replace_all(
            replace_all(replace_all(template@, "%NAME%"@, name@), "%TYPE%"@, addon_type@),
            "%TAGS%"@,
            joined(quoted_views(tags@), ", "@),
        ),
{
    proof {
        reveal_strlit("%NAME%");
        reveal_strlit("%TYPE%");
        reveal_strlit("%TAGS%");
    }
    let a = replace(template, "%NAME%", name);
    let b = replace(a.as_str(), "%TYPE%", addon_type);
    let t = tag_list(tags);
    replace(b.as_str(), "%TAGS%", t.as_str())
}

/// The server file of an entity: the template with its model filled in.
pub fn fill_entity_server(template: &str, model: &str) -> (r: String)
    ensures
        r@ == replace_all(template@, "%MODEL%"@, model@),
{
    proof {
        reveal_strlit("%MODEL%");
    }
    replace(template, "%MODEL%", model)
}

pub open spec fn bool_text(b: bool) -> Seq<char> {
    if b {
        "true"@
    } else {
        "false"@
    }
}

/// The shared file of an entity: the template with its category, whether it
/// is spawnable, its printed name and its author filled in.
pub fn fill_entity_shared(template: &str, category: &str, spawnable: bool, print_name: &str, author: &str) -> (r: String)
    ensures
        r@ == replace_all(
            replace_all(
                replace_all(replace_all(template@, "%CATEGORY%"@, category@), "%SPAWNABLE%"@, bool_text(spawnable)),
                "%PRINTNAME%"@,
                print_name@,
            ),
            "%AUTHOR%"@,
            author@,
        ),
{
    proof {
        reveal_strlit("%CATEGORY%");
        reveal_strlit("%SPAWNABLE%");
        reveal_strlit("%PRINTNAME%");
        reveal_strlit("%AUTHOR%");
    }
    let a = replace(template, "%CATEGORY%", category);
    let flag = if spawnable { "true" } else { "false" };
    let b = replace(a.as_str(), "%SPAWNABLE%", flag);
    let c = replace(b.as_str(), "%PRINTNAME%", print_name);
    replace(c.as_str(), "%AUTHOR%", author)
}

/// The kinds of entity that can be created, by index.
pub fn entity_kinds() -> (r: Vec<&'static str>)
    ensures
        r@.len() == 2,
        r@[0]@ == "Basic physics entity"@,
        r@[1]@ == "NPC"@,
{
    vec!["Basic physics entity", "NPC"]
}

/// The model offered by default for a kind of entity.
pub fn entity_default_model(kind: usize) -> (r: Option<&'static str>)
    ensures
        kind == 0 ==> r == Some("models/hunter/blocks/cube025x025x025.mdl"),
        kind == 1 ==> r == Some("models/gman.mdl"),
        kind > 1 ==> r is None,
{
    if kind == 0 {
        Some("models/hunter/blocks/cube025x025x025.mdl")
    } else if kind == 1 {
        Some("models/gman.mdl")
    } else {
        None
    }
}

} // verus!

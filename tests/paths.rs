use gmod_content::content::{build_source_files_map, SourceContentFile};
use gmod_content::paths::{
    join_str, is_model_file, make_face_material_path, make_game_path, make_material_path,
    make_model_material_path, make_model_path, make_patch_base_path, make_texture_path, normalize,
    str_ends_with, str_eq,
};

fn file(full: &str, local: &str) -> SourceContentFile {
    SourceContentFile::new(full.to_string(), local.to_string())
}

#[test]
fn normalize_lowercases_and_uses_backslashes() {
    assert_eq!(normalize("Materials/Brick/WALL01.vmt"), "materials\\brick\\wall01.vmt");
    assert_eq!(normalize("models\\Props/Crate.MDL"), "models\\props\\crate.mdl");
    assert_eq!(normalize(""), "");
}

#[test]
fn normalize_twice_is_normalize_once() {
    for r in ["Materials/Brick/WALL01.vmt", "a/B\\c", "", "MODELS/x.MDL", "ÄÖ/Ü"] {
        let once = normalize(r);
        assert_eq!(normalize(&once), once);
    }
}

#[test]
fn material_path_gets_prefix_and_extension() {
    assert_eq!(make_material_path("Brick/Wall01"), "materials\\brick\\wall01.vmt");
    assert_eq!(make_material_path("brick/wall01.VMT"), "materials\\brick\\wall01.vmt");
    assert_eq!(make_material_path("brick\\wall01.vmt"), "materials\\brick\\wall01.vmt");
}

#[test]
fn texture_path_gets_prefix_and_extension() {
    assert_eq!(make_texture_path("Brick/Wall01"), "materials\\brick\\wall01.vtf");
    assert_eq!(make_texture_path("brick/wall01.vtf"), "materials\\brick\\wall01.vtf");
    assert_eq!(make_texture_path("env_cubemap"), "materials\\env_cubemap.vtf");
}

#[test]
fn model_path_is_normalized_only() {
    assert_eq!(make_model_path("Models/Props/Crate01.mdl"), "models\\props\\crate01.mdl");
}

#[test]
fn face_material_path_always_adds_extension() {
    assert_eq!(make_face_material_path("TOOLS/TOOLSNODRAW"), "materials\\tools\\toolsnodraw.vmt");
    assert_eq!(make_face_material_path("a.vmt"), "materials\\a.vmt.vmt");
}

#[test]
fn model_material_path_joins_search_path_and_name() {
    assert_eq!(make_model_material_path("models/Props/", "Crate_Wood"), "materials\\models\\props\\crate_wood.vmt");
}

#[test]
fn patch_base_path_is_relative_to_root() {
    assert_eq!(make_patch_base_path("Materials/Base/Rock"), "materials\\base\\rock.vmt");
    assert_eq!(make_patch_base_path("materials/base/rock.vmt"), "materials\\base\\rock.vmt");
}

#[test]
fn game_path_uses_forward_slashes() {
    assert_eq!(make_game_path("materials\\brick\\wall01.vmt"), "materials/brick/wall01.vmt");
    assert_eq!(make_game_path("Models\\A.mdl"), "models/a.mdl");
}

#[test]
fn string_helpers() {
    assert!(str_ends_with("crate.mdl", ".mdl"));
    assert!(!str_ends_with("crate.vvd", ".mdl"));
    assert!(!str_ends_with("mdl", ".mdl"));
    assert!(is_model_file("models/crate.mdl"));
    assert!(!is_model_file("models/crate.phy"));
    assert!(str_eq("abc", "abc"));
    assert!(!str_eq("abc", "abd"));
    assert_eq!(join_str("ab", "cd"), "abcd");
}

#[test]
fn index_keeps_first_file_of_a_key() {
    let files = vec![
        file("/a/materials/Rock.vmt", "materials/Rock.vmt"),
        file("/a/models/x.mdl", "models/x.mdl"),
        file("/b/materials/rock.vmt", "materials/rock.vmt"),
        file("/b/materials/other.vmt", "materials/other.vmt"),
    ];
    let index = build_source_files_map(&files);
    assert_eq!(index.len(), 3);
    let rock = index.get(&"materials\\rock.vmt".to_string()).unwrap();
    assert_eq!(rock.full_path, "/a/materials/Rock.vmt");
    assert_eq!(rock.local_path, "materials/Rock.vmt");
    let other = index.get(&"materials\\other.vmt".to_string()).unwrap();
    assert_eq!(other.full_path, "/b/materials/other.vmt");
}

#[test]
fn index_of_nothing_is_empty() {
    let index = build_source_files_map(&Vec::new());
    assert_eq!(index.len(), 0);
    assert!(index.is_empty());
}

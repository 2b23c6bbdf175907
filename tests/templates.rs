use gmod_content::templates::{entity_default_model, entity_kinds, fill_addon_json, fill_entity_server, fill_entity_shared, tag_list};

#[test]
fn tags_are_quoted_and_separated() {
    assert_eq!(tag_list(&vec!["fun".to_string(), "build".to_string()]), "\"fun\", \"build\"");
    assert_eq!(tag_list(&vec!["fun".to_string()]), "\"fun\"");
    assert_eq!(tag_list(&vec![]), "");
}

#[test]
fn addon_json_placeholders_are_filled() {
    let template = "{\"title\": \"%NAME%\", \"type\": \"%TYPE%\", \"tags\": [ %TAGS% ], \"again\": \"%NAME%\"}";
    let r = fill_addon_json(template, "My Addon", "map", &vec!["fun".to_string(), "scenic".to_string()]);
    assert_eq!(r, "{\"title\": \"My Addon\", \"type\": \"map\", \"tags\": [ \"fun\", \"scenic\" ], \"again\": \"My Addon\"}");
}

#[test]
fn entity_server_model_is_filled() {
    let r = fill_entity_server("self:SetModel(\"%MODEL%\")\n", "models/gman.mdl");
    assert_eq!(r, "self:SetModel(\"models/gman.mdl\")\n");
}

#[test]
fn entity_shared_fields_are_filled() {
    let template = "ENT.PrintName = \"%PRINTNAME%\"\nENT.Category = \"%CATEGORY%\"\nENT.Author = \"%AUTHOR%\"\nENT.Spawnable = %SPAWNABLE%\n";
    let r = fill_entity_shared(template, "Fun", true, "Box", "me");
    assert_eq!(r, "ENT.PrintName = \"Box\"\nENT.Category = \"Fun\"\nENT.Author = \"me\"\nENT.Spawnable = true\n");
    let r2 = fill_entity_shared("%SPAWNABLE%", "", false, "", "");
    assert_eq!(r2, "false");
}

#[test]
fn entity_kinds_and_default_models() {
    assert_eq!(entity_kinds(), vec!["Basic physics entity", "NPC"]);
    assert_eq!(entity_default_model(0), Some("models/hunter/blocks/cube025x025x025.mdl"));
    assert_eq!(entity_default_model(1), Some("models/gman.mdl"));
    assert_eq!(entity_default_model(2), None);
}

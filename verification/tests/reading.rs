use skills_web::error::ErrorKind;
use skills_web::handlers::{
    active_preset, find_named, get_active_preset, get_skill, get_skill_by_name, health,
    list_presets, list_skills, list_tools, skill_context, HealthResponse, SkillLookup,
};
use skills_web::records::{PresetRecord, SkillRecord, SkillTags, SkillTarget, ToolInfo};

fn skill(id: &str, name: &str) -> SkillRecord {
    SkillRecord {
        id: id.to_string(),
        name: name.to_string(),
        central_path: "/lib/dir".to_string(),
    }
}

fn preset(id: &str) -> PresetRecord {
    PresetRecord { id: id.to_string(), name: format!("preset {id}") }
}

fn gone<T>() -> Result<T, String> {
    Err("gone".to_string())
}

#[test]
fn health_names_the_server() {
    assert_eq!(
        health("1.2.3"),
        HealthResponse { ok: true, server: "skills-manager-web", version: "1.2.3" }
    );
}

#[test]
fn tools_are_listed_in_order() {
    let info = |key: &str| ToolInfo {
        key: key.to_string(),
        display_name: format!("The {key}"),
        installed: true,
        skills_dir: "/s".to_string(),
        enabled: false,
        is_custom: true,
        has_path_override: false,
        project_relative_skills_dir: Some(".x".to_string()),
        has_project_path_override: true,
        category: "coding".to_string(),
    };
    let dtos = list_tools(&vec![info("b"), info("a")]);
    assert_eq!(dtos.len(), 2);
    assert_eq!(dtos[0].key, "b");
    assert_eq!(dtos[1].key, "a");
    assert_eq!(dtos[1].display_name, "The a");
    assert!(dtos[1].installed && !dtos[1].enabled && dtos[1].is_custom);
    assert!(!dtos[1].has_path_override && dtos[1].has_project_path_override);
    assert_eq!(dtos[1].skills_dir, "/s");
    assert_eq!(dtos[1].project_relative_skills_dir.as_deref(), Some(".x"));
    assert_eq!(dtos[1].category, "coding");
}

#[test]
fn skills_come_with_targets_and_tags() {
    let targets = vec![SkillTarget {
        skill_id: "1".to_string(),
        tool: "editor".to_string(),
        status: "ok".to_string(),
    }];
    let tags = vec![SkillTags { skill_id: "1".to_string(), tags: vec!["t".to_string()] }];
    let (skills, context) =
        list_skills(Ok(vec![skill("2", "b"), skill("1", "a")]), Ok(targets), Ok(tags)).unwrap();
    assert_eq!(skills, vec![skill("2", "b"), skill("1", "a")]);
    assert_eq!(context.targets[0].tool, "editor");
    assert_eq!(context.tags[0].tags, vec!["t".to_string()]);
}

#[test]
fn the_first_failing_read_is_reported() {
    let error = list_skills(gone(), Err("b".to_string()), Err("c".to_string())).unwrap_err();
    assert_eq!((error.kind, error.message.as_str()), (ErrorKind::Database, "gone"));
    let error = list_skills(Ok(vec![]), Err("b".to_string()), Err("c".to_string())).unwrap_err();
    assert_eq!(error.message, "b");
    let error = skill_context(Ok(vec![]), Err("c".to_string())).unwrap_err();
    assert_eq!((error.kind, error.message.as_str()), (ErrorKind::Database, "c"));
}

#[test]
fn a_skill_is_found_by_id() {
    match get_skill(Ok(Some(skill("1", "a")))).unwrap() {
        SkillLookup::Found(found) => assert_eq!(found, skill("1", "a")),
        other => panic!("unexpected {other:?}"),
    }
    assert_eq!(get_skill(gone()).unwrap_err().kind, ErrorKind::Database);
}

#[test]
fn a_skill_is_found_by_name() {
    assert!(matches!(get_skill(Ok(None)), Ok(SkillLookup::TryName)));
    let all = Ok(vec![skill("1", "a"), skill("2", "b"), skill("3", "b")]);
    assert_eq!(get_skill_by_name("b", &all).unwrap().id, "2");
    assert_eq!(find_named(&all.unwrap(), "c"), None);
}

#[test]
fn a_skill_is_found_by_the_basename_of_its_directory() {
    let mut moved = skill("2", "b");
    moved.central_path = "/lib/cnb-api/".to_string();
    let all = vec![skill("1", "a"), moved.clone()];
    assert_eq!(get_skill_by_name("cnb-api", &Ok(all.clone())).unwrap(), moved);
    assert_eq!(find_named(&all, "cnb-api"), None);
    assert_eq!(get_skill_by_name("lib", &Ok(all)).unwrap_err().kind, ErrorKind::NotFound);
}

#[test]
fn a_name_comes_before_a_basename() {
    let mut first = skill("1", "foo");
    first.central_path = "/c/x".to_string();
    let mut second = skill("2", "x");
    second.central_path = "/c/y".to_string();
    let all = Ok(vec![first, second]);
    assert_eq!(get_skill_by_name("x", &all).unwrap().id, "2");
    assert_eq!(get_skill_by_name("y", &all).unwrap().id, "2");
    assert_eq!(get_skill_by_name("foo", &all).unwrap().id, "1");
}

#[test]
fn an_unknown_skill_is_not_found() {
    let error = get_skill_by_name("c", &Ok(vec![skill("1", "a")])).unwrap_err();
    assert_eq!((error.kind, error.message.as_str()), (ErrorKind::NotFound, "skill not found: c"));
    let error = get_skill_by_name("c", &gone()).unwrap_err();
    assert_eq!(error.kind, ErrorKind::NotFound);
}

#[test]
fn presets_are_listed() {
    assert_eq!(
        list_presets(Ok(vec![preset("2"), preset("1")])).unwrap(),
        vec![preset("2"), preset("1")]
    );
    assert_eq!(list_presets(gone()).unwrap_err().kind, ErrorKind::Database);
}

#[test]
fn the_active_preset_is_found() {
    assert_eq!(get_active_preset(Ok(None)).unwrap(), None);
    let id = get_active_preset(Ok(Some("1".to_string()))).unwrap().unwrap();
    assert_eq!(
        active_preset(&id, &Ok(vec![preset("2"), preset("1")])).unwrap(),
        Some(preset("1"))
    );
    assert_eq!(active_preset(&id, &Ok(vec![preset("2")])).unwrap(), None);
    assert_eq!(active_preset(&id, &gone()).unwrap_err().kind, ErrorKind::Database);
    assert_eq!(get_active_preset(gone()).unwrap_err().message, "gone");
}

use skills_web::error::ErrorKind;
use skills_web::records::{SkillRecord, ToolAdapter};
use skills_web::resolve::{find_skill, resolve_agent, resolve_references};

fn skill(id: &str, name: &str, central_path: &str) -> SkillRecord {
    SkillRecord {
        id: id.to_string(),
        name: name.to_string(),
        central_path: central_path.to_string(),
    }
}

fn store() -> Result<Vec<SkillRecord>, String> {
    Ok(vec![
        skill("1", "Alpha", "/lib/alpha-dir"),
        skill("2", "Beta", "/lib/beta-dir/"),
        skill("3", "1", "/lib/x"),
        skill("4", "Delta", "/"),
    ])
}

fn resolve(references: &[&str]) -> Result<Vec<String>, (ErrorKind, String)> {
    let references: Vec<String> = references.iter().map(|r| r.to_string()).collect();
    resolve_references(&store(), &references)
        .map(|found| found.into_iter().map(|s| s.id).collect())
        .map_err(|e| (e.kind, e.message))
}

fn ids(ids: &[&str]) -> Result<Vec<String>, (ErrorKind, String)> {
    Ok(ids.iter().map(|i| i.to_string()).collect())
}

#[test]
fn resolves_by_id_name_and_directory() {
    assert_eq!(resolve(&["2"]), ids(&["2"]));
    assert_eq!(resolve(&["Beta"]), ids(&["2"]));
    assert_eq!(resolve(&["beta-dir"]), ids(&["2"]));
    assert_eq!(resolve(&["x"]), ids(&["3"]));
}

#[test]
fn the_first_skill_of_the_store_wins() {
    assert_eq!(resolve(&["1"]), ids(&["1"]));
    assert_eq!(find_skill(&store().unwrap(), "1").unwrap().name, "Alpha");
    assert_eq!(find_skill(&store().unwrap(), "nobody"), None);
}

#[test]
fn naming_a_skill_twice_counts_once() {
    assert_eq!(resolve(&["Beta", "Alpha", "2", "beta-dir", "1"]), ids(&["2", "1"]));
}

#[test]
fn the_first_unknown_reference_is_reported() {
    assert_eq!(
        resolve(&["Alpha", "nope", "also-nope"]),
        Err((ErrorKind::NotFound, "skill not found: nope".to_string()))
    );
}

#[test]
fn references_are_required() {
    let expected =
        Err((ErrorKind::InvalidInput, "at least one reference is required".to_string()));
    assert_eq!(resolve(&[]), expected);
    let error = resolve_references(&Err("locked".to_string()), &[]).unwrap_err();
    assert_eq!(error.kind, ErrorKind::InvalidInput);
}

#[test]
fn a_failing_store_is_reported() {
    let error = resolve_references(&Err("locked".to_string()), &["a".to_string()]).unwrap_err();
    assert_eq!(error.kind, ErrorKind::Database);
    assert_eq!(error.message, "locked");
}

#[test]
fn agents_are_known_or_not() {
    let adapter = ToolAdapter { key: "editor".to_string(), skills_dir: "/s".to_string() };
    let found = resolve_agent(Some(adapter), "editor").unwrap();
    assert_eq!(found.key, "editor");
    assert_eq!(found.skills_dir, "/s");
    let error = resolve_agent(None, "nobody").unwrap_err();
    assert_eq!(error.kind, ErrorKind::NotFound);
    assert_eq!(error.message, "unknown agent: nobody");
}

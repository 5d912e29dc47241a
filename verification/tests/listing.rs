use skills_web::error::ErrorKind;
use skills_web::local_skills::{
    extract_paths, list_agent_local_skills, listing_dir, safe_join_local, AgentPathBody, DirRead,
    LocalEntry, LocalSkillDto,
};
use skills_web::records::{SkillRecord, ToolAdapter};

fn adapter() -> ToolAdapter {
    ToolAdapter { key: "editor".to_string(), skills_dir: "/home/u/skills".to_string() }
}

fn entry(name: &str) -> LocalEntry {
    LocalEntry {
        path: format!("/s/{name}"),
        file_name: name.to_string(),
        is_dir: true,
        has_upper_skill_md: false,
        has_lower_skill_md: false,
        content_hash: Some(format!("hash of {name}")),
    }
}

fn skill(id: &str, name: &str) -> SkillRecord {
    SkillRecord {
        id: id.to_string(),
        name: name.to_string(),
        central_path: "/lib/x".to_string(),
    }
}

fn list(entries: Vec<LocalEntry>) -> Vec<LocalSkillDto> {
    let skills = Ok(vec![skill("1", "b"), skill("2", "b")]);
    let response =
        list_agent_local_skills(&adapter(), "/s", &skills, &DirRead::Entries(entries)).unwrap();
    assert_eq!(response.agent, "editor");
    assert_eq!(response.skills_dir, "/s");
    response.local_skills
}

#[test]
fn entries_are_listed_by_name() {
    let mut b = entry("b");
    b.has_lower_skill_md = true;
    let mut a = entry("a");
    a.has_upper_skill_md = true;
    a.content_hash = None;
    let listed = list(vec![b, entry("c"), a]);
    assert_eq!(
        listed,
        vec![
            LocalSkillDto {
                name: "a".to_string(),
                relative_path: "a".to_string(),
                has_skill_md: true,
                is_managed: false,
                managed_skill_id: None,
                content_hash: None,
            },
            LocalSkillDto {
                name: "b".to_string(),
                relative_path: "b".to_string(),
                has_skill_md: true,
                is_managed: true,
                managed_skill_id: Some("1".to_string()),
                content_hash: Some("hash of b".to_string()),
            },
            LocalSkillDto {
                name: "c".to_string(),
                relative_path: "c".to_string(),
                has_skill_md: false,
                is_managed: false,
                managed_skill_id: None,
                content_hash: None,
            },
        ]
    );
}

#[test]
fn names_sort_like_strings_and_keep_ties_in_order() {
    let names = ["b", "B", "a", "aa", "é", "Z", "a-b", "10", "9", "a"];
    let entries: Vec<LocalEntry> = names
        .iter()
        .enumerate()
        .map(|(i, name)| {
            let mut e = entry(name);
            e.path = format!("/s/{i}");
            e
        })
        .collect();
    let listed: Vec<(String, String)> =
        list(entries).into_iter().map(|d| (d.name, d.relative_path)).collect();
    let mut expected: Vec<(String, String)> =
        names.iter().enumerate().map(|(i, n)| (n.to_string(), i.to_string())).collect();
    expected.sort_by(|a, b| a.0.cmp(&b.0));
    assert_eq!(listed, expected);
}

#[test]
fn files_strangers_and_double_dots_are_left_out() {
    let mut file = entry("file");
    file.is_dir = false;
    let mut stranger = entry("stranger");
    stranger.path = "/elsewhere/stranger".to_string();
    let mut itself = entry("itself");
    itself.path = "/s/".to_string();
    let dots = entry("a..b");
    assert_eq!(list(vec![file, stranger, itself, dots]), vec![]);
}

#[test]
fn only_listed_skills_need_a_hash() {
    let mut e = entry("a");
    assert!(!e.needs_hash("/s"));
    e.has_upper_skill_md = true;
    assert!(e.needs_hash("/s"));
    assert!(!e.needs_hash("/t"));
    e.is_dir = false;
    assert!(!e.needs_hash("/s"));
}

#[test]
fn listed_paths_can_be_acted_on() {
    for dto in list(vec![entry("x"), entry(".hidden"), entry("a b")]) {
        assert_eq!(
            safe_join_local("/s", &dto.relative_path).unwrap(),
            format!("/s/{}", dto.name)
        );
    }
}

#[test]
fn a_missing_directory_is_empty() {
    let response =
        list_agent_local_skills(&adapter(), "/s", &Ok(vec![]), &DirRead::Missing).unwrap();
    assert_eq!(response.agent, "editor");
    assert_eq!(response.skills_dir, "/s");
    assert_eq!(response.local_skills, vec![]);
}

#[test]
fn failures_of_a_listing_are_reported() {
    let failed = DirRead::Failed("denied".to_string());
    let error = list_agent_local_skills(&adapter(), "/s", &Ok(vec![]), &failed).unwrap_err();
    assert_eq!((error.kind, error.message.as_str()), (ErrorKind::Io, "denied"));
    let error =
        list_agent_local_skills(&adapter(), "/s", &Err("gone".to_string()), &failed).unwrap_err();
    assert_eq!((error.kind, error.message.as_str()), (ErrorKind::Database, "gone"));
}

#[test]
fn links_are_followed_where_possible() {
    assert_eq!(listing_dir(&adapter(), Some("/real".to_string())), "/real");
    assert_eq!(listing_dir(&adapter(), None), "/home/u/skills");
}

#[test]
fn the_single_path_comes_first() {
    let body = AgentPathBody {
        relative_path: Some("a".to_string()),
        relative_paths: Some(vec!["b".to_string(), String::new(), "a".to_string()]),
    };
    assert_eq!(
        extract_paths(&body).unwrap(),
        vec!["a".to_string(), "b".to_string(), "a".to_string()]
    );
    let body = AgentPathBody { relative_path: None, relative_paths: Some(vec!["b".to_string()]) };
    assert_eq!(extract_paths(&body).unwrap(), vec!["b".to_string()]);
    let body = AgentPathBody { relative_path: Some("a".to_string()), relative_paths: None };
    assert_eq!(extract_paths(&body).unwrap(), vec!["a".to_string()]);
}

#[test]
fn a_request_without_paths_is_refused() {
    let bodies = [
        AgentPathBody { relative_path: None, relative_paths: None },
        AgentPathBody { relative_path: Some(String::new()), relative_paths: Some(vec![]) },
        AgentPathBody { relative_path: None, relative_paths: Some(vec![String::new()]) },
    ];
    for body in bodies {
        let error = extract_paths(&body).unwrap_err();
        assert_eq!(error.kind, ErrorKind::InvalidInput);
        assert_eq!(error.message, "relative_path or relative_paths required");
    }
}

#[test]
fn every_listed_path_is_accepted_again() {
    let listed = list(vec![entry("b"), entry("a..b"), entry(".hidden"), entry("a b")]);
    let paths: Vec<&str> = listed.iter().map(|d| d.relative_path.as_str()).collect();
    assert_eq!(paths, vec![".hidden", "a b", "b"]);
    for path in paths {
        let joined = safe_join_local(&adapter().skills_dir, path).unwrap();
        assert_eq!(joined, format!("/home/u/skills/{path}"));
    }
}

use skills_web::batch::{
    delete_agent_local_skills, import_agent_local_skills, update_agent_local_skills,
    AgentMutateResponse, BatchStep, PathResult, ReplacePolicy, UpdateBody, UpdateStep,
};
use skills_web::error::{AppError, ErrorKind};
use skills_web::local_skills::AgentPathBody;
use skills_web::records::{SkillRecord, ToolAdapter};
use skills_web::write_handlers::InstallOutcome;

fn adapter() -> Option<ToolAdapter> {
    Some(ToolAdapter { key: "editor".to_string(), skills_dir: "/s".to_string() })
}

fn body(paths: &[&str]) -> AgentPathBody {
    AgentPathBody {
        relative_path: None,
        relative_paths: Some(paths.iter().map(|p| p.to_string()).collect()),
    }
}

fn done(path: &str) -> PathResult {
    PathResult {
        relative_path: path.to_string(),
        ok: true,
        skill_id: None,
        central_path: None,
        reason: None,
    }
}

fn failed(path: &str, reason: &str) -> PathResult {
    PathResult {
        relative_path: path.to_string(),
        ok: false,
        skill_id: None,
        central_path: None,
        reason: Some(reason.to_string()),
    }
}

fn skill(name: &str, central_path: &str) -> SkillRecord {
    SkillRecord {
        id: format!("id of {name}"),
        name: name.to_string(),
        central_path: central_path.to_string(),
    }
}

#[test]
fn delete_answers_for_every_path() {
    let body = body(&["../x", "a", "/abs", "b", "a/.."]);
    let mut step = delete_agent_local_skills("editor", &body, adapter()).unwrap();
    let mut touched: Vec<String> = vec![];
    let response = loop {
        step = match step {
            BatchStep::Done(response) => break response,
            BatchStep::Work(item) => {
                let path = item.local_path().to_string();
                touched.push(path.clone());
                item.deleted(if path == "/s/b" { Err("busy".to_string()) } else { Ok(()) })
            }
        };
    };
    assert_eq!(touched, vec!["/s/a".to_string(), "/s/b".to_string()]);
    assert_eq!(
        response,
        AgentMutateResponse {
            results: vec![
                failed("../x", "path may not contain '..': ../x"),
                done("a"),
                failed("/abs", "absolute paths are not allowed: /abs"),
                failed("b", "busy"),
                failed("a/..", "path may not contain '..': a/.."),
            ],
            succeeded: 1,
            failed: 4,
        }
    );
}

#[test]
fn a_batch_of_refused_paths_touches_nothing() {
    match delete_agent_local_skills("editor", &body(&["..", "/"]), adapter()).unwrap() {
        BatchStep::Done(response) => {
            assert_eq!(response.results.len(), 2);
            assert_eq!((response.succeeded, response.failed), (0, 2));
        }
        BatchStep::Work(_) => panic!("nothing may be touched"),
    }
}

#[test]
fn import_reports_skills_and_failures() {
    let mut step =
        import_agent_local_skills("editor", &body(&["a", "b", "c", "d"]), adapter()).unwrap();
    let mut outcomes = vec![
        InstallOutcome::Installed {
            skill_id: "7".to_string(),
            name: "a".to_string(),
            central_path: "/lib/a".to_string(),
        },
        InstallOutcome::LockFailed("busy".to_string()),
        InstallOutcome::CopyFailed("full".to_string()),
        InstallOutcome::StoreFailed(AppError::invalid_input("bad name")),
    ]
    .into_iter();
    let response = loop {
        step = match step {
            BatchStep::Done(response) => break response,
            BatchStep::Work(item) => {
                let source = item.import_source();
                let order = item.import_order();
                assert_eq!(order.source_path, item.local_path());
                assert_eq!(order.name, None);
                assert_eq!(order.metadata, source);
                assert_eq!(source.source_type, "import");
                assert_eq!(source.source_ref.as_deref(), Some(item.local_path()));
                assert_eq!(source.update_status, "local_only");
                assert_eq!(source.remote_revision, None);
                item.imported(outcomes.next().unwrap())
            }
        };
    };
    let first = PathResult {
        relative_path: "a".to_string(),
        ok: true,
        skill_id: Some("7".to_string()),
        central_path: Some("/lib/a".to_string()),
        reason: None,
    };
    assert_eq!(
        response.results,
        vec![first, failed("b", "busy"), failed("c", "full"), failed("d", "bad name")]
    );
    assert_eq!((response.succeeded, response.failed), (1, 3));
}

#[test]
fn requests_are_checked_before_the_agent() {
    let error = import_agent_local_skills("nobody", &body(&[]), None).unwrap_err();
    assert_eq!(error.message, "relative_path or relative_paths required");
    let error = import_agent_local_skills("nobody", &body(&["a"]), None).unwrap_err();
    assert_eq!((error.kind, error.message.as_str()), (ErrorKind::NotFound, "unknown agent: nobody"));
    let error = delete_agent_local_skills("nobody", &body(&["a"]), None).unwrap_err();
    assert_eq!(error.kind, ErrorKind::NotFound);
    let none = UpdateBody { relative_paths: vec![], force: false };
    let error = update_agent_local_skills("nobody", &none, None).unwrap_err();
    assert_eq!((error.kind, error.message.as_str()), (ErrorKind::InvalidInput, "relative_paths required"));
    let one = UpdateBody { relative_paths: vec!["a".to_string()], force: false };
    let error = update_agent_local_skills("nobody", &one, None).unwrap_err();
    assert_eq!(error.message, "unknown agent: nobody");
}

fn update(paths: &[&str], force: bool) -> (AgentMutateResponse, Vec<(String, String)>) {
    let body = UpdateBody {
        relative_paths: paths.iter().map(|p| p.to_string()).collect(),
        force,
    };
    let store = Ok(vec![skill("alpha", "/lib/dir-a"), skill("beta", "/lib/dir-b/")]);
    let mut copies = vec![];
    let mut step = update_agent_local_skills("editor", &body, adapter()).unwrap();
    loop {
        step = match step {
            UpdateStep::Done(result) => return (result.unwrap(), copies),
            UpdateStep::ReadSkills(item) => item.with_skills(&store),
            UpdateStep::Sync(item) => {
                let policy =
                    if force { ReplacePolicy::UserConfirmed } else { ReplacePolicy::NoClobber };
                assert_eq!(item.policy(), policy);
                copies.push((item.source().to_string(), item.local_path().to_string()));
                let outcome =
                    if item.source() == "/lib/dir-b/" { Err("kept".to_string()) } else { Ok(()) };
                item.synced(outcome)
            }
        };
    }
}

#[test]
fn update_copies_from_the_central_library() {
    for force in [false, true] {
        let (response, copies) =
            update(&["alpha", "dir-b", "", "gamma", "id of alpha", "../alpha", "dir-a"], force);
        assert_eq!(
            copies,
            vec![
                ("/lib/dir-a".to_string(), "/s/alpha".to_string()),
                ("/lib/dir-b/".to_string(), "/s/dir-b".to_string()),
                ("/lib/dir-a".to_string(), "/s/dir-a".to_string()),
            ]
        );
        assert_eq!(
            response.results,
            vec![
                done("alpha"),
                failed("dir-b", "kept"),
                failed("", "relative_path is empty"),
                failed("gamma", "skill not in central library; import first"),
                failed("id of alpha", "skill not in central library; import first"),
                failed("../alpha", "path may not contain '..': ../alpha"),
                done("dir-a"),
            ]
        );
        assert_eq!((response.succeeded, response.failed), (2, 5));
    }
}

#[test]
fn a_failing_store_ends_an_update() {
    let body =
        UpdateBody { relative_paths: vec!["a".to_string(), "b".to_string()], force: false };
    match update_agent_local_skills("editor", &body, adapter()).unwrap() {
        UpdateStep::ReadSkills(item) => match item.with_skills(&Err("gone".to_string())) {
            UpdateStep::Done(Err(error)) => {
                assert_eq!((error.kind, error.message.as_str()), (ErrorKind::Database, "gone"))
            }
            other => panic!("unexpected {other:?}"),
        },
        other => panic!("unexpected {other:?}"),
    }
}

#[test]
fn counts_add_up_to_the_number_of_paths() {
    let (response, _) = update(&["alpha", "x", "/y"], true);
    assert_eq!(response.succeeded + response.failed, response.results.len());
    assert_eq!(response.results.len(), 3);
}

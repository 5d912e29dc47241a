use skills_web::error::{AppError, ErrorKind};
use skills_web::records::{SkillRecord, SkillTags, SkillTarget};
use skills_web::write_handlers::{
    deploy_skills, deployed, install_skill, installed, remove_skills, removed, set_tags, tagged,
    undeploy_skills, undeployed, ApplyPlan, BatchApplyMode, BatchDeleteResult, DeployRequest,
    DeployResponse, InstallOrder, InstallOutcome, InstallRequest, InstallResponse, PendingUndeploy,
    RemoveRequest, RemoveResponse, TagRequest, TagResponse, UndeployRequest, UndeployResponse,
    UndeployStep,
};

fn strings(items: &[&str]) -> Vec<String> {
    items.iter().map(|i| i.to_string()).collect()
}

fn skill(id: &str, name: &str) -> SkillRecord {
    SkillRecord {
        id: id.to_string(),
        name: name.to_string(),
        central_path: format!("/lib/{name}"),
    }
}

fn store() -> Result<Vec<SkillRecord>, String> {
    Ok(vec![skill("1", "alpha"), skill("2", "beta")])
}

fn deploy_request(references: &[&str], agents: &[&str], dry_run: bool) -> DeployRequest {
    DeployRequest { references: strings(references), agents: strings(agents), dry_run }
}

fn undeploy_request(references: &[&str], agents: &[&str], dry_run: bool) -> UndeployRequest {
    UndeployRequest { references: strings(references), agents: strings(agents), dry_run }
}

fn target(skill_id: &str, tool: &str, status: &str) -> SkillTarget {
    SkillTarget {
        skill_id: skill_id.to_string(),
        tool: tool.to_string(),
        status: status.to_string(),
    }
}

#[test]
fn deploy_plans_all_pairs() {
    let req = deploy_request(&["beta", "alpha", "2"], &["editor", "shell", "editor"], false);
    let plan = deploy_skills(&req, &store()).unwrap();
    assert_eq!(plan.skill_ids, strings(&["2", "1"]));
    assert_eq!(plan.agent_keys, strings(&["editor", "shell", "editor"]));
    assert_eq!(plan.mode, BatchApplyMode::Add);
    assert!(!plan.dry_run);
    assert_eq!(plan.pair_count(), Some(6));
    let response = deployed(&plan, Ok(())).unwrap();
    assert_eq!(response, DeployResponse { pair_count: 6, dry_run: false });
}

#[test]
fn deploy_needs_agents_first() {
    let error = deploy_skills(&deploy_request(&[], &[], false), &store()).unwrap_err();
    assert_eq!(error.kind, ErrorKind::InvalidInput);
    assert_eq!(error.message, "no agent key provided in `agents`");
    let error = deploy_skills(&deploy_request(&[], &["editor"], false), &store()).unwrap_err();
    assert_eq!(error.message, "at least one reference is required");
    let error = deploy_skills(&deploy_request(&["x"], &["editor"], true), &store()).unwrap_err();
    assert_eq!(error.kind, ErrorKind::NotFound);
    assert_eq!(error.message, "skill not found: x");
}

#[test]
fn deploy_reports_what_went_wrong() {
    let plan = deploy_skills(&deploy_request(&["1"], &["editor"], false), &store()).unwrap();
    let error = deployed(
        &plan,
        Err(AppError { kind: ErrorKind::TargetConflict, message: "in the way".to_string() }),
    )
    .unwrap_err();
    assert_eq!(error.kind, ErrorKind::TargetConflict);
    assert_eq!(error.message, "in the way");
}

#[test]
fn a_dry_run_counts_the_same_pairs() {
    let dry = deploy_skills(&deploy_request(&["1", "2"], &["a", "b"], true), &store()).unwrap();
    let run = deploy_skills(&deploy_request(&["1", "2"], &["a", "b"], false), &store()).unwrap();
    assert_eq!(dry.skill_ids, run.skill_ids);
    assert_eq!(dry.agent_keys, run.agent_keys);
    assert_eq!(dry.pair_count(), run.pair_count());
    assert!(dry.to_carry_out().is_none());
    assert_eq!(run.to_carry_out().unwrap().skill_ids, strings(&["1", "2"]));
    let response = deployed(&dry, Ok(())).unwrap();
    assert_eq!(response, DeployResponse { pair_count: 4, dry_run: true });
}

#[test]
fn an_empty_plan_has_no_pairs() {
    let plan = ApplyPlan {
        skill_ids: strings(&["1"]),
        agent_keys: vec![],
        mode: BatchApplyMode::Remove,
        dry_run: false,
    };
    assert_eq!(plan.pair_count(), Some(0));
}

#[test]
fn undeploy_takes_the_named_agents() {
    let step = undeploy_skills(&undeploy_request(&["alpha"], &["z", "a"], false), &store());
    match step.unwrap() {
        UndeployStep::Apply(plan) => {
            assert_eq!(plan.skill_ids, strings(&["1"]));
            assert_eq!(plan.agent_keys, strings(&["z", "a"]));
            assert_eq!(plan.mode, BatchApplyMode::Remove);
            let response = undeployed(&plan, Ok(())).unwrap();
            assert_eq!(response, UndeployResponse { pair_count: 2, dry_run: false });
            assert_eq!(undeployed(&plan, Err(AppError::db("x"))).unwrap_err().message, "x");
        }
        other => panic!("unexpected {other:?}"),
    }
}

#[test]
fn undeploy_finds_the_agents_that_have_a_skill() {
    let step = undeploy_skills(&undeploy_request(&["alpha", "beta"], &[], true), &store());
    let pending = match step.unwrap() {
        UndeployStep::NeedTargets(pending) => pending,
        other => panic!("unexpected {other:?}"),
    };
    let targets = Ok(vec![
        target("2", "shell", "ok"),
        target("1", "editor", "ok"),
        target("1", "shell", "ok"),
        target("1", "broken", "error"),
        target("9", "other", "ok"),
        target("2", "Zed", "ok"),
    ]);
    let plan = pending.with_targets(&targets).unwrap();
    assert_eq!(plan.skill_ids, strings(&["1", "2"]));
    assert_eq!(plan.agent_keys, strings(&["Zed", "editor", "shell"]));
    assert!(plan.dry_run);
    assert_eq!(undeployed(&plan, Ok(())).unwrap().pair_count, 6);
}

#[test]
fn tool_lists_are_sorted_like_a_btree_set() {
    let tools = ["b", "a", "aa", "é", "B", "", "z", "a", "a-b", "a/b", "\u{10000}", "\u{ffff}"];
    let targets = Ok(tools.iter().map(|t| target("1", t, "ok")).collect());
    let pending = PendingUndeploy { skill_ids: strings(&["1"]), dry_run: false };
    let plan = pending.with_targets(&targets).unwrap();
    let set: std::collections::BTreeSet<String> = tools.iter().map(|t| t.to_string()).collect();
    assert_eq!(plan.agent_keys, set.into_iter().collect::<Vec<_>>());
}

#[test]
fn undeploy_reports_a_failing_store() {
    let error = undeploy_skills(&undeploy_request(&["a"], &[], false), &Err("gone".to_string()))
        .unwrap_err();
    assert_eq!(error.kind, ErrorKind::Database);
    let pending = PendingUndeploy { skill_ids: strings(&["1"]), dry_run: false };
    let error = pending.with_targets(&Err("gone".to_string())).unwrap_err();
    assert_eq!(error.kind, ErrorKind::Database);
    assert_eq!(error.message, "gone");
}

#[test]
fn install_needs_an_existing_path() {
    let req = InstallRequest { source_path: "/tmp/x".to_string(), name: None };
    let error = install_skill(&req, false).unwrap_err();
    assert_eq!(error.kind, ErrorKind::InvalidInput);
    assert_eq!(error.message, "local path does not exist: /tmp/x");
}

#[test]
fn install_records_a_local_source() {
    let req =
        InstallRequest { source_path: "/tmp/x".to_string(), name: Some("renamed".to_string()) };
    let order = install_skill(&req, true).unwrap();
    assert_eq!(order.source_path, "/tmp/x");
    assert_eq!(order.name.as_deref(), Some("renamed"));
    assert_eq!(order.metadata.source_type, "local");
    assert_eq!(order.metadata.source_ref.as_deref(), Some("/tmp/x"));
    assert_eq!(order.metadata.source_ref_resolved, None);
    assert_eq!(order.metadata.source_subpath, None);
    assert_eq!(order.metadata.source_branch, None);
    assert_eq!(order.metadata.source_revision, None);
    assert_eq!(order.metadata.remote_revision, None);
    assert_eq!(order.metadata.update_status, "local_only");
}

#[test]
fn install_reports_what_came_of_it() {
    let response = installed(InstallOutcome::Installed {
        skill_id: "7".to_string(),
        name: "x".to_string(),
        central_path: "/lib/x".to_string(),
    });
    assert_eq!(
        response.unwrap(),
        InstallResponse {
            skill_id: "7".to_string(),
            name: "x".to_string(),
            central_path: "/lib/x".to_string(),
        }
    );
    let error = installed(InstallOutcome::LockFailed("busy".to_string())).unwrap_err();
    assert_eq!((error.kind, error.message.as_str()), (ErrorKind::Database, "busy"));
    let error = installed(InstallOutcome::CopyFailed("full".to_string())).unwrap_err();
    assert_eq!((error.kind, error.message.as_str()), (ErrorKind::Io, "full"));
    let error = installed(InstallOutcome::StoreFailed(AppError::not_found("n"))).unwrap_err();
    assert_eq!((error.kind, error.message.as_str()), (ErrorKind::NotFound, "n"));
}

#[test]
fn remove_gives_the_ids() {
    let req = RemoveRequest { references: strings(&["beta", "1", "2"]) };
    assert_eq!(remove_skills(&req, &store()).unwrap(), strings(&["2", "1"]));
    let error = remove_skills(&RemoveRequest { references: vec![] }, &store()).unwrap_err();
    assert_eq!(error.message, "at least one reference is required");
    let done = BatchDeleteResult { deleted: 1, failed: strings(&["1"]) };
    assert_eq!(
        removed(Ok(done)).unwrap(),
        RemoveResponse { deleted: 1, failed: strings(&["1"]) }
    );
    assert_eq!(removed(Err(AppError::io("x"))).unwrap_err().kind, ErrorKind::Io);
}

#[test]
fn tagging_reports_the_tags_on_record() {
    let req = TagRequest { reference: "beta".to_string(), tags: strings(&["x"]) };
    let skill = set_tags(&req, &store()).unwrap();
    assert_eq!(skill.id, "2");
    let tags = Ok(vec![
        SkillTags { skill_id: "1".to_string(), tags: strings(&["other"]) },
        SkillTags { skill_id: "2".to_string(), tags: strings(&["x", "y"]) },
    ]);
    assert_eq!(
        tagged(skill, Ok(()), &tags).unwrap(),
        TagResponse {
            skill_id: "2".to_string(),
            name: "beta".to_string(),
            tags: strings(&["x", "y"]),
        }
    );
}

#[test]
fn tagging_without_a_record_gives_no_tags() {
    let response = tagged(skill("2", "beta"), Ok(()), &Ok(vec![])).unwrap();
    assert_eq!(response.tags, Vec::<String>::new());
}

#[test]
fn tagging_reports_errors_in_order() {
    let req = TagRequest { reference: "gamma".to_string(), tags: vec![] };
    let error = set_tags(&req, &store()).unwrap_err();
    assert_eq!(error.kind, ErrorKind::NotFound);
    assert_eq!(error.message, "skill not found: gamma");
    let error = set_tags(&req, &Err("gone".to_string())).unwrap_err();
    assert_eq!(error.kind, ErrorKind::Database);
    let error =
        tagged(skill("2", "b"), Err(AppError::io("first")), &Err("second".to_string()));
    assert_eq!(error.unwrap_err().message, "first");
    let error = tagged(skill("2", "b"), Ok(()), &Err("second".to_string())).unwrap_err();
    assert_eq!((error.kind, error.message.as_str()), (ErrorKind::Database, "second"));
}

#[test]
fn a_dry_run_of_an_undeploy_needs_the_same() {
    for dry_run in [true, false] {
        match undeploy_skills(&undeploy_request(&["beta"], &[], dry_run), &store()).unwrap() {
            UndeployStep::NeedTargets(pending) => {
                assert_eq!(pending.skill_ids, strings(&["2"]));
                assert_eq!(pending.dry_run, dry_run);
            }
            other => panic!("unexpected {other:?}"),
        }
        match undeploy_skills(&undeploy_request(&["beta"], &["a"], dry_run), &store()).unwrap() {
            UndeployStep::Apply(plan) => {
                assert_eq!(plan.pair_count(), Some(1));
                assert_eq!(plan.to_carry_out().is_none(), dry_run);
            }
            other => panic!("unexpected {other:?}"),
        }
    }
}

fn order() -> InstallOrder {
    let req = InstallRequest { source_path: "/src/x".to_string(), name: Some("x".to_string()) };
    install_skill(&req, true).unwrap()
}

#[test]
fn nothing_is_copied_without_the_lock() {
    match order().locked(Err("held".to_string())) {
        Err(InstallOutcome::LockFailed(reason)) => assert_eq!(reason, "held"),
        other => panic!("unexpected {other:?}"),
    }
    let copy = order().locked(Ok(())).unwrap();
    assert_eq!(copy.source_path(), "/src/x");
    assert_eq!(copy.name(), Some("x"));
}

#[test]
fn nothing_is_recorded_without_the_copy() {
    let copy = order().locked(Ok(())).unwrap();
    match copy.copied(Err("full".to_string())) {
        Err(InstallOutcome::CopyFailed(reason)) => assert_eq!(reason, "full"),
        other => panic!("unexpected {other:?}"),
    }
    let copy = order().locked(Ok(())).unwrap();
    let record = copy.copied(Ok(("x2".to_string(), "/lib/x2".to_string()))).unwrap();
    assert_eq!((record.name(), record.central_path()), ("x2", "/lib/x2"));
    assert_eq!(*record.metadata(), order().metadata);
}

#[test]
fn what_was_copied_is_recorded() {
    let record = |id| {
        let copy = order().locked(Ok(())).unwrap();
        let record = copy.copied(Ok(("x2".to_string(), "/lib/x2".to_string()))).unwrap();
        installed(record.recorded(id))
    };
    assert_eq!(
        record(Ok("9".to_string())).unwrap(),
        InstallResponse {
            skill_id: "9".to_string(),
            name: "x2".to_string(),
            central_path: "/lib/x2".to_string(),
        }
    );
    assert_eq!(record(Err(AppError::db("gone"))).unwrap_err().message, "gone");
}

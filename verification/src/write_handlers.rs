//! Requests that change something: deploy, undeploy, install, remove and tag.
//!
//! Reading the store and acting on it happens outside. Each request becomes a
//! plan, the caller carries the plan out and hands back what came of it, and
//! the request's response follows from that.

use crate::error::{seen, AppError, ErrorKind, ErrorView};
use crate::records::{SkillRecord, SkillTags, SkillTarget};
use crate::resolve::{first_match, resolve_references, resolved, resolved_once};
use crate::text::{ascending, ascending_is_unique, copied, holds, insert_key, joined, precedes, same, text, texts};
use vstd::prelude::*;

verus! {

/// Deploys skills to agents.
#[derive(Debug)]
pub struct DeployRequest {
    pub references: Vec<String>,
    pub agents: Vec<String>,
    pub dry_run: bool,
}

#[derive(Debug, PartialEq, Eq)]
pub struct DeployResponse {
    pub pair_count: usize,
    pub dry_run: bool,
}

/// Takes skills back from agents, from all that have one of them where no agent
/// is named.
#[derive(Debug)]
pub struct UndeployRequest {
    pub references: Vec<String>,
    pub agents: Vec<String>,
    pub dry_run: bool,
}

#[derive(Debug, PartialEq, Eq)]
pub struct UndeployResponse {
    pub pair_count: usize,
    pub dry_run: bool,
}

/// Installs a skill from a local path.
#[derive(Debug)]
pub struct InstallRequest {
    pub source_path: String,
    pub name: Option<String>,
}

#[derive(Debug, PartialEq, Eq)]
pub struct InstallResponse {
    pub skill_id: String,
    pub name: String,
    pub central_path: String,
}

/// Removes skills from the central library.
#[derive(Debug)]
pub struct RemoveRequest {
    pub references: Vec<String>,
}

#[derive(Debug, PartialEq, Eq)]
pub struct RemoveResponse {
    pub deleted: usize,
    pub failed: Vec<String>,
}

/// Replaces the tags of a skill.
#[derive(Debug)]
pub struct TagRequest {
    pub reference: String,
    pub tags: Vec<String>,
}

#[derive(Debug, PartialEq, Eq)]
pub struct TagResponse {
    pub skill_id: String,
    pub name: String,
    pub tags: Vec<String>,
}

// ── deploy and undeploy ─────────────────────────────────────────────────

/// Whether skills are added to tools or taken from them.
#[derive(Clone, Copy, Debug, PartialEq, Eq, Structural)]
pub enum BatchApplyMode {
    Add,
    Remove,
}

/// Every skill of the plan is to be added to, or taken from, every agent of it.
/// A dry run stops short of doing so.
#[derive(Debug)]
pub struct ApplyPlan {
    pub skill_ids: Vec<String>,
    pub agent_keys: Vec<String>,
    pub mode: BatchApplyMode,
    pub dry_run: bool,
}

/// A plan as contracts see it.
#[verifier::ext_equal]
pub struct PlanView {
    pub skill_ids: Seq<Seq<char>>,
    pub agent_keys: Seq<Seq<char>>,
    pub mode: BatchApplyMode,
    pub dry_run: bool,
}

impl View for ApplyPlan {
    type V = PlanView;

    open spec fn view(&self) -> PlanView {
        PlanView {
            skill_ids: texts(self.skill_ids@),
            agent_keys: texts(self.agent_keys@),
            mode: self.mode,
            dry_run: self.dry_run,
        }
    }
}

impl PlanView {
    /// The number of pairs of a skill and an agent.
    pub open spec fn pairs(self) -> nat {
        self.skill_ids.len() * self.agent_keys.len()
    }
}

/// The ids of skills.
pub open spec fn ids(skills: Seq<SkillRecord>) -> Seq<Seq<char>> {
    skills.map_values(|s: SkillRecord| s.id@)
}

fn ids_of(skills: &Vec<SkillRecord>) -> (result: Vec<String>)
    ensures
        texts(result@) == ids(skills@),
{
    let mut result: Vec<String> = Vec::new();
    for i in 0..skills.len()
        invariant
            result@.len() == i,
            forall|j: int| 0 <= j < i ==> (#[trigger] result@[j])@ == skills@[j].id@,
    {
        result.push(skills[i].id.clone());
    }
    assert(texts(result@) =~= ids(skills@));
    result
}

impl ApplyPlan {
    /// The number of pairs of a skill and an agent, unless it is too large for
    /// the machine.
    pub fn pair_count(&self) -> (count: Option<usize>)
        ensures
            match count {
                Some(n) => n == self@.pairs(),
                None => self@.pairs() > usize::MAX,
            },
            match count {
                Some(n) => n == self.skill_ids@.len() * self.agent_keys@.len(),
                None => self.skill_ids@.len() * self.agent_keys@.len() > usize::MAX,
            },
    {
        self.skill_ids.len().checked_mul(self.agent_keys.len())
    }

    /// The plan if it is to be carried out: a dry run is not.
    pub fn to_carry_out(&self) -> (plan: Option<&ApplyPlan>)
        ensures
            plan == (if self.dry_run {
                None
            } else {
                Some(self)
            }),
    {
        if self.dry_run {
            None
        } else {
            Some(self)
        }
    }
}

proof fn lemma_ids_one_by_one(strings: Seq<String>, skills: Seq<SkillRecord>)
    requires
        texts(strings) == ids(skills),
    ensures
        strings.len() == skills.len(),
        forall|i: int| 0 <= i < skills.len() ==> (#[trigger] strings[i])@ == skills[i].id@,
{
    assert(texts(strings).len() == strings.len());
    assert(ids(skills).len() == skills.len());
    assert forall|i: int| 0 <= i < skills.len() implies (#[trigger] strings[i])@
        == skills[i].id@ by {
        assert(texts(strings)[i] == strings[i]@);
        assert(ids(skills)[i] == skills[i].id@);
    }
}

/// What a deploy request asks for, given the store's skills.
pub open spec fn deploy_plan(
    req: DeployRequest,
    skills: Result<Vec<SkillRecord>, String>,
) -> Result<PlanView, ErrorView> {
    if req.agents@.len() == 0 {
        Err(ErrorView::invalid_input("no agent key provided in `agents`"@))
    } else {
        match resolved(skills, req.references@) {
            Err(error) => Err(error),
            Ok(found) => Ok(
                PlanView {
                    skill_ids: ids(found),
                    agent_keys: texts(req.agents@),
                    mode: BatchApplyMode::Add,
                    dry_run: req.dry_run,
                },
            ),
        }
    }
}

/// `POST /api/skills/deploy`: what to apply, given what the store answered when
/// it was asked for all skills.
pub fn deploy_skills(req: &DeployRequest, skills: &Result<Vec<SkillRecord>, String>) -> (result:
    Result<ApplyPlan, AppError>)
    ensures
        seen(result) == deploy_plan(*req, *skills),
        match result {
            Ok(plan) => {
                &&& req.agents@.len() > 0
                &&& resolved(*skills, req.references@) matches Ok(found)
                &&& plan.skill_ids@.len() == found.len()
                &&& forall|i: int|
                    0 <= i < found.len() ==> (#[trigger] plan.skill_ids@[i])@ == found[i].id@
                &&& plan.agent_keys@.len() == req.agents@.len()
                &&& forall|i: int|
                    0 <= i < req.agents@.len() ==> (#[trigger] plan.agent_keys@[i])@
                        == req.agents@[i]@
                &&& plan.mode == BatchApplyMode::Add
                &&& plan.dry_run == req.dry_run
            },
            Err(error) => if req.agents@.len() == 0 {
                error.kind == ErrorKind::InvalidInput && error.message@
                    == "no agent key provided in `agents`"@
            } else {
                resolved(*skills, req.references@) == Err::<Seq<SkillRecord>, ErrorView>(
                    ErrorView { kind: error.kind, message: error.message@ },
                )
            },
        },
{
    if req.agents.len() == 0 {
        return Err(AppError::invalid_input("no agent key provided in `agents`"));
    }
    match resolve_references(skills, req.references.as_slice()) {
        Err(error) => Err(error),
        Ok(found) => {
            let plan = ApplyPlan {
                skill_ids: ids_of(&found),
                agent_keys: copied(&req.agents),
                mode: BatchApplyMode::Add,
                dry_run: req.dry_run,
            };
            proof {
                lemma_ids_one_by_one(plan.skill_ids@, found@);
            }
            Ok(plan)
        },
    }
}

/// The response to a deploy request whose plan was carried out with the result
/// `applied`; a dry run is not carried out, and `applied` does not count.
pub fn deployed(plan: &ApplyPlan, applied: Result<(), AppError>) -> (result: Result<
    DeployResponse,
    AppError,
>)
    requires
        plan@.pairs() <= usize::MAX,
    ensures
        match result {
            Ok(response) => (plan.dry_run || applied is Ok) && response.pair_count
                == plan@.pairs() && response.dry_run == plan.dry_run,
            Err(error) => !plan.dry_run && applied == Err::<(), AppError>(error),
        },
        match result {
            Ok(response) => response.pair_count == plan.skill_ids@.len() * plan.agent_keys@.len(),
            Err(_) => true,
        },
{
    if !plan.dry_run {
        match applied {
            Err(error) => {
                return Err(error);
            },
            Ok(()) => {},
        }
    }
    Ok(
        DeployResponse {
            pair_count: plan.skill_ids.len() * plan.agent_keys.len(),
            dry_run: plan.dry_run,
        },
    )
}

/// An undeploy request that names no agent, once its skills are known.
#[derive(Debug)]
pub struct PendingUndeploy {
    pub skill_ids: Vec<String>,
    pub dry_run: bool,
}

/// What an undeploy request needs next.
#[derive(Debug)]
pub enum UndeployStep {
    /// The plan is complete.
    Apply(ApplyPlan),
    /// The agents depend on what is deployed.
    NeedTargets(PendingUndeploy),
}

/// What an undeploy request needs next, as contracts see it.
pub enum UndeployView {
    Apply(PlanView),
    NeedTargets { skill_ids: Seq<Seq<char>>, dry_run: bool },
}

impl View for UndeployStep {
    type V = UndeployView;

    open spec fn view(&self) -> UndeployView {
        match self {
            UndeployStep::Apply(plan) => UndeployView::Apply(plan@),
            UndeployStep::NeedTargets(pending) => UndeployView::NeedTargets {
                skill_ids: texts(pending.skill_ids@),
                dry_run: pending.dry_run,
            },
        }
    }
}

/// What an undeploy request needs next, given the store's skills.
pub open spec fn undeploy_step(
    req: UndeployRequest,
    skills: Result<Vec<SkillRecord>, String>,
) -> Result<UndeployView, ErrorView> {
    match resolved(skills, req.references@) {
        Err(error) => Err(error),
        Ok(found) => if req.agents@.len() == 0 {
            Ok(UndeployView::NeedTargets { skill_ids: ids(found), dry_run: req.dry_run })
        } else {
            Ok(
                UndeployView::Apply(
                    PlanView {
                        skill_ids: ids(found),
                        agent_keys: texts(req.agents@),
                        mode: BatchApplyMode::Remove,
                        dry_run: req.dry_run,
                    },
                ),
            )
        },
    }
}

/// Whether `target` is a working deployment of one of the skills to the tool
/// `key`.
pub open spec fn is_deployment(target: SkillTarget, skill_ids: Seq<Seq<char>>, key: Seq<char>) -> bool {
    &&& target.tool@ == key
    &&& skill_ids.contains(target.skill_id@)
    &&& target.status@ == "ok"@
}

/// Whether one of the skills is deployed to the tool `key`.
pub open spec fn is_deployed_to(
    targets: Seq<SkillTarget>,
    skill_ids: Seq<Seq<char>>,
    key: Seq<char>,
) -> bool {
    exists|i: int| 0 <= i < targets.len() && is_deployment(#[trigger] targets[i], skill_ids, key)
}

/// Whether `keys` lists the tools that one of the skills is deployed to, in
/// ascending order and each once.
pub open spec fn lists_tools(
    keys: Seq<Seq<char>>,
    targets: Seq<SkillTarget>,
    skill_ids: Seq<Seq<char>>,
) -> bool {
    &&& ascending(keys)
    &&& forall|k: Seq<char>| #[trigger]
        keys.contains(k) <==> is_deployed_to(targets, skill_ids, k)
}

/// The tools that one of the skills is deployed to.
fn deployed_tools(targets: &Vec<SkillTarget>, skill_ids: &Vec<String>) -> (keys: Vec<String>)
    ensures
        lists_tools(texts(keys@), targets@, texts(skill_ids@)),
{
    let ghost wanted = texts(skill_ids@);
    let mut keys: Vec<String> = Vec::new();
    for i in 0..targets.len()
        invariant
            wanted == texts(skill_ids@),
            ascending(texts(keys@)),
            forall|k: Seq<char>| #[trigger]
                texts(keys@).contains(k) <==> is_deployed_to(
                    targets@.take(i as int),
                    wanted,
                    k,
                ),
    {
        let ghost before = texts(keys@);
        let target = &targets[i];
        let counts = holds(skill_ids, target.skill_id.as_str()) && same(
            target.status.as_str(),
            "ok",
        );
        if counts {
            insert_key(&mut keys, &target.tool);
        }
        assert forall|k: Seq<char>| #[trigger]
            texts(keys@).contains(k) <==> is_deployed_to(targets@.take(i + 1), wanted, k) by {
            assert(targets@.take(i + 1)[i as int] == targets@[i as int]);
            assert(before.contains(k) <==> is_deployed_to(targets@.take(i as int), wanted, k));
            if is_deployed_to(targets@.take(i as int), wanted, k) {
                let j = choose|j: int|
                    0 <= j < i && is_deployment(
                        #[trigger] targets@.take(i as int)[j],
                        wanted,
                        k,
                    );
                assert(targets@.take(i + 1)[j] == targets@.take(i as int)[j]);
            }
            if is_deployed_to(targets@.take(i + 1), wanted, k) {
                let j = choose|j: int|
                    0 <= j < i + 1 && is_deployment(
                        #[trigger] targets@.take(i + 1)[j],
                        wanted,
                        k,
                    );
                if j < i {
                    assert(targets@.take(i as int)[j] == targets@.take(i + 1)[j]);
                }
            }
        }
    }
    assert(targets@.take(targets@.len() as int) =~= targets@);
    keys
}

proof fn lemma_tools_one_by_one(
    keys: Seq<String>,
    targets: Seq<SkillTarget>,
    skill_ids: Seq<String>,
)
    requires
        lists_tools(texts(keys), targets, texts(skill_ids)),
    ensures
        forall|key: String| #[trigger]
            keys.contains(key) ==> exists|t: int, s: int|
                0 <= t < targets.len() && 0 <= s < skill_ids.len() && (
                #[trigger] targets[t]).tool@ == key@ && targets[t].skill_id@ == (
                #[trigger] skill_ids[s])@ && targets[t].status@ == "ok"@,
        forall|t: int, s: int|
            0 <= t < targets.len() && 0 <= s < skill_ids.len() && (
            #[trigger] targets[t]).skill_id@ == (#[trigger] skill_ids[s])@ && targets[t].status@
                == "ok"@ ==> exists|k: int|
                0 <= k < keys.len() && (#[trigger] keys[k])@ == targets[t].tool@,
        forall|k: int, h: int|
            0 <= k < h < keys.len() ==> precedes((#[trigger] keys[k])@, (#[trigger] keys[h])@),
{
    let wanted = texts(skill_ids);
    assert forall|string: String| #[trigger] keys.contains(string) implies exists|
        t: int,
        s: int,
    |
        0 <= t < targets.len() && 0 <= s < skill_ids.len() && (#[trigger] targets[t]).tool@
            == string@ && targets[t].skill_id@ == (#[trigger] skill_ids[s])@ && targets[t].status@
            == "ok"@ by {
        let key = string@;
        let k = keys.index_of(string);
        assert(texts(keys)[k] == key);
        assert(texts(keys).contains(key));
        let t = choose|t: int|
            0 <= t < targets.len() && is_deployment(#[trigger] targets[t], wanted, key);
        let s = wanted.index_of(targets[t].skill_id@);
        assert(wanted[s] == skill_ids[s]@);
        assert(targets[t].tool@ == key && targets[t].skill_id@ == skill_ids[s]@);
    }
    assert forall|t: int, s: int|
        0 <= t < targets.len() && 0 <= s < skill_ids.len() && (#[trigger] targets[t]).skill_id@
            == (#[trigger] skill_ids[s])@ && targets[t].status@ == "ok"@ implies exists|k: int|
        0 <= k < keys.len() && (#[trigger] keys[k])@ == targets[t].tool@ by {
        let key = targets[t].tool@;
        assert(wanted[s] == skill_ids[s]@);
        assert(wanted.contains(targets[t].skill_id@));
        assert(is_deployment(targets[t], wanted, key));
        assert(is_deployed_to(targets, wanted, key));
        assert(texts(keys).contains(key));
        let k = texts(keys).index_of(key);
        assert(texts(keys)[k] == keys[k]@);
    }
    assert forall|k: int, h: int| 0 <= k < h < keys.len() implies precedes(
        (#[trigger] keys[k])@,
        (#[trigger] keys[h])@,
    ) by {
        assert(texts(keys)[k] == keys[k]@ && texts(keys)[h] == keys[h]@);
    }
}

/// `POST /api/skills/undeploy`: what to apply, or what to find out first, given
/// what the store answered when it was asked for all skills.
pub fn undeploy_skills(req: &UndeployRequest, skills: &Result<Vec<SkillRecord>, String>) -> (result:
    Result<UndeployStep, AppError>)
    ensures
        seen(result) == undeploy_step(*req, *skills),
        match result {
            Ok(UndeployStep::Apply(plan)) => {
                &&& req.agents@.len() > 0
                &&& resolved(*skills, req.references@) matches Ok(found)
                &&& plan.skill_ids@.len() == found.len()
                &&& forall|i: int|
                    0 <= i < found.len() ==> (#[trigger] plan.skill_ids@[i])@ == found[i].id@
                &&& plan.agent_keys@.len() == req.agents@.len()
                &&& forall|i: int|
                    0 <= i < req.agents@.len() ==> (#[trigger] plan.agent_keys@[i])@
                        == req.agents@[i]@
                &&& plan.mode == BatchApplyMode::Remove
                &&& plan.dry_run == req.dry_run
            },
            Ok(UndeployStep::NeedTargets(pending)) => {
                &&& req.agents@.len() == 0
                &&& resolved(*skills, req.references@) matches Ok(found)
                &&& pending.skill_ids@.len() == found.len()
                &&& forall|i: int|
                    0 <= i < found.len() ==> (#[trigger] pending.skill_ids@[i])@ == found[i].id@
                &&& pending.dry_run == req.dry_run
            },
            Err(error) => resolved(*skills, req.references@) == Err::<
                Seq<SkillRecord>,
                ErrorView,
            >(ErrorView { kind: error.kind, message: error.message@ }),
        },
{
    match resolve_references(skills, req.references.as_slice()) {
        Err(error) => Err(error),
        Ok(found) => {
            let skill_ids = ids_of(&found);
            proof {
                lemma_ids_one_by_one(skill_ids@, found@);
            }
            if req.agents.len() == 0 {
                Ok(UndeployStep::NeedTargets(PendingUndeploy { skill_ids, dry_run: req.dry_run }))
            } else {
                let plan = ApplyPlan {
                    skill_ids,
                    agent_keys: copied(&req.agents),
                    mode: BatchApplyMode::Remove,
                    dry_run: req.dry_run,
                };
                Ok(UndeployStep::Apply(plan))
            }
        },
    }
}

impl PendingUndeploy {
    /// What to apply, given what the store answered when it was asked for all
    /// deployments.
    pub fn with_targets(self, targets: &Result<Vec<SkillTarget>, String>) -> (result: Result<
        ApplyPlan,
        AppError,
    >)
        ensures
            match (*targets, result) {
                (Err(reason), Err(error)) => error@ == ErrorView::db(reason@),
                (Ok(targets), Ok(plan)) => {
                    &&& plan@.skill_ids == texts(self.skill_ids@)
                    &&& lists_tools(plan@.agent_keys, targets@, texts(self.skill_ids@))
                    &&& plan.mode == BatchApplyMode::Remove
                    &&& plan.dry_run == self.dry_run
                },
                _ => false,
            },
            match (*targets, result) {
                (Ok(targets), Ok(plan)) => {
                    &&& plan.skill_ids@ == self.skill_ids@
                    &&& forall|key: String| #[trigger]
                        plan.agent_keys@.contains(key) ==> exists|t: int, s: int|
                            0 <= t < targets@.len() && 0 <= s < self.skill_ids@.len() && (
                            #[trigger] targets@[t]).tool@ == key@ && targets@[t].skill_id@ == (
                            #[trigger] self.skill_ids@[s])@ && targets@[t].status@ == "ok"@
                    &&& forall|t: int, s: int|
                        0 <= t < targets@.len() && 0 <= s < self.skill_ids@.len() && (
                        #[trigger] targets@[t]).skill_id@ == (#[trigger] self.skill_ids@[s])@
                            && targets@[t].status@ == "ok"@ ==> exists|k: int|
                            0 <= k < plan.agent_keys@.len() && (
                            #[trigger] plan.agent_keys@[k])@ == targets@[t].tool@
                    &&& forall|k: int, h: int|
                        0 <= k < h < plan.agent_keys@.len() ==> precedes(
                            (#[trigger] plan.agent_keys@[k])@,
                            (#[trigger] plan.agent_keys@[h])@,
                        )
                },
                _ => true,
            },
    {
        match targets {
            Err(reason) => Err(AppError::db(reason.as_str())),
            Ok(targets) => {
                let agent_keys = deployed_tools(targets, &self.skill_ids);
                proof {
                    lemma_tools_one_by_one(agent_keys@, targets@, self.skill_ids@);
                }
                Ok(
                    ApplyPlan {
                        skill_ids: self.skill_ids,
                        agent_keys,
                        mode: BatchApplyMode::Remove,
                        dry_run: self.dry_run,
                    },
                )
            },
        }
    }
}

/// The response to an undeploy request whose plan was carried out with the
/// result `applied`; a dry run is not carried out, and `applied` does not count.
pub fn undeployed(plan: &ApplyPlan, applied: Result<(), AppError>) -> (result: Result<
    UndeployResponse,
    AppError,
>)
    requires
        plan@.pairs() <= usize::MAX,
    ensures
        match result {
            Ok(response) => (plan.dry_run || applied is Ok) && response.pair_count
                == plan@.pairs() && response.dry_run == plan.dry_run,
            Err(error) => !plan.dry_run && applied == Err::<(), AppError>(error),
        },
        match result {
            Ok(response) => response.pair_count == plan.skill_ids@.len() * plan.agent_keys@.len(),
            Err(_) => true,
        },
{
    match deployed(plan, applied) {
        Err(error) => Err(error),
        Ok(response) => Ok(
            UndeployResponse { pair_count: response.pair_count, dry_run: response.dry_run },
        ),
    }
}

// ── install ─────────────────────────────────────────────────────────────

/// Where an installed skill came from.
#[derive(Debug, PartialEq, Eq)]
pub struct InstallSourceMetadata {
    pub source_type: String,
    pub source_ref: Option<String>,
    pub source_ref_resolved: Option<String>,
    pub source_subpath: Option<String>,
    pub source_branch: Option<String>,
    pub source_revision: Option<String>,
    pub remote_revision: Option<String>,
    pub update_status: String,
}

impl InstallSourceMetadata {
    /// Whether this describes a skill taken from the local path `source`, which
    /// nothing remote stands behind.
    pub open spec fn is_local(self, source_type: Seq<char>, source: Seq<char>) -> bool {
        &&& self.source_type@ == source_type
        &&& text(self.source_ref) == Some(source)
        &&& self.source_ref_resolved is None
        &&& self.source_subpath is None
        &&& self.source_branch is None
        &&& self.source_revision is None
        &&& self.remote_revision is None
        &&& self.update_status@ == "local_only"@
    }

    /// The metadata of a skill taken from a local path.
    pub(crate) fn local(source_type: &str, source: &str) -> (metadata: InstallSourceMetadata)
        ensures
            metadata.is_local(source_type@, source@),
    {
        InstallSourceMetadata {
            source_type: source_type.to_owned(),
            source_ref: Some(source.to_owned()),
            source_ref_resolved: None,
            source_subpath: None,
            source_branch: None,
            source_revision: None,
            remote_revision: None,
            update_status: "local_only".to_owned(),
        }
    }
}

/// A skill to install from a local path.
#[derive(Debug, PartialEq, Eq)]
pub struct InstallOrder {
    pub source_path: String,
    pub name: Option<String>,
    pub metadata: InstallSourceMetadata,
}

/// What came of installing a skill from a local path.
#[derive(Debug)]
pub enum InstallOutcome {
    /// The library could not be locked.
    LockFailed(String),
    /// The skill could not be copied into the library.
    CopyFailed(String),
    /// The copied skill could not be recorded.
    StoreFailed(AppError),
    /// The skill is in the library.
    Installed { skill_id: String, name: String, central_path: String },
}

impl InstallOutcome {
    /// The error of an installation that failed.
    pub open spec fn failure(self) -> Option<ErrorView> {
        match self {
            InstallOutcome::LockFailed(reason) => Some(ErrorView::db(reason@)),
            InstallOutcome::CopyFailed(reason) => Some(ErrorView::io(reason@)),
            InstallOutcome::StoreFailed(error) => Some(error@),
            InstallOutcome::Installed { .. } => None,
        }
    }
}

/// What is to be installed, as contracts see it.
#[verifier::ext_equal]
pub struct OrderView {
    pub source_path: Seq<char>,
    pub name: Option<Seq<char>>,
    pub metadata: InstallSourceMetadata,
}

impl View for InstallOrder {
    type V = OrderView;

    open spec fn view(&self) -> OrderView {
        OrderView {
            source_path: self.source_path@,
            name: text(self.name),
            metadata: self.metadata,
        }
    }
}

/// A skill to copy into the central library, which is locked. There is none
/// unless the library could be locked.
#[derive(Debug)]
pub struct CopyOrder {
    order: InstallOrder,
}

impl View for CopyOrder {
    type V = OrderView;

    closed spec fn view(&self) -> OrderView {
        self.order@
    }
}

/// A copied skill as contracts see it.
#[verifier::ext_equal]
pub struct RecordView {
    pub name: Seq<char>,
    pub central_path: Seq<char>,
    pub metadata: InstallSourceMetadata,
}

/// A skill that was copied into the central library, to record in the store.
/// There is none unless the skill could be copied.
#[derive(Debug)]
pub struct RecordOrder {
    name: String,
    central_path: String,
    metadata: InstallSourceMetadata,
}

impl View for RecordOrder {
    type V = RecordView;

    closed spec fn view(&self) -> RecordView {
        RecordView {
            name: self.name@,
            central_path: self.central_path@,
            metadata: self.metadata,
        }
    }
}

impl InstallOrder {
    /// What to copy, given whether the library could be locked. Without the lock
    /// nothing is copied.
    pub fn locked(self, lock: Result<(), String>) -> (result: Result<CopyOrder, InstallOutcome>)
        ensures
            match lock {
                Err(reason) => result == Err::<CopyOrder, InstallOutcome>(
                    InstallOutcome::LockFailed(reason),
                ),
                Ok(()) => result matches Ok(copy) && copy@ == self@,
            },
    {
        match lock {
            Err(reason) => Err(InstallOutcome::LockFailed(reason)),
            Ok(()) => Ok(CopyOrder { order: self }),
        }
    }
}

impl CopyOrder {
    /// The path to copy from.
    pub fn source_path(&self) -> (path: &str)
        ensures
            path@ == self@.source_path,
    {
        self.order.source_path.as_str()
    }

    /// The name that the request gives the skill.
    pub fn name(&self) -> (name: Option<&str>)
        ensures
            match name {
                Some(n) => self@.name == Some(n@),
                None => self@.name is None,
            },
    {
        match &self.order.name {
            Some(name) => Some(name.as_str()),
            None => None,
        }
    }

    /// What to record, given the name and the path that the skill got in the
    /// library. A skill that could not be copied is not recorded.
    pub fn copied(self, copy: Result<(String, String), String>) -> (result: Result<
        RecordOrder,
        InstallOutcome,
    >)
        ensures
            match copy {
                Err(reason) => result == Err::<RecordOrder, InstallOutcome>(
                    InstallOutcome::CopyFailed(reason),
                ),
                Ok((name, central_path)) => result matches Ok(record) && record@ == (RecordView {
                    name: name@,
                    central_path: central_path@,
                    metadata: self@.metadata,
                }),
            },
    {
        match copy {
            Err(reason) => Err(InstallOutcome::CopyFailed(reason)),
            Ok((name, central_path)) => Ok(
                RecordOrder { name, central_path, metadata: self.order.metadata },
            ),
        }
    }
}

impl RecordOrder {
    /// The name of the skill in the library.
    pub fn name(&self) -> (name: &str)
        ensures
            name@ == self@.name,
    {
        self.name.as_str()
    }

    /// The path of the skill in the library.
    pub fn central_path(&self) -> (path: &str)
        ensures
            path@ == self@.central_path,
    {
        self.central_path.as_str()
    }

    /// Where the skill came from.
    pub fn metadata(&self) -> (metadata: &InstallSourceMetadata)
        ensures
            *metadata == self@.metadata,
    {
        &self.metadata
    }

    /// What came of the installation, given the id under which the skill was
    /// recorded.
    pub fn recorded(self, id: Result<String, AppError>) -> (outcome: InstallOutcome)
        ensures
            match id {
                Err(error) => outcome == InstallOutcome::StoreFailed(error),
                Ok(id) => outcome matches InstallOutcome::Installed {
                    skill_id,
                    name,
                    central_path,
                } && skill_id == id && name@ == self@.name && central_path@ == self@.central_path,
            },
    {
        match id {
            Err(error) => InstallOutcome::StoreFailed(error),
            Ok(skill_id) => InstallOutcome::Installed {
                skill_id,
                name: self.name,
                central_path: self.central_path,
            },
        }
    }
}

/// `POST /api/skills/install`: what to install, given whether the path of the
/// request exists.
pub fn install_skill(req: &InstallRequest, exists: bool) -> (result: Result<
    InstallOrder,
    AppError,
>)
    ensures
        match result {
            Ok(order) => {
                &&& exists
                &&& order.source_path@ == req.source_path@
                &&& text(order.name) == text(req.name)
                &&& order.metadata.is_local("local"@, req.source_path@)
            },
            Err(error) => {
                &&& !exists
                &&& error@ == ErrorView::invalid_input(
                    "local path does not exist: "@ + req.source_path@,
                )
            },
        },
        result matches Ok(order) ==> {
            &&& order.name is Some <==> req.name is Some
            &&& req.name is Some ==> order.name->0@ == req.name->0@
            &&& order.metadata.source_type@ == "local"@
            &&& order.metadata.source_ref matches Some(source) && source@ == req.source_path@
            &&& order.metadata.source_ref_resolved is None
            &&& order.metadata.source_subpath is None
            &&& order.metadata.source_branch is None
            &&& order.metadata.source_revision is None
            &&& order.metadata.remote_revision is None
            &&& order.metadata.update_status@ == "local_only"@
        },
{
    if !exists {
        return Err(
            AppError::invalid_input(
                joined("local path does not exist: ", req.source_path.as_str()).as_str(),
            ),
        );
    }
    let name = match &req.name {
        Some(name) => Some(name.clone()),
        None => None,
    };
    Ok(
        InstallOrder {
            source_path: req.source_path.clone(),
            name,
            metadata: InstallSourceMetadata::local("local", req.source_path.as_str()),
        },
    )
}

/// The response to an install request.
pub fn installed(outcome: InstallOutcome) -> (result: Result<InstallResponse, AppError>)
    ensures
        match result {
            Ok(response) => outcome == (InstallOutcome::Installed {
                skill_id: response.skill_id,
                name: response.name,
                central_path: response.central_path,
            }),
            Err(error) => outcome.failure() == Some(error@),
        },
        match outcome {
            InstallOutcome::LockFailed(reason) => result matches Err(error) && error.kind
                == ErrorKind::Database && error.message@ == reason@,
            InstallOutcome::CopyFailed(reason) => result matches Err(error) && error.kind
                == ErrorKind::Io && error.message@ == reason@,
            InstallOutcome::StoreFailed(expected) => result == Err::<InstallResponse, AppError>(
                expected,
            ),
            InstallOutcome::Installed { skill_id, name, central_path } => result matches Ok(
                response,
            ) && response.skill_id@ == skill_id@ && response.name@ == name@
                && response.central_path@ == central_path@,
        },
{
    match outcome {
        InstallOutcome::LockFailed(reason) => Err(AppError::db(reason.as_str())),
        InstallOutcome::CopyFailed(reason) => Err(AppError::io(reason.as_str())),
        InstallOutcome::StoreFailed(error) => Err(error),
        InstallOutcome::Installed { skill_id, name, central_path } => Ok(
            InstallResponse { skill_id, name, central_path },
        ),
    }
}

// ── remove ──────────────────────────────────────────────────────────────

/// What came of removing skills.
#[derive(Debug)]
pub struct BatchDeleteResult {
    pub deleted: usize,
    pub failed: Vec<String>,
}

/// `POST /api/skills/remove`: the ids of the skills to remove, given what the
/// store answered when it was asked for all skills.
pub fn remove_skills(req: &RemoveRequest, skills: &Result<Vec<SkillRecord>, String>) -> (result:
    Result<Vec<String>, AppError>)
    ensures
        match (resolved(*skills, req.references@), result) {
            (Ok(found), Ok(skill_ids)) => texts(skill_ids@) == ids(found),
            (Err(expected), Err(error)) => error@ == expected,
            _ => false,
        },
        match result {
            Ok(skill_ids) => {
                &&& resolved(*skills, req.references@) matches Ok(found)
                &&& skill_ids@.len() == found.len()
                &&& forall|i: int|
                    0 <= i < found.len() ==> (#[trigger] skill_ids@[i])@ == found[i].id@
            },
            Err(error) => resolved(*skills, req.references@) == Err::<
                Seq<SkillRecord>,
                ErrorView,
            >(ErrorView { kind: error.kind, message: error.message@ }),
        },
{
    match resolve_references(skills, req.references.as_slice()) {
        Err(error) => Err(error),
        Ok(found) => {
            let skill_ids = ids_of(&found);
            proof {
                lemma_ids_one_by_one(skill_ids@, found@);
            }
            Ok(skill_ids)
        },
    }
}

/// The response to a remove request.
pub fn removed(outcome: Result<BatchDeleteResult, AppError>) -> (result: Result<
    RemoveResponse,
    AppError,
>)
    ensures
        match (outcome, result) {
            (Ok(done), Ok(response)) => response.deleted == done.deleted && response.failed
                == done.failed,
            (Err(expected), Err(error)) => error == expected,
            _ => false,
        },
{
    match outcome {
        Err(error) => Err(error),
        Ok(done) => Ok(RemoveResponse { deleted: done.deleted, failed: done.failed }),
    }
}

// ── tag ─────────────────────────────────────────────────────────────────

/// The tags on record for a skill, none where nothing is on record.
pub open spec fn tags_of(entries: Seq<SkillTags>, id: Seq<char>) -> Seq<String>
    decreases entries.len(),
{
    if entries.len() == 0 {
        seq![]
    } else if entries[0].skill_id@ == id {
        entries[0].tags@
    } else {
        tags_of(entries.skip(1), id)
    }
}

fn find_tags(entries: &Vec<SkillTags>, id: &str) -> (tags: Vec<String>)
    ensures
        tags@ == tags_of(entries@, id@),
{
    assert(entries@.skip(0) =~= entries@);
    for i in 0..entries.len()
        invariant
            tags_of(entries@, id@) == tags_of(entries@.skip(i as int), id@),
    {
        if same(entries[i].skill_id.as_str(), id) {
            return copied(&entries[i].tags);
        }
        assert(entries@.skip(i as int).skip(1) =~= entries@.skip(i + 1));
    }
    Vec::new()
}

/// `POST /api/skills/tag`: the skill to tag, given what the store answered when
/// it was asked for all skills.
pub fn set_tags(req: &TagRequest, skills: &Result<Vec<SkillRecord>, String>) -> (result: Result<
    SkillRecord,
    AppError,
>)
    ensures
        match *skills {
            Err(reason) => result matches Err(error) && error@ == ErrorView::db(reason@),
            Ok(all) => match first_match(all@, req.reference@) {
                Some(skill) => result == Ok::<SkillRecord, AppError>(skill),
                None => result matches Err(error) && error@ == ErrorView::not_found(
                    "skill not found: "@ + req.reference@,
                ),
            },
        },
{
    let mut references: Vec<String> = Vec::new();
    references.push(req.reference.clone());
    proof {
        reveal_with_fuel(crate::resolve::resolution, 2);
    }
    match resolve_references(skills, references.as_slice()) {
        Err(error) => Err(error),
        Ok(mut found) => match found.pop() {
            Some(skill) => Ok(skill),
            None => Err(
                AppError::not_found(joined("skill not found: ", req.reference.as_str()).as_str()),
            ),
        },
    }
}

/// The response to a tag request for `skill`, given whether its tags could be
/// set and what the store answered when it was asked for all tags afterwards.
pub fn tagged(
    skill: SkillRecord,
    stored: Result<(), AppError>,
    tags: &Result<Vec<SkillTags>, String>,
) -> (result: Result<TagResponse, AppError>)
    ensures
        match stored {
            Err(expected) => result == Err::<TagResponse, AppError>(expected),
            Ok(()) => match *tags {
                Err(reason) => result matches Err(error) && error@ == ErrorView::db(reason@),
                Ok(entries) => result matches Ok(response) && response.skill_id == skill.id
                    && response.name == skill.name && response.tags@ == tags_of(
                    entries@,
                    skill.id@,
                ),
            },
        },
        match (result, *tags) {
            (Ok(response), Ok(entries)) => {
                ||| response.tags@.len() == 0 && forall|j: int|
                    0 <= j < entries@.len() ==> (#[trigger] entries@[j]).skill_id@ != skill.id@
                ||| exists|i: int|
                    0 <= i < entries@.len() && (#[trigger] entries@[i]).skill_id@ == skill.id@
                        && response.tags@ == entries@[i].tags@ && forall|j: int|
                        0 <= j < i ==> (#[trigger] entries@[j]).skill_id@ != skill.id@
            },
            _ => true,
        },
{
    match stored {
        Err(error) => Err(error),
        Ok(()) => match tags {
            Err(reason) => Err(AppError::db(reason.as_str())),
            Ok(entries) => {
                proof {
                    tags_of_the_first_entry(entries@, skill.id@);
                }
                let tags = find_tags(entries, skill.id.as_str());
                Ok(TagResponse { skill_id: skill.id, name: skill.name, tags })
            },
        },
    }
}

// ── laws ────────────────────────────────────────────────────────────────

/// A dry run of a deploy request plans, and so counts and refuses, exactly what
/// the run itself does.
pub proof fn dry_run_plans_the_same(
    dry: DeployRequest,
    run: DeployRequest,
    skills: Result<Vec<SkillRecord>, String>,
)
    requires
        dry.references == run.references,
        dry.agents == run.agents,
    ensures
        match (deploy_plan(dry, skills), deploy_plan(run, skills)) {
            (Ok(a), Ok(b)) => a.pairs() == b.pairs() && (PlanView { dry_run: b.dry_run, ..a }) == b,
            (Err(a), Err(b)) => a == b,
            _ => false,
        },
{
}

/// A dry run of an undeploy request needs exactly what the run itself does.
pub proof fn undeploy_dry_run_needs_the_same(
    dry: UndeployRequest,
    run: UndeployRequest,
    skills: Result<Vec<SkillRecord>, String>,
)
    requires
        dry.references == run.references,
        dry.agents == run.agents,
    ensures
        match (undeploy_step(dry, skills), undeploy_step(run, skills)) {
            (Ok(UndeployView::Apply(a)), Ok(UndeployView::Apply(b))) => a.pairs() == b.pairs() && (
            PlanView { dry_run: b.dry_run, ..a }) == b,
            (
                Ok(UndeployView::NeedTargets { skill_ids: a, .. }),
                Ok(UndeployView::NeedTargets { skill_ids: b, .. }),
            ) => a == b,
            (Err(a), Err(b)) => a == b,
            _ => false,
        },
{
}

/// No request deploys, takes back or removes a skill twice, however often and
/// under whatever name its references give it.
pub proof fn planned_once(skills: Result<Vec<SkillRecord>, String>, references: Seq<String>)
    ensures
        resolved(skills, references) matches Ok(found) ==> ids(found).no_duplicates(),
{
    if let Ok(all) = skills {
        resolved_once(all@, references);
        if let Ok(found) = resolved(skills, references) {
            assert forall|i: int, j: int|
                0 <= i < ids(found).len() && 0 <= j < ids(found).len() && i != j implies ids(
                found,
            )[i] != ids(found)[j] by {
                assert(ids(found)[i] == found[i].id@ && ids(found)[j] == found[j].id@);
            }
        }
    }
}

/// The tools that skills are deployed to can be listed in one way only, whatever
/// the order in which the store gives the deployments.
pub proof fn tool_list_is_unique(
    a: Seq<Seq<char>>,
    b: Seq<Seq<char>>,
    targets: Seq<SkillTarget>,
    skill_ids: Seq<Seq<char>>,
)
    requires
        lists_tools(a, targets, skill_ids),
        lists_tools(b, targets, skill_ids),
    ensures
        a == b,
{
    assert forall|k: Seq<char>| #[trigger] a.contains(k) <==> b.contains(k) by {
        assert(b.contains(k) <==> is_deployed_to(targets, skill_ids, k));
    }
    ascending_is_unique(a, b);
}

/// In a table with one entry for each skill, the order of the entries does not
/// matter: the tags on record for a skill are those of its entry.
pub proof fn tags_of_the_only_entry(entries: Seq<SkillTags>, i: int)
    requires
        0 <= i < entries.len(),
        forall|j: int, k: int|
            0 <= j < k < entries.len() ==> (#[trigger] entries[j]).skill_id@ != (
            #[trigger] entries[k]).skill_id@,
    ensures
        tags_of(entries, entries[i].skill_id@) == entries[i].tags@,
    decreases entries.len(),
{
    if i > 0 {
        let rest = entries.skip(1);
        assert(entries[0].skill_id@ != entries[i].skill_id@);
        assert forall|j: int, k: int| 0 <= j < k < rest.len() implies (
        #[trigger] rest[j]).skill_id@ != (#[trigger] rest[k]).skill_id@ by {
            assert(rest[j] == entries[j + 1] && rest[k] == entries[k + 1]);
        }
        tags_of_the_only_entry(rest, i - 1);
    }
}

/// The tags on record for a skill are those of the first entry with its id. Where
/// no entry has its id there are none, whatever is on record for others.
pub proof fn tags_of_the_first_entry(entries: Seq<SkillTags>, id: Seq<char>)
    ensures
        (forall|j: int| 0 <= j < entries.len() ==> (#[trigger] entries[j]).skill_id@ != id)
            ==> tags_of(entries, id).len() == 0,
        (exists|j: int| 0 <= j < entries.len() && (#[trigger] entries[j]).skill_id@ == id)
            ==> exists|i: int|
            0 <= i < entries.len() && (#[trigger] entries[i]).skill_id@ == id && tags_of(
                entries,
                id,
            ) == entries[i].tags@ && forall|j: int|
                0 <= j < i ==> (#[trigger] entries[j]).skill_id@ != id,
    decreases entries.len(),
{
    if entries.len() > 0 && entries[0].skill_id@ != id {
        let rest = entries.skip(1);
        tags_of_the_first_entry(rest, id);
        assert forall|j: int| 0 < j < entries.len() implies #[trigger] entries[j] == rest[
        j - 1] by {}
        assert forall|j: int| 0 <= j < rest.len() implies #[trigger] rest[j] == entries[
        j + 1] by {}
        if exists|j: int| 0 <= j < rest.len() && (#[trigger] rest[j]).skill_id@ == id {
            let i = choose|i: int|
                0 <= i < rest.len() && (#[trigger] rest[i]).skill_id@ == id && tags_of(rest, id)
                    == rest[i].tags@ && forall|j: int|
                    0 <= j < i ==> (#[trigger] rest[j]).skill_id@ != id;
            assert(entries[i + 1] == rest[i]);
        }
        if exists|j: int| 0 <= j < entries.len() && (#[trigger] entries[j]).skill_id@ == id {
            let j = choose|j: int|
                0 <= j < entries.len() && (#[trigger] entries[j]).skill_id@ == id;
            assert(rest[j - 1] == entries[j]);
        }
    }
}

/// The tags on record for one skill do not depend on the entries of others.
pub proof fn tags_of_ignores_others(entries: Seq<SkillTags>, other: SkillTags, id: Seq<char>)
    requires
        other.skill_id@ != id,
    ensures
        tags_of(entries.push(other), id) == tags_of(entries, id),
        tags_of(seq![other] + entries, id) == tags_of(entries, id),
    decreases entries.len(),
{
    assert((seq![other] + entries).skip(1) =~= entries);
    let longer = entries.push(other);
    if entries.len() == 0 {
        assert(longer.skip(1) =~= entries);
    } else if entries[0].skill_id@ != id {
        tags_of_ignores_others(entries.skip(1), other, id);
        assert(longer.skip(1) =~= entries.skip(1).push(other));
    }
}

/// Contracts see the whole of a plan and of an order, string by string.
pub proof fn plans_are_seen_whole(plan: ApplyPlan, order: InstallOrder)
    ensures
        plan@.skill_ids.len() == plan.skill_ids@.len(),
        forall|i: int|
            0 <= i < plan.skill_ids@.len() ==> #[trigger] plan@.skill_ids[i]
                == plan.skill_ids@[i]@,
        plan@.agent_keys.len() == plan.agent_keys@.len(),
        forall|i: int|
            0 <= i < plan.agent_keys@.len() ==> #[trigger] plan@.agent_keys[i]
                == plan.agent_keys@[i]@,
        plan@.mode == plan.mode,
        plan@.dry_run == plan.dry_run,
        plan@.pairs() == plan.skill_ids@.len() * plan.agent_keys@.len(),
        order@.source_path == order.source_path@,
        order@.name is Some <==> order.name is Some,
        order.name is Some ==> order@.name->0 == order.name->0@,
        order@.metadata == order.metadata,
{
}

/// The ids of skills are theirs one by one.
pub proof fn ids_are_kept(skills: Seq<SkillRecord>, i: int)
    requires
        0 <= i < skills.len(),
    ensures
        ids(skills).len() == skills.len(),
        ids(skills)[i] == skills[i].id@,
{
}

} // verus!

//! Requests that only read: health, tools, skills and presets.

use crate::error::{AppError, ErrorView};
use crate::records::{PresetRecord, SkillRecord, SkillTags, SkillTarget, ToolInfo};
use crate::path::last_name;
use crate::resolve::{
    find_skill, first_match, first_match_by_text, first_match_is_first, refers_to,
};
use crate::text::{joined, same};
use vstd::prelude::*;

verus! {

/// The server is up.
#[derive(Debug, PartialEq, Eq)]
pub struct HealthResponse {
    pub ok: bool,
    pub server: &'static str,
    pub version: &'static str,
}

/// `GET /api/health`, answered by a build of the given version.
pub fn health(version: &'static str) -> (response: HealthResponse)
    ensures
        response.ok,
        response.server@ == "skills-manager-web"@,
        response.version@ == version@,
{
    HealthResponse { ok: true, server: "skills-manager-web", version }
}

/// What a response tells of a tool.
#[derive(Debug, PartialEq, Eq)]
pub struct ToolInfoDto {
    pub key: String,
    pub display_name: String,
    pub installed: bool,
    pub skills_dir: String,
    pub enabled: bool,
    pub is_custom: bool,
    pub has_path_override: bool,
    pub project_relative_skills_dir: Option<String>,
    pub has_project_path_override: bool,
    pub category: String,
}

impl ToolInfoDto {
    /// Whether this tells what is known of the tool.
    pub open spec fn describes(self, info: ToolInfo) -> bool {
        &&& self.key == info.key
        &&& self.display_name == info.display_name
        &&& self.installed == info.installed
        &&& self.skills_dir == info.skills_dir
        &&& self.enabled == info.enabled
        &&& self.is_custom == info.is_custom
        &&& self.has_path_override == info.has_path_override
        &&& self.project_relative_skills_dir == info.project_relative_skills_dir
        &&& self.has_project_path_override == info.has_project_path_override
        &&& self.category == info.category
    }
}

/// A copy of a string that may be missing.
fn copied_option(string: &Option<String>) -> (copy: Option<String>)
    ensures
        copy == *string,
{
    match string {
        Some(s) => Some(s.clone()),
        None => None,
    }
}

/// `GET /api/tools`: one entry for each tool, in the same order.
pub fn list_tools(infos: &Vec<ToolInfo>) -> (dtos: Vec<ToolInfoDto>)
    ensures
        dtos@.len() == infos@.len(),
        forall|i: int| 0 <= i < infos@.len() ==> (#[trigger] dtos@[i]).describes(infos@[i]),
        forall|i: int|
            0 <= i < infos@.len() ==> {
                &&& (#[trigger] dtos@[i]).key@ == infos@[i].key@
                &&& dtos@[i].display_name@ == infos@[i].display_name@
                &&& dtos@[i].installed == infos@[i].installed
                &&& dtos@[i].skills_dir@ == infos@[i].skills_dir@
                &&& dtos@[i].enabled == infos@[i].enabled
                &&& dtos@[i].is_custom == infos@[i].is_custom
                &&& dtos@[i].has_path_override == infos@[i].has_path_override
                &&& dtos@[i].project_relative_skills_dir == infos@[i].project_relative_skills_dir
                &&& dtos@[i].has_project_path_override == infos@[i].has_project_path_override
                &&& dtos@[i].category@ == infos@[i].category@
            },
{
    let mut dtos: Vec<ToolInfoDto> = Vec::new();
    for i in 0..infos.len()
        invariant
            dtos@.len() == i,
            forall|j: int| 0 <= j < i ==> (#[trigger] dtos@[j]).describes(infos@[j]),
    {
        let info = &infos[i];
        dtos.push(
            ToolInfoDto {
                key: info.key.clone(),
                display_name: info.display_name.clone(),
                installed: info.installed,
                skills_dir: info.skills_dir.clone(),
                enabled: info.enabled,
                is_custom: info.is_custom,
                has_path_override: info.has_path_override,
                project_relative_skills_dir: copied_option(&info.project_relative_skills_dir),
                has_project_path_override: info.has_project_path_override,
                category: info.category.clone(),
            },
        );
    }
    dtos
}

/// The deployments and tags that skills are shown with.
#[derive(Debug)]
pub struct SkillContext {
    pub targets: Vec<SkillTarget>,
    pub tags: Vec<SkillTags>,
}

/// The deployments and tags of all skills, given what the store answered when it
/// was asked for each.
pub fn skill_context(
    targets: Result<Vec<SkillTarget>, String>,
    tags: Result<Vec<SkillTags>, String>,
) -> (result: Result<SkillContext, AppError>)
    ensures
        match (targets, tags) {
            (Err(reason), _) => result matches Err(error) && error@ == ErrorView::db(reason@),
            (Ok(_), Err(reason)) => result matches Err(error) && error@ == ErrorView::db(
                reason@,
            ),
            (Ok(targets), Ok(tags)) => result == Ok::<SkillContext, AppError>(
                SkillContext { targets, tags },
            ),
        },
{
    match targets {
        Err(reason) => Err(AppError::db(reason.as_str())),
        Ok(targets) => match tags {
            Err(reason) => Err(AppError::db(reason.as_str())),
            Ok(tags) => Ok(SkillContext { targets, tags }),
        },
    }
}

/// `GET /api/skills`: the skills to show, in the store's order, with what they
/// are shown with. The first answer of the store that is an error decides.
pub fn list_skills(
    skills: Result<Vec<SkillRecord>, String>,
    targets: Result<Vec<SkillTarget>, String>,
    tags: Result<Vec<SkillTags>, String>,
) -> (result: Result<(Vec<SkillRecord>, SkillContext), AppError>)
    ensures
        match (skills, targets, tags) {
            (Err(reason), _, _) => result matches Err(error) && error@ == ErrorView::db(reason@),
            (Ok(_), Err(reason), _) => result matches Err(error) && error@ == ErrorView::db(
                reason@,
            ),
            (Ok(_), Ok(_), Err(reason)) => result matches Err(error) && error@ == ErrorView::db(
                reason@,
            ),
            (Ok(skills), Ok(targets), Ok(tags)) => result == Ok::<
                (Vec<SkillRecord>, SkillContext),
                AppError,
            >((skills, SkillContext { targets, tags })),
        },
{
    match skills {
        Err(reason) => Err(AppError::db(reason.as_str())),
        Ok(skills) => match skill_context(targets, tags) {
            Err(error) => Err(error),
            Ok(context) => Ok((skills, context)),
        },
    }
}

/// How to go on with a request for one skill.
#[derive(Debug)]
pub enum SkillLookup {
    /// The request gave the skill's id.
    Found(SkillRecord),
    /// No skill has that id; it may name one otherwise.
    TryName,
}

/// `GET /api/skills/{id}`: how to go on, given what the store answered when it
/// was asked for the skill with that id.
pub fn get_skill(by_id: Result<Option<SkillRecord>, String>) -> (result: Result<
    SkillLookup,
    AppError,
>)
    ensures
        match by_id {
            Err(reason) => result matches Err(error) && error@ == ErrorView::db(reason@),
            Ok(Some(skill)) => result == Ok::<SkillLookup, AppError>(SkillLookup::Found(skill)),
            Ok(None) => result == Ok::<SkillLookup, AppError>(SkillLookup::TryName),
        },
{
    match by_id {
        Err(reason) => Err(AppError::db(reason.as_str())),
        Ok(Some(skill)) => Ok(SkillLookup::Found(skill)),
        Ok(None) => Ok(SkillLookup::TryName),
    }
}

/// The first of `skills` with this name.
pub open spec fn first_named(skills: Seq<SkillRecord>, name: Seq<char>) -> Option<SkillRecord>
    decreases skills.len(),
{
    if skills.len() == 0 {
        None
    } else if skills[0].name@ == name {
        Some(skills[0])
    } else {
        first_named(skills.skip(1), name)
    }
}

/// The first of `skills` with this name.
pub fn find_named(skills: &Vec<SkillRecord>, name: &str) -> (found: Option<SkillRecord>)
    ensures
        found == first_named(skills@, name@),
{
    assert(skills@.skip(0) =~= skills@);
    for i in 0..skills.len()
        invariant
            first_named(skills@, name@) == first_named(skills@.skip(i as int), name@),
    {
        if same(skills[i].name.as_str(), name) {
            return Some(skills[i].clone());
        }
        assert(skills@.skip(i as int).skip(1) =~= skills@.skip(i + 1));
    }
    None
}

/// The skill that a request for one skill means by `id`: the first of that name,
/// or else the first that `id` refers to in any other way.
pub open spec fn named_skill(skills: Seq<SkillRecord>, id: Seq<char>) -> Option<SkillRecord> {
    match first_named(skills, id) {
        Some(skill) => Some(skill),
        None => first_match(skills, id),
    }
}

/// The skill that `id` names, by its name or else by the last name of its central
/// path, given what the store answered when it was asked for all skills. A store
/// that does not answer counts as one without skills.
pub fn get_skill_by_name(id: &str, skills: &Result<Vec<SkillRecord>, String>) -> (result: Result<
    SkillRecord,
    AppError,
>)
    ensures
        ({
            let found = match *skills {
                Ok(all) => named_skill(all@, id@),
                Err(_) => None,
            };
            match found {
                Some(skill) => result == Ok::<SkillRecord, AppError>(skill),
                None => result matches Err(error) && error@ == ErrorView::not_found(
                    "skill not found: "@ + id@,
                ),
            }
        }),
{
    let found = match skills {
        Ok(all) => match find_named(all, id) {
            Some(skill) => Some(skill),
            None => find_skill(all, id),
        },
        Err(_) => None,
    };
    match found {
        Some(skill) => Ok(skill),
        None => Err(AppError::not_found(joined("skill not found: ", id).as_str())),
    }
}

/// `GET /api/presets`: the presets to show, in the store's order.
pub fn list_presets(presets: Result<Vec<PresetRecord>, String>) -> (result: Result<
    Vec<PresetRecord>,
    AppError,
>)
    ensures
        match presets {
            Err(reason) => result matches Err(error) && error@ == ErrorView::db(reason@),
            Ok(presets) => result == Ok::<Vec<PresetRecord>, AppError>(presets),
        },
{
    match presets {
        Err(reason) => Err(AppError::db(reason.as_str())),
        Ok(presets) => Ok(presets),
    }
}

/// `GET /api/presets/active`: the id of the preset to look for, if there is one,
/// given what the store answered when it was asked for the active preset's id.
pub fn get_active_preset(active_id: Result<Option<String>, String>) -> (result: Result<
    Option<String>,
    AppError,
>)
    ensures
        match active_id {
            Err(reason) => result matches Err(error) && error@ == ErrorView::db(reason@),
            Ok(id) => result == Ok::<Option<String>, AppError>(id),
        },
{
    match active_id {
        Err(reason) => Err(AppError::db(reason.as_str())),
        Ok(id) => Ok(id),
    }
}

/// The first of `presets` with this id.
pub open spec fn first_preset(presets: Seq<PresetRecord>, id: Seq<char>) -> Option<PresetRecord>
    decreases presets.len(),
{
    if presets.len() == 0 {
        None
    } else if presets[0].id@ == id {
        Some(presets[0])
    } else {
        first_preset(presets.skip(1), id)
    }
}

/// The active preset, given its id and what the store answered when it was asked
/// for all presets. An id that no preset has means that none is active.
pub fn active_preset(id: &str, presets: &Result<Vec<PresetRecord>, String>) -> (result: Result<
    Option<PresetRecord>,
    AppError,
>)
    ensures
        match *presets {
            Err(reason) => result matches Err(error) && error@ == ErrorView::db(reason@),
            Ok(all) => result == Ok::<Option<PresetRecord>, AppError>(first_preset(all@, id@)),
        },
        *presets matches Ok(all) ==> match result {
            Ok(Some(preset)) => preset.id@ == id@ && all@.contains(preset),
            Ok(None) => forall|j: int| 0 <= j < all@.len() ==> (#[trigger] all@[j]).id@ != id@,
            Err(_) => false,
        },
{
    let all = match presets {
        Err(reason) => {
            return Err(AppError::db(reason.as_str()));
        },
        Ok(all) => all,
    };
    proof {
        active_preset_is_held(all@, id@);
    }
    assert(all@.skip(0) =~= all@);
    for i in 0..all.len()
        invariant
            *presets == Ok::<Vec<PresetRecord>, String>(*all),
            forall|j: int| 0 <= j < i ==> (#[trigger] all@[j]).id@ != id@,
            first_preset(all@, id@) == first_preset(all@.skip(i as int), id@),
    {
        if same(all[i].id.as_str(), id) {
            return Ok(Some(all[i].clone()));
        }
        assert(all@.skip(i as int).skip(1) =~= all@.skip(i + 1));
    }
    Ok(None)
}

// ── laws ────────────────────────────────────────────────────────────────

/// A search by name finds the first skill of that name, and fails only where
/// there is none.
pub proof fn first_named_is_first(skills: Seq<SkillRecord>, name: Seq<char>)
    ensures
        match first_named(skills, name) {
            Some(skill) => exists|i: int|
                0 <= i < skills.len() && #[trigger] skills[i] == skill && skill.name@ == name
                    && forall|j: int| 0 <= j < i ==> (#[trigger] skills[j]).name@ != name,
            None => forall|j: int| 0 <= j < skills.len() ==> (#[trigger] skills[j]).name@ != name,
        },
    decreases skills.len(),
{
    if skills.len() > 0 && skills[0].name@ != name {
        let rest = skills.skip(1);
        first_named_is_first(rest, name);
        assert forall|j: int| 0 < j < skills.len() implies #[trigger] skills[j] == rest[j - 1] by {}
        if let Some(skill) = first_named(rest, name) {
            let i = choose|i: int|
                0 <= i < rest.len() && #[trigger] rest[i] == skill && skill.name@ == name
                    && forall|j: int| 0 <= j < i ==> (#[trigger] rest[j]).name@ != name;
            assert(skills[i + 1] == skill);
        }
    } else if skills.len() > 0 {
        assert(skills[0] == first_named(skills, name)->0);
    }
}

/// A request for one skill may give its id, its name or the last name of its
/// central path: where the store finds by id what it holds, some skill is found
/// exactly where one is named so. A skill with that id comes before all others,
/// and one with that name before those whose central path ends so.
pub proof fn found_by_id_or_name(
    skills: Seq<SkillRecord>,
    by_id: Option<SkillRecord>,
    id: Seq<char>,
)
    requires
        match by_id {
            Some(skill) => skills.contains(skill) && skill.id@ == id,
            None => forall|j: int| 0 <= j < skills.len() ==> (#[trigger] skills[j]).id@ != id,
        },
    ensures
        ({
            let found = match by_id {
                Some(skill) => Some(skill),
                None => named_skill(skills, id),
            };
            &&& found is Some <==> exists|j: int|
                0 <= j < skills.len() && refers_to(#[trigger] skills[j], id)
            &&& found matches Some(skill) ==> skills.contains(skill) && refers_to(skill, id) && (
            skill.id@ == id || forall|j: int|
                0 <= j < skills.len() ==> (#[trigger] skills[j]).id@ != id) && (skill.id@ == id
                || skill.name@ == id || forall|j: int|
                0 <= j < skills.len() ==> (#[trigger] skills[j]).name@ != id)
        }),
{
    first_match_is_first(skills, id);
    first_named_is_first(skills, id);
    if let Some(skill) = by_id {
        assert(skills[skills.index_of(skill)] == skill);
    }
}

/// Where a request for one skill goes by all skills of the store, it finds one
/// whose name is the very text of the request, the first of these, and only where
/// no skill has that name one that has it for its id or for the last name of its
/// central path. It fails exactly where no skill has that text for one of the
/// three.
pub proof fn named_skill_by_text(skills: Seq<SkillRecord>, id: Seq<char>)
    ensures
        match named_skill(skills, id) {
            Some(skill) => {
                &&& skill.name@ == id || skill.id@ == id || last_name(skill.central_path@) == Some(
                    id,
                )
                &&& skill.name@ == id ==> exists|i: int|
                    0 <= i < skills.len() && #[trigger] skills[i] == skill && forall|j: int|
                        0 <= j < i ==> (#[trigger] skills[j]).name@ != id
                &&& skill.name@ != id ==> forall|j: int|
                    0 <= j < skills.len() ==> (#[trigger] skills[j]).name@ != id
                &&& skill.name@ != id ==> exists|i: int|
                    0 <= i < skills.len() && #[trigger] skills[i] == skill && forall|j: int|
                        0 <= j < i ==> (#[trigger] skills[j]).id@ != id && last_name(
                            skills[j].central_path@,
                        ) != Some(id)
            },
            None => forall|j: int|
                0 <= j < skills.len() ==> (#[trigger] skills[j]).name@ != id && skills[j].id@ != id
                    && last_name(skills[j].central_path@) != Some(id),
        },
{
    first_named_is_first(skills, id);
    first_match_by_text(skills, id);
}

/// The active preset is the first that has the active id, and there is none only
/// where no preset has it.
pub proof fn active_preset_is_first(presets: Seq<PresetRecord>, id: Seq<char>)
    ensures
        match first_preset(presets, id) {
            Some(preset) => preset.id@ == id && exists|i: int|
                0 <= i < presets.len() && #[trigger] presets[i] == preset && forall|j: int|
                    0 <= j < i ==> (#[trigger] presets[j]).id@ != id,
            None => forall|j: int| 0 <= j < presets.len() ==> (#[trigger] presets[j]).id@ != id,
        },
    decreases presets.len(),
{
    if presets.len() > 0 && presets[0].id@ != id {
        let rest = presets.skip(1);
        active_preset_is_first(rest, id);
        assert forall|j: int| 0 < j < presets.len() implies #[trigger] presets[j] == rest[
        j - 1] by {}
        if let Some(preset) = first_preset(rest, id) {
            let i = choose|i: int|
                0 <= i < rest.len() && #[trigger] rest[i] == preset && forall|j: int|
                    0 <= j < i ==> (#[trigger] rest[j]).id@ != id;
            assert(presets[i + 1] == preset);
        }
    } else if presets.len() > 0 {
        assert(presets[0] == first_preset(presets, id)->0);
    }
}

/// A preset is active only if the store holds it under the active id.
pub proof fn active_preset_is_held(presets: Seq<PresetRecord>, id: Seq<char>)
    ensures
        first_preset(presets, id) is Some <==> exists|j: int|
            0 <= j < presets.len() && (#[trigger] presets[j]).id@ == id,
        first_preset(presets, id) matches Some(preset) ==> presets.contains(preset) && preset.id@
            == id,
    decreases presets.len(),
{
    if presets.len() > 0 {
        let rest = presets.skip(1);
        active_preset_is_held(rest, id);
        assert(presets.contains(presets[0]));
        assert forall|j: int| 0 < j < presets.len() implies #[trigger] presets[j] == rest[
        j - 1] by {}
        assert forall|j: int| 0 <= j < rest.len() implies #[trigger] rest[j] == presets[
        j + 1] by {}
        if presets[0].id@ != id {
            if let Some(preset) = first_preset(rest, id) {
                assert(presets[rest.index_of(preset) + 1] == preset);
            }
        }
    }
}

} // verus!

//! What the store and the tools hand to the web surface.

use vstd::prelude::*;

verus! {

/// A skill of the central library, as far as requests look at it.
#[derive(Debug, PartialEq, Eq)]
pub struct SkillRecord {
    pub id: String,
    pub name: String,
    pub central_path: String,
}

impl Clone for SkillRecord {
    fn clone(&self) -> (copy: SkillRecord)
        ensures
            copy == *self,
    {
        SkillRecord {
            id: self.id.clone(),
            name: self.name.clone(),
            central_path: self.central_path.clone(),
        }
    }
}

/// A skill deployed to a tool.
#[derive(Debug)]
pub struct SkillTarget {
    pub skill_id: String,
    pub tool: String,
    pub status: String,
}

/// The tags of one skill.
#[derive(Debug)]
pub struct SkillTags {
    pub skill_id: String,
    pub tags: Vec<String>,
}

/// A preset, as far as requests look at it.
#[derive(Debug, PartialEq, Eq)]
pub struct PresetRecord {
    pub id: String,
    pub name: String,
}

impl Clone for PresetRecord {
    fn clone(&self) -> (copy: PresetRecord)
        ensures
            copy == *self,
    {
        PresetRecord { id: self.id.clone(), name: self.name.clone() }
    }
}

/// What is known of a tool.
#[derive(Debug)]
pub struct ToolInfo {
    pub key: String,
    pub display_name: String,
    pub installed: bool,
    pub skills_dir: String,
    pub enabled: bool,
    pub is_custom: bool,
    pub has_path_override: bool,
    pub project_relative_skills_dir: Option<String>,
    pub has_project_path_override: bool,
    pub category: String,
}

/// An agent with the directory that it loads skills from.
#[derive(Debug)]
pub struct ToolAdapter {
    pub key: String,
    pub skills_dir: String,
}

} // verus!

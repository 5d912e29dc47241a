//! The skills in an agent's own directory: which paths a request may touch, and
//! what a listing shows.

use crate::error::{seen, AppError, ErrorKind, ErrorView};
use crate::handlers::{find_named, first_named};
use crate::path::{
    climbs, has_parent_dir, is_absolute, is_entry_name, is_rooted, join, join_path, starts_with, strip_prefix,
    without_prefix,
};
use crate::records::{SkillRecord, ToolAdapter};
use crate::text::{chars_of, is_before, joined, occurs_in, precedes, text};
use vstd::prelude::*;

verus! {

// ── paths of a request ──────────────────────────────────────────────────

/// The path that `relative` names in `skills_dir`: neither empty nor absolute
/// nor with a `..` in it.
pub open spec fn safe_join(skills_dir: Seq<char>, relative: Seq<char>) -> Result<
    Seq<char>,
    ErrorView,
> {
    if relative.len() == 0 {
        Err(ErrorView::invalid_input("relative_path is empty"@))
    } else if is_absolute(relative) {
        Err(ErrorView::invalid_input("absolute paths are not allowed: "@ + relative))
    } else if has_parent_dir(relative) {
        Err(ErrorView::invalid_input("path may not contain '..': "@ + relative))
    } else {
        Ok(join_path(skills_dir, relative))
    }
}

/// The path that `relative` names in `skills_dir`. Whether it lies inside is
/// decided by the text alone: an entry of the directory may well be a link to
/// some other place.
pub fn safe_join_local(skills_dir: &str, relative: &str) -> (result: Result<String, AppError>)
    ensures
        seen(result) == safe_join(skills_dir@, relative@),
        result matches Ok(path) ==> starts_with(path@, skills_dir@),
{
    if relative.is_empty() {
        return Err(AppError::invalid_input("relative_path is empty"));
    }
    if is_rooted(relative) {
        return Err(
            AppError::invalid_input(joined("absolute paths are not allowed: ", relative).as_str()),
        );
    }
    if climbs(relative) {
        return Err(
            AppError::invalid_input(joined("path may not contain '..': ", relative).as_str()),
        );
    }
    proof {
        crate::path::join_appends(skills_dir@, relative@);
    }
    Ok(join(skills_dir, relative))
}

/// A request about one or more entries of an agent's directory.
#[derive(Debug)]
pub struct AgentPathBody {
    pub relative_path: Option<String>,
    pub relative_paths: Option<Vec<String>>,
}

impl AgentPathBody {
    /// The single path, where there is one.
    pub open spec fn single(self) -> Seq<String> {
        match self.relative_path {
            Some(path) => seq![path],
            None => seq![],
        }
    }

    /// The list of paths, where there is one.
    pub open spec fn list(self) -> Seq<String> {
        match self.relative_paths {
            Some(paths) => paths@,
            None => seq![],
        }
    }

    /// The paths that are not empty: the single one first, then the list.
    pub open spec fn paths(self) -> Seq<String> {
        (self.single() + self.list()).filter(|path: String| path@.len() > 0)
    }
}

/// The paths of a request. A request without any is refused.
pub fn extract_paths(body: &AgentPathBody) -> (result: Result<Vec<String>, AppError>)
    ensures
        match result {
            Ok(paths) => body.paths().len() > 0 && paths@ == body.paths(),
            Err(error) => body.paths().len() == 0 && error@ == ErrorView::invalid_input(
                "relative_path or relative_paths required"@,
            ),
        },
{
    let ghost some = |path: String| path@.len() > 0;
    let ghost single = body.single();
    let mut out: Vec<String> = Vec::new();
    proof {
        reveal_with_fuel(Seq::filter, 2);
    }
    if let Some(p) = &body.relative_path {
        if !p.as_str().is_empty() {
            out.push(p.clone());
        }
    }
    assert(out@ =~= single.filter(some));
    if let Some(ps) = &body.relative_paths {
        assert(ps@.take(0) =~= Seq::<String>::empty());
        assert(single.filter(some) + ps@.take(0).filter(some) =~= out@);
        for i in 0..ps.len()
            invariant
                some == (|path: String| path@.len() > 0),
                out@ == single.filter(some) + ps@.take(i as int).filter(some),
        {
            proof {
                reveal(Seq::filter);
                assert(ps@.take(i + 1).drop_last() =~= ps@.take(i as int));
            }
            if !ps[i].as_str().is_empty() {
                out.push(ps[i].clone());
            }
            assert(out@ =~= single.filter(some) + ps@.take(i + 1).filter(some));
        }
        assert(ps@.take(ps@.len() as int) =~= ps@);
        proof {
            Seq::filter_distributes_over_add(single, ps@, some);
        }
    } else {
        assert(single + Seq::<String>::empty() =~= single);
    }
    assert(out@ == body.paths());
    if out.len() == 0 {
        return Err(AppError::invalid_input("relative_path or relative_paths required"));
    }
    Ok(out)
}

/// A path that is handed out lies inside the directory: behind the directory's
/// own components it goes down by names alone. Only where the directory is
/// written as nothing at all does a leading `.` of the path remain.
pub proof fn safe_join_stays_inside(skills_dir: Seq<char>, relative: Seq<char>)
    requires
        safe_join(skills_dir, relative) is Ok,
    ensures
        ({
            let base = crate::path::components(skills_dir);
            let full = crate::path::components(safe_join(skills_dir, relative)->Ok_0);
            &&& base.len() <= full.len()
            &&& full.take(base.len() as int) == base
            &&& forall|i: int|
                base.len() <= i < full.len() ==> (#[trigger] full[i]) is Normal || (
                skills_dir.len() == 0 && i == 0 && full[i] is CurDir)
        }),
{
    crate::path::join_appends(skills_dir, relative);
    crate::path::steps_are_names(relative);
    let base = crate::path::components(skills_dir);
    let full = crate::path::components(join_path(skills_dir, relative));
    assert(full.take(base.len() as int) =~= base);
    assert forall|i: int| base.len() <= i < full.len() implies (#[trigger] full[i]) is Normal || (
    skills_dir.len() == 0 && i == 0 && full[i] is CurDir) by {
        let steps = crate::path::steps(relative);
        if skills_dir.len() > 0 {
            assert(full[i] == steps[i - base.len()]);
        } else if full[0] is CurDir {
            if i > 0 {
                assert(full[i] == steps[i - 1]);
            }
        } else {
            assert(full[i] == steps[i]);
        }
    }
}

// ── listing ─────────────────────────────────────────────────────────────

/// An entry of an agent's directory as it was found there.
#[derive(Debug)]
pub struct LocalEntry {
    pub path: String,
    pub file_name: String,
    pub is_dir: bool,
    /// There is a file `SKILL.md` in it.
    pub has_upper_skill_md: bool,
    /// There is a file `skill.md` in it.
    pub has_lower_skill_md: bool,
    /// The hash of its contents, where it was taken.
    pub content_hash: Option<String>,
}

/// What a listing tells of an entry.
#[derive(Debug, PartialEq, Eq)]
pub struct LocalSkillDto {
    pub name: String,
    pub relative_path: String,
    pub has_skill_md: bool,
    pub is_managed: bool,
    pub managed_skill_id: Option<String>,
    pub content_hash: Option<String>,
}

/// What a listing tells of an entry, as contracts see it.
#[verifier::ext_equal]
pub struct LocalSkillView {
    pub name: Seq<char>,
    pub relative_path: Seq<char>,
    pub has_skill_md: bool,
    pub is_managed: bool,
    pub managed_skill_id: Option<Seq<char>>,
    pub content_hash: Option<Seq<char>>,
}

impl View for LocalSkillDto {
    type V = LocalSkillView;

    open spec fn view(&self) -> LocalSkillView {
        LocalSkillView {
            name: self.name@,
            relative_path: self.relative_path@,
            has_skill_md: self.has_skill_md,
            is_managed: self.is_managed,
            managed_skill_id: text(self.managed_skill_id),
            content_hash: text(self.content_hash),
        }
    }
}

/// The skills of a listing.
pub open spec fn views(dtos: Seq<LocalSkillDto>) -> Seq<LocalSkillView> {
    dtos.map_values(|d: LocalSkillDto| d@)
}

/// The skills in an agent's directory.
#[derive(Debug, PartialEq, Eq)]
pub struct ListAgentResponse {
    pub agent: String,
    pub skills_dir: String,
    pub local_skills: Vec<LocalSkillDto>,
}

/// What came of reading an agent's directory.
#[derive(Debug)]
pub enum DirRead {
    Entries(Vec<LocalEntry>),
    /// There is no such directory.
    Missing,
    Failed(String),
}

impl LocalEntry {
    /// The entry's path from the directory, if the entry is listed: it is a
    /// directory, and the path is neither empty nor has `..` anywhere.
    pub open spec fn listed_path(self, dir: Seq<char>) -> Option<Seq<char>> {
        if !self.is_dir {
            None
        } else {
            match without_prefix(self.path@, dir) {
                Some(relative) => if relative.len() == 0 || occurs_in(".."@, relative) {
                    None
                } else {
                    Some(relative)
                },
                None => None,
            }
        }
    }

    pub open spec fn has_skill_md(self) -> bool {
        self.has_upper_skill_md || self.has_lower_skill_md
    }

    /// What a listing of `dir` tells of the entry, if it is listed. A skill of
    /// the same name in the central library manages it, and only what has a
    /// skill file has a hash.
    pub open spec fn shown(self, dir: Seq<char>, skills: Seq<SkillRecord>) -> Option<
        LocalSkillView,
    > {
        match self.listed_path(dir) {
            None => None,
            Some(relative_path) => {
                let manager = first_named(skills, self.file_name@);
                Some(
                    LocalSkillView {
                        name: self.file_name@,
                        relative_path,
                        has_skill_md: self.has_skill_md(),
                        is_managed: manager is Some,
                        managed_skill_id: match manager {
                            Some(skill) => Some(skill.id@),
                            None => None,
                        },
                        content_hash: if self.has_skill_md() {
                            text(self.content_hash)
                        } else {
                            None
                        },
                    },
                )
            },
        }
    }

    fn find_listed_path(&self, dir: &str) -> (path: Option<String>)
        ensures
            text(path) == self.listed_path(dir@),
    {
        if !self.is_dir {
            return None;
        }
        match strip_prefix(self.path.as_str(), dir) {
            Some(relative) => {
                if relative.as_str().is_empty() || has_double_dot(relative.as_str()) {
                    None
                } else {
                    Some(relative)
                }
            },
            None => None,
        }
    }

    /// Whether a listing of `dir` shows the hash of the entry's contents.
    pub fn needs_hash(&self, dir: &str) -> (result: bool)
        ensures
            result == (self.listed_path(dir@) is Some && self.has_skill_md()),
            result == (self.listed_path(dir@) is Some && (self.has_upper_skill_md
                || self.has_lower_skill_md)),
    {
        self.find_listed_path(dir).is_some() && (self.has_upper_skill_md
            || self.has_lower_skill_md)
    }

    /// What a listing of `dir` tells of the entry.
    fn show(&self, dir: &str, skills: &Vec<SkillRecord>) -> (dto: Option<LocalSkillDto>)
        ensures
            match dto {
                Some(d) => self.shown(dir@, skills@) == Some(d@),
                None => self.shown(dir@, skills@) is None,
            },
    {
        let relative_path = match self.find_listed_path(dir) {
            Some(relative_path) => relative_path,
            None => {
                return None;
            },
        };
        let has_skill_md = self.has_upper_skill_md || self.has_lower_skill_md;
        let managed_skill_id = match find_named(skills, self.file_name.as_str()) {
            Some(skill) => Some(skill.id),
            None => None,
        };
        let content_hash = match &self.content_hash {
            Some(hash) => {
                if has_skill_md {
                    Some(hash.clone())
                } else {
                    None
                }
            },
            None => None,
        };
        Some(
            LocalSkillDto {
                name: self.file_name.clone(),
                relative_path,
                has_skill_md,
                is_managed: managed_skill_id.is_some(),
                managed_skill_id,
                content_hash,
            },
        )
    }
}

/// Whether the text has two dots in a row.
fn has_double_dot(s: &str) -> (result: bool)
    ensures
        result == occurs_in(".."@, s@),
{
    let chars = chars_of(s);
    proof {
        reveal_strlit("..");
    }
    let mut i: usize = 0;
    while chars.len() - i >= 2
        invariant
            chars@ == s@,
            ".."@.len() == 2,
            ".."@[0] == '.',
            ".."@[1] == '.',
            i <= chars@.len(),
            forall|j: int| 0 <= j < i ==> #[trigger] s@.subrange(j, j + 2) != ".."@,
        decreases chars@.len() - i,
    {
        let ghost here = s@.subrange(i as int, i + 2);
        assert(here[0] == chars@[i as int] && here[1] == chars@[i + 1]);
        if chars[i] == '.' && chars[i + 1] == '.' {
            assert(here =~= ".."@);
            return true;
        }
        i = i + 1;
    }
    false
}

/// Whether the names come in ascending order, equal ones side by side.
pub open spec fn in_name_order(list: Seq<LocalSkillView>) -> bool {
    forall|i: int, j: int|
        0 <= i < j < list.len() ==> !precedes((#[trigger] list[j]).name, (#[trigger] list[i]).name)
}

/// Those with the given name, in order.
pub open spec fn named(list: Seq<LocalSkillView>, name: Seq<char>) -> Seq<LocalSkillView> {
    list.filter(|s: LocalSkillView| s.name == name)
}

/// Whether `sorted` holds what `list` holds in the order of the names, those
/// with the same name in the order that they had.
pub open spec fn is_sorting_of(sorted: Seq<LocalSkillView>, list: Seq<LocalSkillView>) -> bool {
    &&& in_name_order(sorted)
    &&& forall|name: Seq<char>| #[trigger] named(sorted, name) == named(list, name)
}

/// The entries that a listing of `dir` shows, in the order in which they were
/// found.
pub open spec fn shown_entries(
    dir: Seq<char>,
    entries: Seq<LocalEntry>,
    skills: Seq<SkillRecord>,
) -> Seq<LocalSkillView> {
    entries.filter_map(|e: LocalEntry| e.shown(dir, skills))
}

/// Putting an element behind all that do not come after it keeps a sorting.
proof fn lemma_insert_sorted(
    sorted: Seq<LocalSkillView>,
    list: Seq<LocalSkillView>,
    at: int,
    new: LocalSkillView,
)
    requires
        is_sorting_of(sorted, list),
        0 <= at <= sorted.len(),
        forall|i: int| at <= i < sorted.len() ==> precedes(new.name, (#[trigger] sorted[i]).name),
        at > 0 ==> !precedes(new.name, sorted[at - 1].name),
    ensures
        is_sorting_of(sorted.insert(at, new), list.push(new)),
{
    let after = sorted.insert(at, new);
    let left = sorted.take(at);
    let right = sorted.skip(at);
    assert forall|i: int| 0 <= i < at implies !precedes(
        new.name,
        (#[trigger] sorted[i]).name,
    ) by {
        if i < at - 1 && precedes(new.name, sorted[i].name) {
            let a = sorted[i].name;
            let b = sorted[at - 1].name;
            crate::text::precedes_total(a, b);
            if precedes(a, b) {
                crate::text::precedes_transitive(new.name, a, b);
            }
        }
    }
    assert forall|i: int, j: int| 0 <= i < j < after.len() implies !precedes(
        (#[trigger] after[j]).name,
        (#[trigger] after[i]).name,
    ) by {
        if i == at {
            assert(after[j] == sorted[j - 1]);
            if precedes(after[j].name, new.name) {
                crate::text::precedes_transitive(after[j].name, new.name, after[j].name);
                crate::text::precedes_irreflexive(after[j].name);
            }
        } else if j == at {
            assert(after[i] == sorted[i]);
        } else {
            let i0 = if i < at { i } else { i - 1 };
            let j0 = if j < at { j } else { j - 1 };
            assert(after[i] == sorted[i0] && after[j] == sorted[j0]);
        }
    }
    assert forall|name: Seq<char>| #[trigger] named(after, name) == named(
        list.push(new),
        name,
    ) by {
        let pred = |s: LocalSkillView| s.name == name;
        reveal_with_fuel(Seq::filter, 2);
        assert(after =~= left + seq![new] + right);
        assert(sorted =~= left + right);
        Seq::filter_distributes_over_add(left + seq![new], right, pred);
        Seq::filter_distributes_over_add(left, seq![new], pred);
        Seq::filter_distributes_over_add(left, right, pred);
        assert(named(sorted, name) == named(list, name));
        assert(list.push(new).drop_last() =~= list);
        if new.name == name {
            assert(right.filter(pred).len() == 0) by {
                if right.filter(pred).len() > 0 {
                    let hit = right.filter(pred)[0];
                    right.lemma_filter_pred(pred, 0);
                    assert(right.filter(pred).contains(hit));
                    right.lemma_filter_contains_rev(pred, hit);
                    let k = right.index_of(hit);
                    assert(right[k] == sorted[at + k]);
                    crate::text::precedes_irreflexive(name);
                }
            }
            assert(seq![new].filter(pred) =~= seq![new]);
            assert(after.filter(pred) =~= sorted.filter(pred).push(new));
        } else {
            assert(seq![new].filter(pred) =~= seq![]);
            assert(after.filter(pred) =~= sorted.filter(pred));
        }
    }
}

/// Puts `new` behind all that do not come after it.
fn insert_sorted(
    sorted: &mut Vec<LocalSkillDto>,
    new: LocalSkillDto,
    Ghost(list): Ghost<Seq<LocalSkillView>>,
)
    requires
        is_sorting_of(views(old(sorted)@), list),
    ensures
        is_sorting_of(views(final(sorted)@), list.push(new@)),
{
    let ghost before = views(sorted@);
    let mut at: usize = sorted.len();
    while at > 0 && is_before(new.name.as_str(), sorted[at - 1].name.as_str())
        invariant
            at <= sorted@.len(),
            before == views(sorted@),
            forall|i: int|
                at <= i < sorted@.len() ==> precedes(new.name@, (#[trigger] before[i]).name),
        decreases at,
    {
        assert(before[at - 1] == sorted@[at - 1]@);
        at = at - 1;
    }
    if at > 0 {
        assert(before[at - 1] == sorted@[at - 1]@);
    }
    let ghost view = new@;
    sorted.insert(at, new);
    proof {
        lemma_insert_sorted(before, list, at as int, view);
        assert(views(sorted@) =~= before.insert(at as int, view));
    }
}

/// The directory to list: where links lead, or the directory itself where that
/// cannot be found out.
pub fn listing_dir(adapter: &ToolAdapter, canonical: Option<String>) -> (dir: String)
    ensures
        dir@ == (match canonical {
            Some(canonical) => canonical@,
            None => adapter.skills_dir@,
        }),
{
    match canonical {
        Some(canonical) => canonical,
        None => adapter.skills_dir.clone(),
    }
}

/// Whether no entry that was read has an absolute path.
pub open spec fn has_relative_entries(read: DirRead) -> bool {
    match read {
        DirRead::Entries(entries) => forall|i: int|
            0 <= i < entries@.len() ==> !is_absolute((#[trigger] entries@[i]).path@),
        _ => true,
    }
}

/// `GET /api/agents/{key}/local-skills`: the skills in the agent's directory
/// `dir`, given what the store answered when it was asked for all skills and
/// what came of reading the directory.
pub fn list_agent_local_skills(
    adapter: &ToolAdapter,
    dir: &str,
    skills: &Result<Vec<SkillRecord>, String>,
    read: &DirRead,
) -> (result: Result<ListAgentResponse, AppError>)
    ensures
        match (*skills, *read) {
            (Err(reason), _) => result matches Err(error) && error@ == ErrorView::db(reason@),
            (Ok(_), DirRead::Failed(reason)) => result matches Err(error) && error@
                == ErrorView::io(reason@),
            (Ok(_), DirRead::Missing) => result matches Ok(response) && response.agent@
                == adapter.key@ && response.skills_dir@ == dir@ && response.local_skills@.len()
                == 0,
            (Ok(all), DirRead::Entries(entries)) => result matches Ok(response)
                && response.agent@ == adapter.key@ && response.skills_dir@ == dir@
                && is_sorting_of(
                views(response.local_skills@),
                shown_entries(dir@, entries@, all@),
            ),
        },
        dir@.len() > 0 || has_relative_entries(*read) ==> (result matches Ok(response) ==> forall|i: int|
            0 <= i < response.local_skills@.len() ==> safe_join(
                adapter.skills_dir@,
                (#[trigger] response.local_skills@[i]).relative_path@,
            ) is Ok),
        match (result, *skills, *read) {
            (Ok(response), Ok(all), DirRead::Entries(entries)) => {
                &&& forall|i: int|
                    0 <= i < response.local_skills@.len() ==> {
                        let d = #[trigger] response.local_skills@[i];
                        &&& d.is_managed <==> d.managed_skill_id is Some
                        &&& d.is_managed <==> exists|j: int|
                            0 <= j < all@.len() && (#[trigger] all@[j]).name@ == d.name@
                        &&& d.is_managed ==> exists|h: int|
                            0 <= h < all@.len() && (#[trigger] all@[h]).name@ == d.name@
                                && d.managed_skill_id->0@ == all@[h].id@ && forall|j: int|
                                0 <= j < h ==> (#[trigger] all@[j]).name@ != d.name@
                        &&& exists|k: int|
                            0 <= k < entries@.len() && (#[trigger] entries@[k]).is_dir
                                && entries@[k].file_name@ == d.name@ && entries@[k].listed_path(
                                dir@,
                            ) == Some(d.relative_path@) && (d.has_skill_md
                                <==> entries@[k].has_upper_skill_md
                                || entries@[k].has_lower_skill_md) && (d.content_hash is Some
                                <==> d.has_skill_md && entries@[k].content_hash is Some) && (
                            d.content_hash is Some ==> d.content_hash->0@
                                == entries@[k].content_hash->0@)
                    }
                &&& forall|k: int|
                    0 <= k < entries@.len() && (#[trigger] entries@[k]).listed_path(dir@) is Some
                        ==> exists|i: int|
                        0 <= i < response.local_skills@.len() && (
                        #[trigger] response.local_skills@[i]).name@ == entries@[k].file_name@
                            && entries@[k].listed_path(dir@) == Some(
                            response.local_skills@[i].relative_path@,
                        )
                &&& forall|i: int, j: int|
                    0 <= i < j < response.local_skills@.len() ==> !precedes(
                        (#[trigger] response.local_skills@[j]).name@,
                        (#[trigger] response.local_skills@[i]).name@,
                    )
                &&& response.local_skills@.len() == entries@.filter(
                    |e: LocalEntry| e.listed_path(dir@) is Some,
                ).len()
            },
            _ => true,
        },
{
    let all = match skills {
        Err(reason) => {
            return Err(AppError::db(reason.as_str()));
        },
        Ok(all) => all,
    };
    let mut local_skills: Vec<LocalSkillDto> = Vec::new();
    let entries = match read {
        DirRead::Failed(reason) => {
            return Err(AppError::io(reason.as_str()));
        },
        DirRead::Missing => {
            return Ok(
                ListAgentResponse {
                    agent: adapter.key.clone(),
                    skills_dir: dir.to_owned(),
                    local_skills,
                },
            );
        },
        DirRead::Entries(entries) => entries,
    };
    let ghost show = |e: LocalEntry| e.shown(dir@, all@);
    assert(entries@.take(0) =~= Seq::<LocalEntry>::empty());
    assert(views(local_skills@) =~= Seq::<LocalSkillView>::empty());
    for i in 0..entries.len()
        invariant
            show == (|e: LocalEntry| e.shown(dir@, all@)),
            is_sorting_of(views(local_skills@), entries@.take(i as int).filter_map(show)),
    {
        let ghost before = entries@.take(i as int).filter_map(show);
        assert(entries@.take(i + 1).drop_last() =~= entries@.take(i as int));
        match entries[i].show(dir, all) {
            Some(dto) => {
                assert(entries@.take(i + 1).filter_map(show) =~= before.push(dto@));
                insert_sorted(&mut local_skills, dto, Ghost(before));
            },
            None => {},
        }
    }
    assert(entries@.take(entries@.len() as int) =~= entries@);
    proof {
        lemma_listing_one_by_one(dir@, entries@, all@, local_skills@);
        if dir@.len() > 0 || has_relative_entries(*read) {
            let sorted = views(local_skills@);
            listed_paths_are_accepted(dir@, entries@, all@, sorted, adapter.skills_dir@);
            assert forall|i: int| 0 <= i < local_skills@.len() implies safe_join(
                adapter.skills_dir@,
                (#[trigger] local_skills@[i]).relative_path@,
            ) is Ok by {
                assert(sorted[i] == local_skills@[i]@);
            }
        }
    }
    Ok(
        ListAgentResponse {
            agent: adapter.key.clone(),
            skills_dir: dir.to_owned(),
            local_skills,
        },
    )
}

// ── laws ────────────────────────────────────────────────────────────────

/// Whatever can name an entry of the directory is accepted and leads to that
/// entry.
pub proof fn entry_names_are_accepted(skills_dir: Seq<char>, name: Seq<char>)
    requires
        is_entry_name(name),
    ensures
        safe_join(skills_dir, name) == Ok::<Seq<char>, ErrorView>(join_path(skills_dir, name)),
{
    crate::path::entry_name_is_one_step(name);
    assert(name.contains(name[0]));
}

/// What a listing shows leads back to the entry: an entry of the directory is
/// shown under its name unless there is a `..` in it, and a request that gives
/// the shown path touches that entry.
pub proof fn listed_paths_lead_back(entry: LocalEntry, dir: Seq<char>)
    requires
        is_entry_name(entry.file_name@),
        entry.path@ == join_path(dir, entry.file_name@),
    ensures
        entry.listed_path(dir) == (if entry.is_dir && !occurs_in(".."@, entry.file_name@) {
            Some(entry.file_name@)
        } else {
            None
        }),
        entry.listed_path(dir) matches Some(relative) ==> safe_join(dir, relative) == Ok::<
            Seq<char>,
            ErrorView,
        >(entry.path@),
{
    crate::path::entry_name_recovered(dir, entry.file_name@);
    entry_names_are_accepted(dir, entry.file_name@);
}

/// A listed path is one that a request may give.
proof fn lemma_listed_path_accepted(entry: LocalEntry, dir: Seq<char>, skills_dir: Seq<char>)
    requires
        dir.len() == 0 ==> !is_absolute(entry.path@),
    ensures
        entry.listed_path(dir) matches Some(relative) ==> safe_join(skills_dir, relative) is Ok,
{
    if let Some(relative) = entry.listed_path(dir) {
        crate::path::rest_is_relative(entry.path@, dir);
        if has_parent_dir(relative) {
            crate::path::climbing_shows(relative);
        }
    }
}

/// What is shown of entries is shown of one of them.
proof fn lemma_shown_of_an_entry(
    dir: Seq<char>,
    entries: Seq<LocalEntry>,
    skills: Seq<SkillRecord>,
    s: LocalSkillView,
)
    requires
        shown_entries(dir, entries, skills).contains(s),
    ensures
        exists|i: int|
            0 <= i < entries.len() && (#[trigger] entries[i]).shown(dir, skills) == Some(s),
    decreases entries.len(),
{
    if entries.len() > 0 {
        let front = entries.drop_last();
        let last = entries[entries.len() - 1];
        if last.shown(dir, skills) != Some(s) {
            let all = shown_entries(dir, entries, skills);
            let before = shown_entries(dir, front, skills);
            let i = all.index_of(s);
            assert(all[i] == s);
            assert(i < before.len());
            assert(before[i] == s);
            lemma_shown_of_an_entry(dir, front, skills, s);
            let k = choose|k: int|
                0 <= k < front.len() && (#[trigger] front[k]).shown(dir, skills) == Some(s);
            assert(entries[k] == front[k]);
        }
    }
}

/// Every path that a listing shows is one that a request to import, delete or
/// update may give. Only a directory written as nothing at all could show an
/// absolute path, of an entry that has one.
pub proof fn listed_paths_are_accepted(
    dir: Seq<char>,
    entries: Seq<LocalEntry>,
    skills: Seq<SkillRecord>,
    sorted: Seq<LocalSkillView>,
    skills_dir: Seq<char>,
)
    requires
        is_sorting_of(sorted, shown_entries(dir, entries, skills)),
        dir.len() == 0 ==> forall|i: int|
            0 <= i < entries.len() ==> !is_absolute((#[trigger] entries[i]).path@),
    ensures
        forall|i: int|
            0 <= i < sorted.len() ==> safe_join(
                skills_dir,
                (#[trigger] sorted[i]).relative_path,
            ) is Ok,
{
    broadcast use vstd::seq_lib::group_to_multiset_ensures;

    let list = shown_entries(dir, entries, skills);
    sorting_keeps_all(sorted, list);
    assert forall|i: int| 0 <= i < sorted.len() implies safe_join(
        skills_dir,
        (#[trigger] sorted[i]).relative_path,
    ) is Ok by {
        assert(sorted.contains(sorted[i]));
        assert(sorted.to_multiset().count(sorted[i]) > 0);
        assert(list.contains(sorted[i]));
        lemma_shown_of_an_entry(dir, entries, skills, sorted[i]);
        let k = choose|k: int|
            0 <= k < entries.len() && (#[trigger] entries[k]).shown(dir, skills) == Some(
                sorted[i],
            );
        lemma_listed_path_accepted(entries[k], dir, skills_dir);
    }
}

/// A sorting holds exactly what it sorts, each as often.
pub proof fn sorting_keeps_all(sorted: Seq<LocalSkillView>, list: Seq<LocalSkillView>)
    requires
        is_sorting_of(sorted, list),
    ensures
        sorted.to_multiset() == list.to_multiset(),
{
    assert forall|s: LocalSkillView|
        sorted.to_multiset().count(s) == #[trigger] list.to_multiset().count(s) by {
        assert(named(sorted, s.name) == named(list, s.name));
        lemma_named_count(sorted, s);
        lemma_named_count(list, s);
    }
    assert(sorted.to_multiset() =~= list.to_multiset());
}

/// Those with its name hold an element as often as the whole list does.
proof fn lemma_named_count(list: Seq<LocalSkillView>, s: LocalSkillView)
    ensures
        named(list, s.name).to_multiset().count(s) == list.to_multiset().count(s),
    decreases list.len(),
{
    broadcast use vstd::seq_lib::group_to_multiset_ensures;

    let pred = |x: LocalSkillView| x.name == s.name;
    reveal(Seq::filter);
    if list.len() > 0 {
        let front = list.drop_last();
        lemma_named_count(front, s);
        assert(list =~= front.push(list.last()));
    } else {
        assert(list.filter(pred) =~= list);
    }
}

/// Those of a list with the name of its first come first.
proof fn lemma_named_first(list: Seq<LocalSkillView>, name: Seq<char>)
    requires
        list.len() > 0,
    ensures
        list[0].name == name ==> named(list, name) == seq![list[0]] + named(list.skip(1), name),
        list[0].name != name ==> named(list, name) == named(list.skip(1), name),
{
    let pred = |x: LocalSkillView| x.name == name;
    reveal_with_fuel(Seq::filter, 2);
    assert(list =~= seq![list[0]] + list.skip(1));
    Seq::filter_distributes_over_add(seq![list[0]], list.skip(1), pred);
    assert(seq![list[0]].drop_last() =~= seq![]);
    if list[0].name == name {
        assert(seq![list[0]].filter(pred) =~= seq![list[0]]);
    } else {
        assert(seq![list[0]].filter(pred) =~= seq![]);
        assert(seq![] + list.skip(1).filter(pred) =~= list.skip(1).filter(pred));
    }
}

/// A list can be sorted in one way only.
pub proof fn sorting_is_unique(
    a: Seq<LocalSkillView>,
    b: Seq<LocalSkillView>,
    list: Seq<LocalSkillView>,
)
    requires
        is_sorting_of(a, list),
        is_sorting_of(b, list),
    ensures
        a == b,
{
    assert forall|name: Seq<char>| #[trigger] named(a, name) == named(b, name) by {
        assert(named(b, name) == named(list, name));
    }
    lemma_same_sorting(a, b);
}

proof fn lemma_same_sorting(a: Seq<LocalSkillView>, b: Seq<LocalSkillView>)
    requires
        in_name_order(a),
        in_name_order(b),
        forall|name: Seq<char>| #[trigger] named(a, name) == named(b, name),
    ensures
        a == b,
    decreases a.len(),
{
    broadcast use vstd::seq_lib::group_to_multiset_ensures;

    assert(is_sorting_of(a, b));
    sorting_keeps_all(a, b);
    if a.len() == 0 {
        if b.len() > 0 {
            assert(b.contains(b[0]));
            assert(b.to_multiset().count(b[0]) > 0);
            assert(a.contains(b[0]));
        }
        assert(a =~= b);
    } else {
        assert(a.contains(a[0]));
        assert(a.to_multiset().count(a[0]) > 0);
        assert(b.contains(a[0]));
        assert(b.contains(b[0]));
        assert(b.to_multiset().count(b[0]) > 0);
        assert(a.contains(b[0]));
        let i = b.index_of(a[0]);
        let j = a.index_of(b[0]);
        assert(a[0].name == b[0].name) by {
            assert(b[i] == a[0] && a[j] == b[0]);
            assert(i > 0 ==> !precedes(b[i].name, b[0].name));
            assert(j > 0 ==> !precedes(a[j].name, a[0].name));
            crate::text::precedes_total(a[0].name, b[0].name);
        }
        let n = a[0].name;
        let x = a.skip(1);
        let y = b.skip(1);
        lemma_named_first(a, n);
        lemma_named_first(b, n);
        assert(named(a, n) == named(b, n));
        assert(named(a, n)[0] == a[0]);
        assert(named(b, n)[0] == b[0]);
        assert forall|name: Seq<char>| #[trigger] named(x, name) == named(y, name) by {
            lemma_named_first(a, name);
            lemma_named_first(b, name);
            assert(named(a, name) == named(b, name));
            if name == n {
                assert(named(x, name) =~= named(a, name).skip(1));
                assert(named(y, name) =~= named(b, name).skip(1));
            }
        }
        lemma_same_sorting(x, y);
        assert(a =~= seq![a[0]] + x);
        assert(b =~= seq![b[0]] + y);
    }
}

/// Which paths of a request are refused, and how, goes by their text: an empty one
/// first, then one that begins with a separator, then one that goes up. Any other
/// is the directory and the path with a separator between them.
pub proof fn safe_join_by_text(skills_dir: Seq<char>, relative: Seq<char>)
    ensures
        match safe_join(skills_dir, relative) {
            Ok(path) => {
                &&& relative.len() > 0
                &&& relative[0] != '/'
                &&& !crate::path::components(relative).contains(crate::path::Component::ParentDir)
                &&& path == (if skills_dir.len() == 0 || skills_dir.last() == '/' {
                    skills_dir + relative
                } else {
                    skills_dir + seq!['/'] + relative
                })
            },
            Err(error) => {
                &&& error.kind == ErrorKind::InvalidInput
                &&& if relative.len() == 0 {
                    error.message == "relative_path is empty"@
                } else if relative[0] == '/' {
                    error.message == "absolute paths are not allowed: "@ + relative
                } else {
                    &&& crate::path::components(relative).contains(
                        crate::path::Component::ParentDir,
                    )
                    &&& error.message == "path may not contain '..': "@ + relative
                }
            },
        },
{
    if let Ok(path) = safe_join(skills_dir, relative) {
        assert(skills_dir.push('/') + relative =~= skills_dir + seq!['/'] + relative);
    }
}

/// The paths of a request are the single one, where it is given and not empty, and
/// behind it those of the list that are not empty, in the list's order.
pub proof fn paths_by_text(body: AgentPathBody)
    ensures
        ({
            let head = match body.relative_path {
                Some(path) => if path@.len() > 0 {
                    seq![path]
                } else {
                    seq![]
                },
                None => seq![],
            };
            body.paths() == head + (match body.relative_paths {
                Some(paths) => paths@.filter(|path: String| path@.len() > 0),
                None => seq![],
            })
        }),
{
    let some = |path: String| path@.len() > 0;
    reveal_with_fuel(Seq::filter, 2);
    Seq::filter_distributes_over_add(body.single(), body.list(), some);
    if let Some(path) = body.relative_path {
        let one = seq![path];
        assert(one.drop_last() =~= Seq::<String>::empty());
        if path@.len() > 0 {
            assert(one.filter(some) =~= one);
        } else {
            assert(one.filter(some) =~= Seq::<String>::empty());
        }
    }
}

/// An entry is listed exactly where it is a directory, lies under the directory
/// listed, and its path from there is neither empty nor has two dots in a row.
pub proof fn listed_path_by_text(entry: LocalEntry, dir: Seq<char>)
    ensures
        match entry.listed_path(dir) {
            Some(relative) => {
                &&& entry.is_dir
                &&& without_prefix(entry.path@, dir) == Some(relative)
                &&& relative.len() > 0
                &&& forall|i: int|
                    0 <= i < relative.len() - 1 && #[trigger] relative[i] == '.' ==> relative[i + 1]
                        != '.'
            },
            None => entry.is_dir ==> match without_prefix(entry.path@, dir) {
                None => true,
                Some(relative) => relative.len() == 0 || exists|i: int|
                    0 <= i < relative.len() - 1 && #[trigger] relative[i] == '.' && relative[i + 1]
                        == '.',
            },
        },
{
    if let Some(relative) = without_prefix(entry.path@, dir) {
        crate::text::double_dots_are_neighbours(relative);
    }
}

/// What a listing tells of an entry: the name that it has, whether one of the two
/// skill files is there, and its hash only where one is.
pub proof fn shown_as_found(entry: LocalEntry, dir: Seq<char>, skills: Seq<SkillRecord>)
    ensures
        entry.shown(dir, skills) is Some <==> entry.listed_path(dir) is Some,
        entry.shown(dir, skills) matches Some(d) ==> {
            &&& d.name == entry.file_name@
            &&& entry.listed_path(dir) == Some(d.relative_path)
            &&& d.has_skill_md <==> entry.has_upper_skill_md || entry.has_lower_skill_md
            &&& d.content_hash is Some <==> d.has_skill_md && entry.content_hash is Some
            &&& d.content_hash is Some ==> d.content_hash->0 == entry.content_hash->0@
        },
{
}

/// An entry counts as managed exactly where some skill of the store has its name,
/// whatever else is found in it, and it is the first such skill that manages it.
pub proof fn managed_as_the_store_says(
    entry: LocalEntry,
    dir: Seq<char>,
    skills: Seq<SkillRecord>,
)
    ensures
        entry.shown(dir, skills) matches Some(d) ==> {
            &&& d.is_managed <==> d.managed_skill_id is Some
            &&& d.is_managed <==> exists|j: int|
                0 <= j < skills.len() && (#[trigger] skills[j]).name@ == d.name
            &&& d.is_managed ==> exists|h: int|
                0 <= h < skills.len() && (#[trigger] skills[h]).name@ == d.name
                    && d.managed_skill_id == Some(skills[h].id@) && forall|j: int|
                    0 <= j < h ==> (#[trigger] skills[j]).name@ != d.name
        },
{
    crate::handlers::first_named_is_first(skills, entry.file_name@);
}

/// Each entry adds what is shown of it, if anything, behind what is shown of those
/// before it.
pub proof fn shown_one_by_one(
    dir: Seq<char>,
    entries: Seq<LocalEntry>,
    entry: LocalEntry,
    skills: Seq<SkillRecord>,
)
    ensures
        shown_entries(dir, seq![], skills).len() == 0,
        match entry.shown(dir, skills) {
            Some(d) => shown_entries(dir, entries.push(entry), skills) == shown_entries(
                dir,
                entries,
                skills,
            ).push(d),
            None => shown_entries(dir, entries.push(entry), skills) == shown_entries(
                dir,
                entries,
                skills,
            ),
        },
{
    assert(entries.push(entry).drop_last() =~= entries);
    let show = |e: LocalEntry| e.shown(dir, skills);
    assert(Seq::<LocalEntry>::empty().filter_map(show).len() == 0);
    if let Some(d) = entry.shown(dir, skills) {
        assert(entries.push(entry).filter_map(show) =~= entries.filter_map(show).push(d));
    }
}

/// As much is shown as entries are listed.
pub proof fn as_many_shown_as_listed(
    dir: Seq<char>,
    entries: Seq<LocalEntry>,
    skills: Seq<SkillRecord>,
)
    ensures
        shown_entries(dir, entries, skills).len() == entries.filter(
            |e: LocalEntry| e.listed_path(dir) is Some,
        ).len(),
    decreases entries.len(),
{
    reveal(Seq::filter);
    if entries.len() > 0 {
        as_many_shown_as_listed(dir, entries.drop_last(), skills);
        shown_one_by_one(dir, entries.drop_last(), entries.last(), skills);
        assert(entries.drop_last().push(entries.last()) =~= entries);
    }
}

/// A listing is in the order of the names, and those of one name stay in the order
/// in which they were found.
pub proof fn sorting_by_text(
    sorted: Seq<LocalSkillView>,
    list: Seq<LocalSkillView>,
    name: Seq<char>,
)
    requires
        is_sorting_of(sorted, list),
    ensures
        forall|i: int, j: int|
            0 <= i < j < sorted.len() ==> !precedes(
                (#[trigger] sorted[j]).name,
                (#[trigger] sorted[i]).name,
            ),
        sorted.filter(|s: LocalSkillView| s.name == name) == list.filter(
            |s: LocalSkillView| s.name == name,
        ),
        sorted.len() == list.len(),
{
    broadcast use vstd::seq_lib::group_to_multiset_ensures;

    sorting_keeps_all(sorted, list);
    assert(sorted.to_multiset().len() == list.to_multiset().len());
    assert(named(sorted, name) == named(list, name));
}

/// What is shown of an entry is among what is shown.
proof fn lemma_entry_is_shown(
    dir: Seq<char>,
    entries: Seq<LocalEntry>,
    skills: Seq<SkillRecord>,
    k: int,
)
    requires
        0 <= k < entries.len(),
        entries[k].shown(dir, skills) is Some,
    ensures
        shown_entries(dir, entries, skills).contains(entries[k].shown(dir, skills)->0),
    decreases entries.len(),
{
    let front = entries.drop_last();
    let d = entries[k].shown(dir, skills)->0;
    shown_one_by_one(dir, front, entries.last(), skills);
    assert(front.push(entries.last()) =~= entries);
    let all = shown_entries(dir, entries, skills);
    let before = shown_entries(dir, front, skills);
    if k < front.len() {
        assert(front[k] == entries[k]);
        lemma_entry_is_shown(dir, front, skills, k);
        let i = before.index_of(d);
        assert(all[i] == d);
    } else {
        assert(all[before.len() as int] == d);
    }
}

/// What a listing shows and the entries of the directory answer to each other:
/// whatever is shown is shown of an entry, and every entry that is listed is shown.
pub proof fn listing_answers_to_the_entries(
    dir: Seq<char>,
    entries: Seq<LocalEntry>,
    skills: Seq<SkillRecord>,
    sorted: Seq<LocalSkillView>,
)
    requires
        is_sorting_of(sorted, shown_entries(dir, entries, skills)),
    ensures
        forall|d: LocalSkillView| #[trigger]
            sorted.contains(d) ==> exists|k: int|
                0 <= k < entries.len() && (#[trigger] entries[k]).shown(dir, skills) == Some(d),
        forall|k: int|
            0 <= k < entries.len() && (#[trigger] entries[k]).listed_path(dir) is Some
                ==> sorted.contains(entries[k].shown(dir, skills)->0),
        sorted.len() == entries.filter(|e: LocalEntry| e.listed_path(dir) is Some).len(),
{
    broadcast use vstd::seq_lib::group_to_multiset_ensures;

    let list = shown_entries(dir, entries, skills);
    sorting_keeps_all(sorted, list);
    sorting_by_text(sorted, list, seq![]);
    as_many_shown_as_listed(dir, entries, skills);
    assert forall|d: LocalSkillView| #[trigger] sorted.contains(d) implies exists|k: int|
        0 <= k < entries.len() && (#[trigger] entries[k]).shown(dir, skills) == Some(d) by {
        assert(sorted.to_multiset().count(d) > 0);
        assert(list.contains(d));
        lemma_shown_of_an_entry(dir, entries, skills, d);
    }
    assert forall|k: int|
        0 <= k < entries.len() && (#[trigger] entries[k]).listed_path(dir) is Some implies
        sorted.contains(entries[k].shown(dir, skills)->0) by {
        shown_as_found(entries[k], dir, skills);
        lemma_entry_is_shown(dir, entries, skills, k);
        let d = entries[k].shown(dir, skills)->0;
        assert(list.to_multiset().count(d) > 0);
    }
}

/// Contracts see the whole of what a listing tells.
pub proof fn listings_are_seen_whole(dtos: Seq<LocalSkillDto>, i: int)
    requires
        0 <= i < dtos.len(),
    ensures
        views(dtos).len() == dtos.len(),
        views(dtos)[i].name == dtos[i].name@,
        views(dtos)[i].relative_path == dtos[i].relative_path@,
        views(dtos)[i].has_skill_md == dtos[i].has_skill_md,
        views(dtos)[i].is_managed == dtos[i].is_managed,
        views(dtos)[i].managed_skill_id is Some <==> dtos[i].managed_skill_id is Some,
        dtos[i].managed_skill_id is Some ==> views(dtos)[i].managed_skill_id->0
            == dtos[i].managed_skill_id->0@,
        views(dtos)[i].content_hash is Some <==> dtos[i].content_hash is Some,
        dtos[i].content_hash is Some ==> views(dtos)[i].content_hash->0
            == dtos[i].content_hash->0@,
{
}

/// What a listing tells of entries and skills, one by one.
proof fn lemma_listing_one_by_one(
    dir: Seq<char>,
    entries: Seq<LocalEntry>,
    skills: Seq<SkillRecord>,
    dtos: Seq<LocalSkillDto>,
)
    requires
        is_sorting_of(views(dtos), shown_entries(dir, entries, skills)),
    ensures
        forall|i: int|
            0 <= i < dtos.len() ==> {
                let d = #[trigger] dtos[i];
                &&& d.is_managed <==> d.managed_skill_id is Some
                &&& d.is_managed <==> exists|j: int|
                    0 <= j < skills.len() && (#[trigger] skills[j]).name@ == d.name@
                &&& d.is_managed ==> exists|h: int|
                    0 <= h < skills.len() && (#[trigger] skills[h]).name@ == d.name@
                        && d.managed_skill_id->0@ == skills[h].id@ && forall|j: int|
                        0 <= j < h ==> (#[trigger] skills[j]).name@ != d.name@
                &&& exists|k: int|
                    0 <= k < entries.len() && (#[trigger] entries[k]).is_dir
                        && entries[k].file_name@ == d.name@ && entries[k].listed_path(dir) == Some(
                        d.relative_path@,
                    ) && (d.has_skill_md <==> entries[k].has_upper_skill_md
                        || entries[k].has_lower_skill_md) && (d.content_hash is Some
                        <==> d.has_skill_md && entries[k].content_hash is Some) && (
                    d.content_hash is Some ==> d.content_hash->0@ == entries[k].content_hash->0@)
            },
        forall|k: int|
            0 <= k < entries.len() && (#[trigger] entries[k]).listed_path(dir) is Some
                ==> exists|i: int|
                0 <= i < dtos.len() && (#[trigger] dtos[i]).name@ == entries[k].file_name@
                    && entries[k].listed_path(dir) == Some(dtos[i].relative_path@),
        forall|i: int, j: int|
            0 <= i < j < dtos.len() ==> !precedes(
                (#[trigger] dtos[j]).name@,
                (#[trigger] dtos[i]).name@,
            ),
        dtos.len() == entries.filter(|e: LocalEntry| e.listed_path(dir) is Some).len(),
{
    let sorted = views(dtos);
    listing_answers_to_the_entries(dir, entries, skills, sorted);
    sorting_by_text(sorted, shown_entries(dir, entries, skills), seq![]);
    assert forall|i: int| 0 <= i < dtos.len() implies {
        let d = #[trigger] dtos[i];
        &&& d.is_managed <==> d.managed_skill_id is Some
        &&& d.is_managed <==> exists|j: int|
            0 <= j < skills.len() && (#[trigger] skills[j]).name@ == d.name@
        &&& d.is_managed ==> exists|h: int|
            0 <= h < skills.len() && (#[trigger] skills[h]).name@ == d.name@
                && d.managed_skill_id->0@ == skills[h].id@ && forall|j: int|
                0 <= j < h ==> (#[trigger] skills[j]).name@ != d.name@
        &&& exists|k: int|
            0 <= k < entries.len() && (#[trigger] entries[k]).is_dir && entries[k].file_name@
                == d.name@ && entries[k].listed_path(dir) == Some(d.relative_path@) && (
            d.has_skill_md <==> entries[k].has_upper_skill_md || entries[k].has_lower_skill_md)
                && (d.content_hash is Some <==> d.has_skill_md && entries[k].content_hash is Some)
                && (d.content_hash is Some ==> d.content_hash->0@ == entries[k].content_hash->0@)
    } by {
        listings_are_seen_whole(dtos, i);
        let v = sorted[i];
        assert(sorted.contains(v));
        let k = choose|k: int|
            0 <= k < entries.len() && (#[trigger] entries[k]).shown(dir, skills) == Some(v);
        managed_as_the_store_says(entries[k], dir, skills);
        shown_as_found(entries[k], dir, skills);
        listed_path_by_text(entries[k], dir);
        assert(entries[k].is_dir);
    }
    assert forall|k: int|
        0 <= k < entries.len() && (#[trigger] entries[k]).listed_path(dir) is Some implies exists|
        i: int,
    |
        0 <= i < dtos.len() && (#[trigger] dtos[i]).name@ == entries[k].file_name@
            && entries[k].listed_path(dir) == Some(dtos[i].relative_path@) by {
        let v = entries[k].shown(dir, skills)->0;
        shown_as_found(entries[k], dir, skills);
        let i = sorted.index_of(v);
        assert(sorted[i] == dtos[i]@);
    }
    assert forall|i: int, j: int| 0 <= i < j < dtos.len() implies !precedes(
        (#[trigger] dtos[j]).name@,
        (#[trigger] dtos[i]).name@,
    ) by {
        assert(sorted[i] == dtos[i]@ && sorted[j] == dtos[j]@);
    }
}

} // verus!

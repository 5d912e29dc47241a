//! From what a request names to what the store holds.

use crate::error::{seen, AppError, ErrorKind, ErrorView};
use crate::path::{file_name, last_name};
use crate::records::{SkillRecord, ToolAdapter};
use crate::text::{joined, same};
use vstd::prelude::*;

verus! {

/// Whether `reference` names `skill`: by its id, its name, or the last name of
/// its central path.
pub open spec fn refers_to(skill: SkillRecord, reference: Seq<char>) -> bool {
    ||| skill.id@ == reference
    ||| skill.name@ == reference
    ||| last_name(skill.central_path@) == Some(reference)
}

/// The first of `skills` that `reference` names.
pub open spec fn first_match(skills: Seq<SkillRecord>, reference: Seq<char>) -> Option<SkillRecord>
    decreases skills.len(),
{
    if skills.len() == 0 {
        None
    } else if refers_to(skills[0], reference) {
        Some(skills[0])
    } else {
        first_match(skills.skip(1), reference)
    }
}

/// Whether one of `skills` has this id.
pub open spec fn has_id(skills: Seq<SkillRecord>, id: Seq<char>) -> bool {
    exists|i: int| 0 <= i < skills.len() && (#[trigger] skills[i]).id@ == id
}

/// The skills that the references name, each once, in the order in which the
/// references first name them; an error for the first reference that names none.
pub open spec fn resolution(skills: Seq<SkillRecord>, references: Seq<String>) -> Result<
    Seq<SkillRecord>,
    ErrorView,
>
    decreases references.len(),
{
    if references.len() == 0 {
        Ok(seq![])
    } else {
        match resolution(skills, references.drop_last()) {
            Err(error) => Err(error),
            Ok(found) => match first_match(skills, references.last()@) {
                None => Err(ErrorView::not_found("skill not found: "@ + references.last()@)),
                Some(skill) => if has_id(found, skill.id@) {
                    Ok(found)
                } else {
                    Ok(found.push(skill))
                },
            },
        }
    }
}

/// What references resolve to, given what the store answered.
pub open spec fn resolved(
    skills: Result<Vec<SkillRecord>, String>,
    references: Seq<String>,
) -> Result<Seq<SkillRecord>, ErrorView> {
    if references.len() == 0 {
        Err(ErrorView::invalid_input("at least one reference is required"@))
    } else {
        match skills {
            Err(reason) => Err(ErrorView::db(reason@)),
            Ok(skills) => resolution(skills@, references),
        }
    }
}

/// Whether `reference` names `skill`.
fn is_named_by(skill: &SkillRecord, reference: &str) -> (result: bool)
    ensures
        result == refers_to(*skill, reference@),
{
    if same(skill.id.as_str(), reference) || same(skill.name.as_str(), reference) {
        return true;
    }
    match file_name(skill.central_path.as_str()) {
        Some(name) => same(name.as_str(), reference),
        None => false,
    }
}

/// The first of `skills` that `reference` names.
pub fn find_skill(skills: &Vec<SkillRecord>, reference: &str) -> (found: Option<SkillRecord>)
    ensures
        found == first_match(skills@, reference@),
{
    assert(skills@.skip(0) =~= skills@);
    for i in 0..skills.len()
        invariant
            first_match(skills@, reference@) == first_match(skills@.skip(i as int), reference@),
    {
        if is_named_by(&skills[i], reference) {
            return Some(skills[i].clone());
        }
        assert(skills@.skip(i as int).skip(1) =~= skills@.skip(i + 1));
    }
    None
}

/// Whether one of `skills` has this id.
fn contains_id(skills: &Vec<SkillRecord>, id: &str) -> (result: bool)
    ensures
        result == has_id(skills@, id@),
{
    for i in 0..skills.len()
        invariant
            forall|j: int| 0 <= j < i ==> (#[trigger] skills@[j]).id@ != id@,
    {
        if same(skills[i].id.as_str(), id) {
            return true;
        }
    }
    false
}

/// The skills that the references name, given what the store answered when it
/// was asked for all skills.
pub fn resolve_references(
    skills: &Result<Vec<SkillRecord>, String>,
    references: &[String],
) -> (result: Result<Vec<SkillRecord>, AppError>)
    ensures
        seen(result) == resolved(*skills, references@),
{
    if references.len() == 0 {
        return Err(AppError::invalid_input("at least one reference is required"));
    }
    let all = match skills {
        Ok(all) => all,
        Err(reason) => {
            return Err(AppError::db(reason.as_str()));
        },
    };
    let mut found: Vec<SkillRecord> = Vec::new();
    assert(references@.take(0) =~= Seq::<String>::empty());
    for i in 0..references.len()
        invariant
            references@.len() > 0,
            *skills == Ok::<Vec<SkillRecord>, String>(*all),
            resolution(all@, references@.take(i as int)) == Ok::<Seq<SkillRecord>, ErrorView>(found@),
    {
        let reference = references[i].as_str();
        assert(references@.take(i + 1).drop_last() =~= references@.take(i as int));
        match find_skill(all, reference) {
            Some(skill) => {
                if !contains_id(&found, skill.id.as_str()) {
                    found.push(skill);
                }
            },
            None => {
                proof {
                    lemma_error_stays(all@, references@, i + 1);
                }
                return Err(AppError::not_found(joined("skill not found: ", reference).as_str()));
            },
        }
    }
    assert(references@.take(references@.len() as int) =~= references@);
    Ok(found)
}

/// Once a reference names nothing, what follows it does not matter.
proof fn lemma_error_stays(skills: Seq<SkillRecord>, references: Seq<String>, n: int)
    requires
        0 <= n <= references.len(),
        resolution(skills, references.take(n)) is Err,
    ensures
        resolution(skills, references) == resolution(skills, references.take(n)),
    decreases references.len(),
{
    if n == references.len() {
        assert(references.take(n) =~= references);
    } else {
        assert(references.drop_last().take(n) =~= references.take(n));
        lemma_error_stays(skills, references.drop_last(), n);
    }
}

/// The agent with the key `agent_key`, given what the tools answered when they
/// were asked for it.
pub fn resolve_agent(found: Option<ToolAdapter>, agent_key: &str) -> (result: Result<
    ToolAdapter,
    AppError,
>)
    ensures
        match found {
            Some(adapter) => result == Ok::<ToolAdapter, AppError>(adapter),
            None => result matches Err(error) && error@ == ErrorView::not_found(
                "unknown agent: "@ + agent_key@,
            ),
        },
{
    match found {
        Some(adapter) => Ok(adapter),
        None => Err(AppError::not_found(joined("unknown agent: ", agent_key).as_str())),
    }
}

// ── laws ────────────────────────────────────────────────────────────────

/// A reference stands for the first skill of the store that it names, and for
/// nothing where it names none.
pub proof fn first_match_is_first(skills: Seq<SkillRecord>, reference: Seq<char>)
    ensures
        match first_match(skills, reference) {
            Some(skill) => exists|i: int|
                0 <= i < skills.len() && #[trigger] skills[i] == skill && refers_to(
                    skill,
                    reference,
                ) && forall|j: int| 0 <= j < i ==> !refers_to(#[trigger] skills[j], reference),
            None => forall|j: int|
                0 <= j < skills.len() ==> !refers_to(#[trigger] skills[j], reference),
        },
    decreases skills.len(),
{
    if skills.len() > 0 && !refers_to(skills[0], reference) {
        let rest = skills.skip(1);
        first_match_is_first(rest, reference);
        match first_match(rest, reference) {
            Some(skill) => {
                let i = choose|i: int|
                    0 <= i < rest.len() && #[trigger] rest[i] == skill && refers_to(
                        skill,
                        reference,
                    ) && forall|j: int| 0 <= j < i ==> !refers_to(#[trigger] rest[j], reference);
                assert(skills[i + 1] == skill);
                assert forall|j: int| 0 <= j < i + 1 implies !refers_to(
                    #[trigger] skills[j],
                    reference,
                ) by {
                    if j > 0 {
                        assert(skills[j] == rest[j - 1]);
                    }
                }
            },
            None => {
                assert forall|j: int| 0 <= j < skills.len() implies !refers_to(
                    #[trigger] skills[j],
                    reference,
                ) by {
                    if j > 0 {
                        assert(skills[j] == rest[j - 1]);
                    }
                }
            },
        }
    } else if skills.len() > 0 {
        assert(skills[0] == first_match(skills, reference)->0);
    }
}

/// No skill is resolved twice, however often and under whatever name the
/// references give it.
pub proof fn resolved_once(skills: Seq<SkillRecord>, references: Seq<String>)
    ensures
        resolution(skills, references) matches Ok(found) ==> forall|i: int, j: int|
            0 <= i < j < found.len() ==> (#[trigger] found[i]).id@ != (#[trigger] found[j]).id@,
    decreases references.len(),
{
    if references.len() > 0 {
        resolved_once(skills, references.drop_last());
    }
}

/// What references resolve to is what each of them names, no more and no less.
pub proof fn resolved_as_named(skills: Seq<SkillRecord>, references: Seq<String>)
    ensures
        resolution(skills, references) matches Ok(found) ==> {
            &&& found.len() <= references.len()
            &&& forall|k: int|
                0 <= k < references.len() ==> ({
                    &&& first_match(skills, (#[trigger] references[k])@) matches Some(skill)
                    &&& has_id(found, skill.id@)
                })
            &&& forall|i: int|
                0 <= i < found.len() ==> exists|k: int|
                    0 <= k < references.len() && first_match(
                        skills,
                        (#[trigger] references[k])@,
                    ) == Some(#[trigger] found[i])
        },
    decreases references.len(),
{
    if references.len() > 0 {
        let front = references.drop_last();
        resolved_as_named(skills, front);
        if let Ok(found) = resolution(skills, references) {
            let before = resolution(skills, front)->Ok_0;
            assert forall|k: int| 0 <= k < references.len() implies ({
                &&& first_match(skills, (#[trigger] references[k])@) matches Some(skill)
                &&& has_id(found, skill.id@)
            }) by {
                if k < front.len() {
                    assert(references[k] == front[k]);
                    let skill = first_match(skills, front[k]@)->0;
                    let i = choose|i: int|
                        0 <= i < before.len() && (#[trigger] before[i]).id@ == skill.id@;
                    assert(found[i] == before[i]);
                } else {
                    let skill = first_match(skills, references.last()@)->0;
                    if !has_id(before, skill.id@) {
                        assert(found[before.len() as int] == skill);
                    }
                }
            }
            assert forall|i: int| 0 <= i < found.len() implies exists|k: int|
                0 <= k < references.len() && first_match(
                    skills,
                    (#[trigger] references[k])@,
                ) == Some(#[trigger] found[i]) by {
                if i < before.len() {
                    assert(found[i] == before[i]);
                    let k = choose|k: int|
                        0 <= k < front.len() && first_match(skills, (#[trigger] front[k])@)
                            == Some(before[i]);
                    assert(references[k] == front[k]);
                } else {
                    assert(references[references.len() - 1] == references.last());
                }
            }
        }
    }
}

/// Resolving fails exactly where some reference names no skill, and the error
/// tells the first such reference.
pub proof fn first_unknown_reference_fails(skills: Seq<SkillRecord>, references: Seq<String>)
    ensures
        resolution(skills, references) is Err <==> exists|k: int|
            0 <= k < references.len() && first_match(skills, (#[trigger] references[k])@) is None,
        forall|k: int|
            0 <= k < references.len() && first_match(skills, (#[trigger] references[k])@) is None
                && (forall|j: int|
                0 <= j < k ==> first_match(skills, (#[trigger] references[j])@) is Some)
                ==> resolution(skills, references) == Err::<Seq<SkillRecord>, ErrorView>(
                ErrorView::not_found("skill not found: "@ + references[k]@),
            ),
    decreases references.len(),
{
    if references.len() > 0 {
        let front = references.drop_last();
        let n = front.len() as int;
        first_unknown_reference_fails(skills, front);
        assert forall|j: int| 0 <= j < n implies references[j] == #[trigger] front[j] by {}
        assert(references[n] == references.last());
        if resolution(skills, front) is Err {
            let k = choose|k: int|
                0 <= k < front.len() && first_match(skills, (#[trigger] front[k])@) is None;
            assert(references[k] == front[k]);
        }
        if exists|k: int|
            0 <= k < references.len() && first_match(skills, (#[trigger] references[k])@) is None {
            let k = choose|k: int|
                0 <= k < references.len() && first_match(
                    skills,
                    (#[trigger] references[k])@,
                ) is None;
            if k < n {
                assert(front[k] == references[k]);
            }
        }
        assert forall|k: int|
            0 <= k < references.len() && first_match(skills, (#[trigger] references[k])@) is None
                && (forall|j: int|
                0 <= j < k ==> first_match(skills, (#[trigger] references[j])@) is Some) implies resolution(
            skills,
            references,
        ) == Err::<Seq<SkillRecord>, ErrorView>(
            ErrorView::not_found("skill not found: "@ + references[k]@),
        ) by {
            if k < n {
                assert(front[k] == references[k]);
                assert forall|j: int| 0 <= j < k implies first_match(
                    skills,
                    (#[trigger] front[j])@,
                ) is Some by {
                    assert(references[j] == front[j]);
                }
            } else {
                assert forall|j: int| 0 <= j < n implies first_match(
                    skills,
                    (#[trigger] front[j])@,
                ) is Some by {
                    assert(references[j] == front[j]);
                }
            }
        }
    }
}

/// More references add skills behind those that are resolved already, which keep
/// their places.
pub proof fn resolved_in_order(skills: Seq<SkillRecord>, references: Seq<String>, n: int)
    requires
        0 <= n <= references.len(),
    ensures
        resolution(skills, references) matches Ok(found) ==> {
            &&& resolution(skills, references.take(n)) matches Ok(first)
            &&& first.is_prefix_of(found)
        },
    decreases references.len(),
{
    if n == references.len() {
        assert(references.take(n) =~= references);
        if let Ok(found) = resolution(skills, references) {
            assert(found =~= found.subrange(0, found.len() as int));
        }
    } else {
        let front = references.drop_last();
        resolved_in_order(skills, front, n);
        assert(front.take(n) =~= references.take(n));
        if let Ok(found) = resolution(skills, references) {
            let before = resolution(skills, front)->Ok_0;
            let first = resolution(skills, references.take(n))->Ok_0;
            assert(first =~= found.subrange(0, first.len() as int)) by {
                assert(first =~= before.subrange(0, first.len() as int));
                assert forall|i: int| 0 <= i < first.len() implies first[i] == found[i] by {
                    assert(first[i] == before.subrange(0, first.len() as int)[i]);
                }
            }
        }
    }
}

/// A reference stands for the first skill whose id, name or last name of the
/// central path is the very text of the reference, and for nothing where no skill
/// has that text for one of the three.
pub proof fn first_match_by_text(skills: Seq<SkillRecord>, reference: Seq<char>)
    ensures
        match first_match(skills, reference) {
            Some(skill) => {
                &&& skill.id@ == reference || skill.name@ == reference || last_name(
                    skill.central_path@,
                ) == Some(reference)
                &&& exists|i: int|
                    0 <= i < skills.len() && #[trigger] skills[i] == skill && forall|j: int|
                        0 <= j < i ==> (#[trigger] skills[j]).id@ != reference && skills[j].name@
                            != reference && last_name(skills[j].central_path@) != Some(reference)
            },
            None => forall|j: int|
                0 <= j < skills.len() ==> (#[trigger] skills[j]).id@ != reference
                    && skills[j].name@ != reference && last_name(skills[j].central_path@) != Some(
                    reference,
                ),
        },
{
    first_match_is_first(skills, reference);
}

/// Whether a reference names a skill is a matter of three texts: the id, the name
/// and the whole last name of the central path.
pub proof fn refers_by_text(skill: SkillRecord, reference: Seq<char>)
    ensures
        skill.id@ == reference ==> refers_to(skill, reference),
        skill.name@ == reference ==> refers_to(skill, reference),
        last_name(skill.central_path@) == Some(reference) ==> refers_to(skill, reference),
        refers_to(skill, reference) && skill.id@ != reference && skill.name@ != reference
            ==> last_name(skill.central_path@) == Some(reference),
{
}

/// Every resolved skill is held by the store, and some reference is, to the
/// letter, its id, its name or the last name of its central path; no skill that
/// the store lists earlier has that text for one of the three.
pub proof fn resolved_skill_is_named_to_the_letter(
    skills: Result<Vec<SkillRecord>, String>,
    references: Seq<String>,
    i: int,
)
    requires
        resolved(skills, references) is Ok,
        0 <= i < resolved(skills, references)->Ok_0.len(),
    ensures
        skills is Ok,
        ({
            let all = skills->Ok_0@;
            let skill = resolved(skills, references)->Ok_0[i];
            exists|k: int, h: int|
                0 <= k < references.len() && 0 <= h < all.len() && #[trigger] all[h] == skill && (
                skill.id@ == (#[trigger] references[k])@ || skill.name@ == references[k]@
                    || last_name(skill.central_path@) == Some(references[k]@)) && forall|j: int|
                    0 <= j < h ==> (#[trigger] all[j]).id@ != references[k]@ && all[j].name@
                        != references[k]@ && last_name(all[j].central_path@) != Some(
                        references[k]@,
                    )
        }),
{
    let all = skills->Ok_0@;
    let found = resolved(skills, references)->Ok_0;
    let skill = found[i];
    resolved_as_named(all, references);
    let k = choose|k: int|
        0 <= k < references.len() && first_match(all, (#[trigger] references[k])@) == Some(
            found[i],
        );
    let reference = references[k]@;
    first_match_by_text(all, reference);
    let h = choose|h: int|
        0 <= h < all.len() && #[trigger] all[h] == skill && forall|j: int|
            0 <= j < h ==> (#[trigger] all[j]).id@ != reference && all[j].name@ != reference
                && last_name(all[j].central_path@) != Some(reference);
    assert(all[h] == skill);
}

/// A reference that is no skill's id, name or last name of the central path makes
/// the request fail, and the first such reference is the one reported.
pub proof fn unknown_reference_is_reported(
    skills: Result<Vec<SkillRecord>, String>,
    references: Seq<String>,
    k: int,
)
    requires
        skills is Ok,
        0 <= k < references.len(),
        forall|j: int|
            0 <= j < skills->Ok_0@.len() ==> (#[trigger] skills->Ok_0@[j]).id@ != references[k]@
                && skills->Ok_0@[j].name@ != references[k]@ && last_name(
                skills->Ok_0@[j].central_path@,
            ) != Some(references[k]@),
    ensures
        resolved(skills, references) is Err,
        resolved(skills, references)->Err_0.kind == ErrorKind::NotFound,
        (forall|h: int|
            0 <= h < k ==> exists|j: int|
                0 <= j < skills->Ok_0@.len() && ((#[trigger] skills->Ok_0@[j]).id@
                    == (#[trigger] references[h])@ || skills->Ok_0@[j].name@ == references[h]@
                    || last_name(skills->Ok_0@[j].central_path@) == Some(references[h]@)))
            ==> resolved(skills, references)->Err_0.message == "skill not found: "@
            + references[k]@,
{
    let all = skills->Ok_0@;
    first_unknown_reference_fails(all, references);
    first_match_by_text(all, references[k]@);
    assert(first_match(all, references[k]@) is None);
    lemma_only_not_found(all, references);
    if forall|h: int|
        0 <= h < k ==> exists|j: int|
            0 <= j < all.len() && ((#[trigger] all[j]).id@ == (#[trigger] references[h])@
                || all[j].name@ == references[h]@ || last_name(all[j].central_path@) == Some(
                references[h]@,
            )) {
        assert forall|h: int| 0 <= h < k implies first_match(
            all,
            (#[trigger] references[h])@,
        ) is Some by {
            first_match_by_text(all, references[h]@);
            let j = choose|j: int|
                0 <= j < all.len() && ((#[trigger] all[j]).id@ == references[h]@ || all[j].name@
                    == references[h]@ || last_name(all[j].central_path@) == Some(references[h]@));
            assert(all[j].id@ == references[h]@ || all[j].name@ == references[h]@ || last_name(
                all[j].central_path@,
            ) == Some(references[h]@));
        }
    }
}

/// Resolving fails for no other reason than an unknown reference.
proof fn lemma_only_not_found(skills: Seq<SkillRecord>, references: Seq<String>)
    ensures
        resolution(skills, references) matches Err(error) ==> error.kind == ErrorKind::NotFound,
    decreases references.len(),
{
    if references.len() > 0 {
        lemma_only_not_found(skills, references.drop_last());
    }
}

/// Where every reference is, to the letter, some skill's id, name or last name of
/// the central path, the request resolves, and each reference brings in the first
/// skill that it is so of.
pub proof fn known_references_resolve(
    skills: Result<Vec<SkillRecord>, String>,
    references: Seq<String>,
)
    requires
        skills is Ok,
        references.len() > 0,
        forall|k: int|
            0 <= k < references.len() ==> exists|j: int|
                0 <= j < skills->Ok_0@.len() && ((#[trigger] skills->Ok_0@[j]).id@
                    == (#[trigger] references[k])@ || skills->Ok_0@[j].name@ == references[k]@
                    || last_name(skills->Ok_0@[j].central_path@) == Some(references[k]@)),
    ensures
        resolved(skills, references) is Ok,
        forall|k: int, h: int|
            0 <= k < references.len() && 0 <= h < skills->Ok_0@.len() && (
            (#[trigger] skills->Ok_0@[h]).id@ == (#[trigger] references[k])@
                || skills->Ok_0@[h].name@ == references[k]@ || last_name(
                skills->Ok_0@[h].central_path@,
            ) == Some(references[k]@)) && (forall|j: int|
                0 <= j < h ==> (#[trigger] skills->Ok_0@[j]).id@ != references[k]@
                    && skills->Ok_0@[j].name@ != references[k]@ && last_name(
                    skills->Ok_0@[j].central_path@,
                ) != Some(references[k]@)) ==> exists|i: int|
                0 <= i < resolved(skills, references)->Ok_0.len() && (#[trigger] resolved(
                    skills,
                    references,
                )->Ok_0[i]).id@ == skills->Ok_0@[h].id@,
{
    let all = skills->Ok_0@;
    first_unknown_reference_fails(all, references);
    assert forall|k: int| 0 <= k < references.len() implies first_match(
        all,
        (#[trigger] references[k])@,
    ) is Some by {
        first_match_by_text(all, references[k]@);
        let j = choose|j: int|
            0 <= j < all.len() && ((#[trigger] all[j]).id@ == references[k]@ || all[j].name@
                == references[k]@ || last_name(all[j].central_path@) == Some(references[k]@));
        assert(all[j].id@ == references[k]@ || all[j].name@ == references[k]@ || last_name(
            all[j].central_path@,
        ) == Some(references[k]@));
    }
    resolved_as_named(all, references);
    let found = resolved(skills, references)->Ok_0;
    assert forall|k: int, h: int|
        0 <= k < references.len() && 0 <= h < all.len() && ((#[trigger] all[h]).id@ == (
        #[trigger] references[k])@ || all[h].name@ == references[k]@ || last_name(
            all[h].central_path@,
        ) == Some(references[k]@)) && (forall|j: int|
            0 <= j < h ==> (#[trigger] all[j]).id@ != references[k]@ && all[j].name@
                != references[k]@ && last_name(all[j].central_path@) != Some(
                references[k]@,
            )) implies exists|i: int|
        0 <= i < found.len() && (#[trigger] found[i]).id@ == all[h].id@ by {
        let reference = references[k]@;
        first_match_by_text(all, reference);
        let skill = first_match(all, reference)->0;
        let g = choose|g: int|
            0 <= g < all.len() && #[trigger] all[g] == skill && forall|j: int|
                0 <= j < g ==> (#[trigger] all[j]).id@ != reference && all[j].name@ != reference
                    && last_name(all[j].central_path@) != Some(reference);
        assert(g == h) by {
            if g < h {
                assert(all[g].id@ != reference);
            }
            if h < g {
                assert(all[h].id@ != reference);
            }
        }
        assert(has_id(found, skill.id@));
        let i = choose|i: int| 0 <= i < found.len() && (#[trigger] found[i]).id@ == skill.id@;
        assert(found[i].id@ == all[h].id@);
    }
}

/// A request without references makes no sense, and one that the store does not
/// answer fails with the store's reason.
pub proof fn nothing_resolves_without_references_or_store(
    skills: Result<Vec<SkillRecord>, String>,
    references: Seq<String>,
)
    ensures
        references.len() == 0 ==> resolved(skills, references) == Err::<
            Seq<SkillRecord>,
            ErrorView,
        >(
            ErrorView {
                kind: ErrorKind::InvalidInput,
                message: "at least one reference is required"@,
            },
        ),
        references.len() > 0 ==> (skills matches Err(reason) ==> resolved(skills, references)
            == Err::<Seq<SkillRecord>, ErrorView>(
            ErrorView { kind: ErrorKind::Database, message: reason@ },
        )),
{
}

/// What the first references of a request resolve to keeps its places when more
/// references follow.
pub proof fn resolved_skills_keep_their_places(
    skills: Result<Vec<SkillRecord>, String>,
    references: Seq<String>,
    n: int,
)
    requires
        0 < n <= references.len(),
        resolved(skills, references) is Ok,
    ensures
        resolved(skills, references.take(n)) is Ok,
        ({
            let first = resolved(skills, references.take(n))->Ok_0;
            let found = resolved(skills, references)->Ok_0;
            &&& first.len() <= found.len()
            &&& forall|i: int| 0 <= i < first.len() ==> #[trigger] found[i] == first[i]
            &&& forall|i: int, j: int|
                0 <= i < j < found.len() ==> (#[trigger] found[i]).id@ != (
                #[trigger] found[j]).id@
        }),
{
    let all = skills->Ok_0@;
    resolved_in_order(all, references, n);
    resolved_once(all, references);
    let first = resolution(all, references.take(n))->Ok_0;
    let found = resolution(all, references)->Ok_0;
    assert forall|i: int| 0 <= i < first.len() implies #[trigger] found[i] == first[i] by {
        assert(found.subrange(0, first.len() as int)[i] == first[i]);
    }
}

} // verus!

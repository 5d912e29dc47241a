//! Requests that act on several entries of an agent's directory, one at a time.
//!
//! A batch hands out one path after the other; the caller acts on it and hands
//! back what came of it. Paths that a request may not touch are never handed
//! out. When all paths are answered for, the batch becomes the response.

use crate::error::{seen, AppError, ErrorKind, ErrorView};
use crate::local_skills::{extract_paths, safe_join, safe_join_local, AgentPathBody};
use crate::path::{file_name, last_name, starts_with};
use crate::records::{SkillRecord, ToolAdapter};
use crate::resolve::resolve_agent;
use crate::text::{copied, same, text, texts};
use crate::write_handlers::{installed, InstallOrder, InstallOutcome, InstallSourceMetadata};
use vstd::prelude::*;

verus! {

/// What came of one path.
#[derive(Debug, PartialEq, Eq)]
pub struct PathResult {
    pub relative_path: String,
    pub ok: bool,
    pub skill_id: Option<String>,
    pub central_path: Option<String>,
    pub reason: Option<String>,
}

/// What came of one path, as contracts see it.
#[verifier::ext_equal]
pub struct ResultView {
    pub relative_path: Seq<char>,
    pub ok: bool,
    pub skill_id: Option<Seq<char>>,
    pub central_path: Option<Seq<char>>,
    pub reason: Option<Seq<char>>,
}

impl View for PathResult {
    type V = ResultView;

    open spec fn view(&self) -> ResultView {
        ResultView {
            relative_path: self.relative_path@,
            ok: self.ok,
            skill_id: text(self.skill_id),
            central_path: text(self.central_path),
            reason: text(self.reason),
        }
    }
}

impl ResultView {
    /// The path was dealt with.
    pub open spec fn done(relative_path: Seq<char>) -> ResultView {
        ResultView {
            relative_path,
            ok: true,
            skill_id: None,
            central_path: None,
            reason: None,
        }
    }

    /// The path was not dealt with.
    pub open spec fn failed(relative_path: Seq<char>, reason: Seq<char>) -> ResultView {
        ResultView {
            relative_path,
            ok: false,
            skill_id: None,
            central_path: None,
            reason: Some(reason),
        }
    }
}

/// What came of all paths of a request, in the order of the request.
#[derive(Debug, PartialEq, Eq)]
pub struct AgentMutateResponse {
    pub results: Vec<PathResult>,
    pub succeeded: usize,
    pub failed: usize,
}

/// What came of all paths, as contracts see it.
#[verifier::ext_equal]
pub struct MutateView {
    pub results: Seq<ResultView>,
    pub succeeded: nat,
    pub failed: nat,
}

impl View for AgentMutateResponse {
    type V = MutateView;

    open spec fn view(&self) -> MutateView {
        MutateView {
            results: views(self.results@),
            succeeded: self.succeeded as nat,
            failed: self.failed as nat,
        }
    }
}

/// The results as contracts see them.
pub open spec fn views(results: Seq<PathResult>) -> Seq<ResultView> {
    results.map_values(|r: PathResult| r@)
}

/// The number of results with the given verdict.
pub open spec fn count(results: Seq<ResultView>, ok: bool) -> nat {
    results.filter(|r: ResultView| r.ok == ok).len()
}

/// The response that reports the results: it counts those that succeeded and
/// those that did not.
pub open spec fn report(results: Seq<ResultView>) -> MutateView {
    MutateView { results, succeeded: count(results, true), failed: count(results, false) }
}

/// A batch as contracts see it: the directory, the paths of the request, and
/// the results so far.
#[verifier::ext_equal]
pub struct BatchView {
    pub skills_dir: Seq<char>,
    pub paths: Seq<Seq<char>>,
    pub results: Seq<ResultView>,
}

impl BatchView {
    /// Whether all paths are answered for.
    pub open spec fn is_complete(self) -> bool {
        self.results.len() >= self.paths.len()
    }

    /// The path that is answered for next.
    pub open spec fn current(self) -> Seq<char> {
        self.paths[self.results.len() as int]
    }

    /// Where the current path leads, or why the request may not touch it.
    pub open spec fn target(self) -> Result<Seq<char>, ErrorView> {
        safe_join(self.skills_dir, self.current())
    }

    /// The batch with one more result.
    pub open spec fn answered(self, result: ResultView) -> BatchView {
        BatchView { results: self.results.push(result), ..self }
    }

    /// The batch with the current path, and what follows it, refused up to the
    /// first path that the request may touch.
    pub open spec fn advanced(self) -> BatchView
        decreases self.paths.len() - self.results.len(),
    {
        if self.is_complete() {
            self
        } else {
            match self.target() {
                Ok(_) => self,
                Err(error) => self.answered(
                    ResultView::failed(self.current(), error.message),
                ).advanced(),
            }
        }
    }

    /// Whether every result so far answers for its path, and every path that the
    /// request may not touch was refused for the reason that applies.
    pub open spec fn is_consistent(self) -> bool {
        &&& self.results.len() <= self.paths.len()
        &&& forall|i: int|
            0 <= i < self.results.len() ==> {
                &&& (#[trigger] self.results[i]).relative_path == self.paths[i]
                &&& safe_join(self.skills_dir, self.paths[i]) matches Err(error)
                    ==> self.results[i] == ResultView::failed(self.paths[i], error.message)
            }
    }

    /// Whether the batch waits for the result of a path that the request may
    /// touch.
    pub open spec fn is_waiting(self) -> bool {
        &&& self.is_consistent()
        &&& !self.is_complete()
        &&& self.target() is Ok
    }
}

/// The beginning of a batch.
pub open spec fn fresh(skills_dir: Seq<char>, paths: Seq<Seq<char>>) -> BatchView {
    BatchView { skills_dir, paths, results: seq![] }
}

/// Refusing paths keeps a batch consistent and ends at a path to touch or at
/// the end.
pub proof fn advanced_is_ready(batch: BatchView)
    requires
        batch.is_consistent(),
    ensures
        batch.advanced().is_consistent(),
        batch.advanced().skills_dir == batch.skills_dir,
        batch.advanced().paths == batch.paths,
        batch.advanced().is_complete() || batch.advanced().is_waiting(),
        batch.results.len() <= batch.advanced().results.len(),
        batch.results == batch.advanced().results.take(batch.results.len() as int),
    decreases batch.paths.len() - batch.results.len(),
{
    if !batch.is_complete() && batch.target() is Err {
        let next = batch.answered(
            ResultView::failed(batch.current(), batch.target()->Err_0.message),
        );
        assert forall|i: int| 0 <= i < next.results.len() implies {
            &&& (#[trigger] next.results[i]).relative_path == next.paths[i]
            &&& safe_join(next.skills_dir, next.paths[i]) matches Err(error) ==> next.results[i]
                == ResultView::failed(next.paths[i], error.message)
        } by {
            if i < batch.results.len() {
                assert(next.results[i] == batch.results[i]);
            }
        }
        advanced_is_ready(next);
        assert(batch.results =~= next.results.take(batch.results.len() as int));
        assert(batch.results =~= batch.advanced().results.take(batch.results.len() as int)) by {
            let all = batch.advanced().results;
            assert(all.take(next.results.len() as int).take(batch.results.len() as int)
                =~= all.take(batch.results.len() as int));
        }
    } else {
        assert(batch.results =~= batch.results.take(batch.results.len() as int));
    }
}

/// Every result is a success or a failure.
pub proof fn counts_add_up(results: Seq<ResultView>)
    ensures
        count(results, true) + count(results, false) == results.len(),
    decreases results.len(),
{
    reveal(Seq::filter);
    if results.len() > 0 {
        counts_add_up(results.drop_last());
    }
}

proof fn lemma_count_push(results: Seq<ResultView>, result: ResultView)
    ensures
        count(results.push(result), result.ok) == count(results, result.ok) + 1,
        count(results.push(result), !result.ok) == count(results, !result.ok),
{
    reveal(Seq::filter);
    assert(results.push(result).drop_last() =~= results);
}

/// The results of the whole request, where `outcome` gives what came of each
/// path that was handed out.
pub open spec fn run(batch: BatchView, outcome: spec_fn(int) -> ResultView) -> Seq<ResultView>
    decreases batch.paths.len() - batch.results.len(),
    via run_decreases
{
    let ready = batch.advanced();
    if ready.is_complete() || !batch.is_consistent() {
        ready.results
    } else {
        run(ready.answered(outcome(ready.results.len() as int)), outcome)
    }
}

#[via_fn]
proof fn run_decreases(batch: BatchView, outcome: spec_fn(int) -> ResultView) {
    if batch.is_consistent() {
        advanced_is_ready(batch);
    }
}

/// What a request answers for one path: a refusal, or what came of it.
pub open spec fn answer(
    skills_dir: Seq<char>,
    path: Seq<char>,
    outcome: ResultView,
) -> ResultView {
    match safe_join(skills_dir, path) {
        Err(error) => ResultView::failed(path, error.message),
        Ok(_) => outcome,
    }
}

/// All answers of a request.
pub open spec fn answers(
    skills_dir: Seq<char>,
    paths: Seq<Seq<char>>,
    outcome: spec_fn(int) -> ResultView,
) -> Seq<ResultView> {
    Seq::new(paths.len(), |i: int| answer(skills_dir, paths[i], outcome(i)))
}

/// Refusing paths adds the answers for them.
proof fn lemma_advanced_answers(batch: BatchView, outcome: spec_fn(int) -> ResultView)
    requires
        batch.is_consistent(),
        batch.results == answers(batch.skills_dir, batch.paths, outcome).take(
            batch.results.len() as int,
        ),
    ensures
        batch.advanced().results == answers(batch.skills_dir, batch.paths, outcome).take(
            batch.advanced().results.len() as int,
        ),
{
    advanced_is_ready(batch);
    let next = batch.advanced();
    let all = answers(batch.skills_dir, batch.paths, outcome);
    lemma_refused_run(batch);
    assert forall|i: int| 0 <= i < next.results.len() implies next.results[i] == all[i] by {
        if i < batch.results.len() {
            assert(next.results.take(batch.results.len() as int)[i] == next.results[i]);
            assert(all.take(batch.results.len() as int)[i] == all[i]);
        }
    }
    assert(next.results =~= all.take(next.results.len() as int));
}

/// What refusing adds are refusals.
proof fn lemma_refused_run(batch: BatchView)
    requires
        batch.is_consistent(),
    ensures
        forall|i: int|
            batch.results.len() <= i < batch.advanced().results.len() ==> safe_join(
                batch.skills_dir,
                #[trigger] batch.paths[i],
            ) is Err,
        forall|i: int|
            batch.results.len() <= i < batch.advanced().results.len() ==> (
            #[trigger] batch.advanced().results[i]) == ResultView::failed(
                batch.paths[i],
                safe_join(batch.skills_dir, batch.paths[i])->Err_0.message,
            ),
    decreases batch.paths.len() - batch.results.len(),
{
    advanced_is_ready(batch);
    if !batch.is_complete() && batch.target() is Err {
        let next = batch.answered(
            ResultView::failed(batch.current(), batch.target()->Err_0.message),
        );
        lemma_answered(batch, ResultView::failed(batch.current(), batch.target()->Err_0.message));
        lemma_refused_run(next);
        advanced_is_ready(next);
        let k = batch.results.len() as int;
        assert(next.advanced().results.take(k + 1)[k] == next.results[k]);
    }
}

/// A result for the current path keeps a batch consistent.
proof fn lemma_answered(batch: BatchView, result: ResultView)
    requires
        batch.is_consistent(),
        !batch.is_complete(),
        result.relative_path == batch.current(),
        batch.target() matches Err(error) ==> result == ResultView::failed(
            batch.current(),
            error.message,
        ),
    ensures
        batch.answered(result).is_consistent(),
{
    let next = batch.answered(result);
    assert forall|i: int| 0 <= i < next.results.len() implies {
        &&& (#[trigger] next.results[i]).relative_path == next.paths[i]
        &&& safe_join(next.skills_dir, next.paths[i]) matches Err(error) ==> next.results[i]
            == ResultView::failed(next.paths[i], error.message)
    } by {
        if i < batch.results.len() {
            assert(next.results[i] == batch.results[i]);
        }
    }
}

proof fn lemma_run(batch: BatchView, outcome: spec_fn(int) -> ResultView)
    requires
        batch.is_consistent(),
        batch.results == answers(batch.skills_dir, batch.paths, outcome).take(
            batch.results.len() as int,
        ),
        forall|i: int|
            0 <= i < batch.paths.len() ==> (#[trigger] outcome(i)).relative_path == batch.paths[i],
    ensures
        run(batch, outcome) == answers(batch.skills_dir, batch.paths, outcome),
    decreases batch.paths.len() - batch.results.len(),
{
    let all = answers(batch.skills_dir, batch.paths, outcome);
    let ready = batch.advanced();
    advanced_is_ready(batch);
    lemma_advanced_answers(batch, outcome);
    if ready.is_complete() {
        assert(all.take(all.len() as int) =~= all);
    } else {
        let k = ready.results.len() as int;
        let next = ready.answered(outcome(k));
        lemma_answered(ready, outcome(k));
        assert(next.results =~= all.take(k + 1)) by {
            assert(all.take(k + 1) =~= all.take(k).push(all[k]));
        }
        lemma_run(next, outcome);
    }
}

/// A request answers for every path, once and in the order of the request: one
/// that it may not touch is refused, any other gets what came of acting on it.
/// So one bad path does not keep the others from being dealt with.
pub proof fn run_answers_every_path(
    skills_dir: Seq<char>,
    paths: Seq<Seq<char>>,
    outcome: spec_fn(int) -> ResultView,
)
    requires
        forall|i: int|
            0 <= i < paths.len() ==> (#[trigger] outcome(i)).relative_path == paths[i],
    ensures
        run(fresh(skills_dir, paths), outcome) == answers(skills_dir, paths, outcome),
        run(fresh(skills_dir, paths), outcome).len() == paths.len(),
        forall|i: int|
            0 <= i < paths.len() ==> #[trigger] run(fresh(skills_dir, paths), outcome)[i] == (
            match safe_join(skills_dir, paths[i]) {
                Ok(_) => outcome(i),
                Err(error) => ResultView {
                    relative_path: paths[i],
                    ok: false,
                    skill_id: None,
                    central_path: None,
                    reason: Some(error.message),
                },
            }),
{
    let start = fresh(skills_dir, paths);
    assert(start.results =~= answers(skills_dir, paths, outcome).take(0));
    lemma_run(start, outcome);
}

// ── the batch ───────────────────────────────────────────────────────────

/// The paths of a request with the results so far.
#[derive(Debug)]
struct Batch {
    skills_dir: String,
    paths: Vec<String>,
    results: Vec<PathResult>,
    succeeded: usize,
    failed: usize,
}

impl Batch {
    spec fn model(self) -> BatchView {
        BatchView {
            skills_dir: self.skills_dir@,
            paths: texts(self.paths@),
            results: views(self.results@),
        }
    }

    spec fn is_counted(self) -> bool {
        &&& self.succeeded == count(views(self.results@), true)
        &&& self.failed == count(views(self.results@), false)
        &&& self.results@.len() <= self.paths@.len()
    }

    /// Adds a result.
    fn record(&mut self, result: PathResult)
        requires
            old(self).is_counted(),
            old(self).results@.len() < old(self).paths@.len(),
        ensures
            final(self).is_counted(),
            final(self).model() == old(self).model().answered(result@),
    {
        let ghost before = views(self.results@);
        let total = self.paths.len();
        assert(before.len() < total);
        proof {
            lemma_count_push(before, result@);
            counts_add_up(before);
        }
        if result.ok {
            self.succeeded = self.succeeded + 1;
        } else {
            self.failed = self.failed + 1;
        }
        let ghost view = result@;
        self.results.push(result);
        assert(views(self.results@) =~= before.push(view));
    }

    /// Refuses paths up to the first that the request may touch, and gives where
    /// that one leads.
    fn advance(&mut self) -> (target: Option<String>)
        requires
            old(self).is_counted(),
            old(self).model().is_consistent(),
        ensures
            final(self).is_counted(),
            final(self).model() == old(self).model().advanced(),
            final(self).model().is_consistent(),
            match target {
                Some(path) => final(self).model().is_waiting() && final(self).model().target()
                    == Ok::<Seq<char>, ErrorView>(path@),
                None => final(self).model().is_complete(),
            },
    {
        let ghost start = self.model();
        while self.results.len() < self.paths.len()
            invariant
                self.is_counted(),
                self.model().is_consistent(),
                start == old(self).model(),
                self.model().advanced() == start.advanced(),
            decreases self.paths@.len() - self.results@.len(),
        {
            let ghost here = self.model();
            let current = self.paths[self.results.len()].clone();
            assert(here.current() == current@);
            match safe_join_local(self.skills_dir.as_str(), current.as_str()) {
                Ok(path) => {
                    return Some(path);
                },
                Err(error) => {
                    proof {
                        lemma_answered(here, ResultView::failed(current@, error.message@));
                    }
                    self.record(
                        PathResult {
                            relative_path: current,
                            ok: false,
                            skill_id: None,
                            central_path: None,
                            reason: Some(error.message),
                        },
                    );
                },
            }
        }
        None
    }

    /// The response once all paths are answered for.
    fn finish(self) -> (response: AgentMutateResponse)
        requires
            self.is_counted(),
        ensures
            response@ == report(self.model().results),
    {
        AgentMutateResponse {
            results: self.results,
            succeeded: self.succeeded,
            failed: self.failed,
        }
    }

    /// The batch at its beginning.
    fn start(skills_dir: String, paths: Vec<String>) -> (batch: Batch)
        ensures
            batch.is_counted(),
            batch.model() == fresh(skills_dir@, texts(paths@)),
    {
        let batch = Batch { skills_dir, paths, results: Vec::new(), succeeded: 0, failed: 0 };
        proof {
            assert(views(batch.results@) =~= seq![]);
            counts_add_up(views(batch.results@));
        }
        batch
    }
}

/// How a batch goes on, as contracts see it.
pub enum StepView {
    Work(BatchView),
    Done(MutateView),
}

/// How a batch goes on: with the next path that the request may touch, or with
/// the response.
pub open spec fn next_step(batch: BatchView) -> StepView {
    let ready = batch.advanced();
    if ready.is_complete() {
        StepView::Done(report(ready.results))
    } else {
        StepView::Work(ready)
    }
}

/// The results of a request come from taking the steps of its batch to the end.
pub proof fn run_takes_steps(batch: BatchView, outcome: spec_fn(int) -> ResultView)
    requires
        batch.is_consistent(),
    ensures
        run(batch, outcome) == (match next_step(batch) {
            StepView::Done(response) => response.results,
            StepView::Work(ready) => run(
                ready.answered(outcome(ready.results.len() as int)),
                outcome,
            ),
        }),
{
}

/// What is reported of a request answers for every path, and what it counts as
/// done and as failed makes up the number of paths.
pub proof fn report_accounts_for_every_path(
    skills_dir: Seq<char>,
    paths: Seq<Seq<char>>,
    outcome: spec_fn(int) -> ResultView,
)
    requires
        forall|i: int|
            0 <= i < paths.len() ==> (#[trigger] outcome(i)).relative_path == paths[i],
    ensures
        ({
            let response = report(run(fresh(skills_dir, paths), outcome));
            &&& response.results.len() == paths.len()
            &&& response.succeeded + response.failed == paths.len()
            &&& forall|i: int|
                0 <= i < paths.len() ==> (#[trigger] response.results[i]).relative_path
                    == paths[i]
        }),
{
    run_answers_every_path(skills_dir, paths, outcome);
    counts_add_up(run(fresh(skills_dir, paths), outcome));
}

// ── import and delete ───────────────────────────────────────────────────

/// A path that the request may touch, with the batch that waits for what comes
/// of it.
#[derive(Debug)]
pub struct BatchItem {
    batch: Batch,
    local_path: String,
}

impl View for BatchItem {
    type V = BatchView;

    closed spec fn view(&self) -> BatchView {
        self.batch.model()
    }
}

/// How a batch goes on.
#[derive(Debug)]
pub enum BatchStep {
    /// There is a path to act on.
    Work(BatchItem),
    /// All paths are answered for.
    Done(AgentMutateResponse),
}

impl View for BatchStep {
    type V = StepView;

    open spec fn view(&self) -> StepView {
        match self {
            BatchStep::Work(item) => StepView::Work(item@),
            BatchStep::Done(response) => StepView::Done(response@),
        }
    }
}

impl BatchItem {
    #[verifier::type_invariant]
    spec fn is_ready(self) -> bool {
        &&& self.batch.is_counted()
        &&& self.batch.model().is_waiting()
        &&& self.batch.model().target() == Ok::<Seq<char>, ErrorView>(self.local_path@)
    }

    fn step(batch: Batch) -> (step: BatchStep)
        requires
            batch.is_counted(),
            batch.model().is_consistent(),
        ensures
            step@ == next_step(batch.model()),
    {
        let mut batch = batch;
        match batch.advance() {
            Some(local_path) => BatchStep::Work(BatchItem { batch, local_path }),
            None => BatchStep::Done(batch.finish()),
        }
    }

    /// The path to act on. It lies inside the agent's directory.
    pub fn local_path(&self) -> (path: &str)
        ensures
            self@.is_waiting(),
            self@.target() == Ok::<Seq<char>, ErrorView>(path@),
            starts_with(path@, self@.skills_dir),
            self@.results.len() < self@.paths.len(),
            safe_join(self@.skills_dir, self@.paths[self@.results.len() as int]) == Ok::<
                Seq<char>,
                ErrorView,
            >(path@),
    {
        proof {
            use_type_invariant(self);
            crate::path::join_appends(self@.skills_dir, self@.current());
        }
        self.local_path.as_str()
    }

    /// The path as the request gives it.
    fn relative_path(&self) -> (path: &str)
        ensures
            path@ == self@.current(),
    {
        proof {
            use_type_invariant(self);
        }
        self.batch.paths[self.batch.results.len()].as_str()
    }

    /// Where a skill imported from the path came from.
    pub fn import_source(&self) -> (metadata: InstallSourceMetadata)
        ensures
            self@.target() matches Ok(path) && metadata.is_local("import"@, path),
            metadata.source_type@ == "import"@,
            metadata.source_ref matches Some(source) && safe_join(
                self@.skills_dir,
                self@.paths[self@.results.len() as int],
            ) == Ok::<Seq<char>, ErrorView>(source@),
            metadata.source_ref_resolved is None,
            metadata.source_subpath is None,
            metadata.source_branch is None,
            metadata.source_revision is None,
            metadata.remote_revision is None,
            metadata.update_status@ == "local_only"@,
    {
        proof {
            use_type_invariant(self);
        }
        InstallSourceMetadata::local("import", self.local_path.as_str())
    }

    /// The skill to import from the path. It keeps the name that it has there.
    pub fn import_order(&self) -> (order: InstallOrder)
        ensures
            self@.target() matches Ok(path) && order.source_path@ == path && order.name is None
                && order.metadata.is_local("import"@, path),
            safe_join(self@.skills_dir, self@.paths[self@.results.len() as int]) == Ok::<
                Seq<char>,
                ErrorView,
            >(order.source_path@),
            order.metadata.source_type@ == "import"@,
            order.metadata.source_ref matches Some(source) && source@ == order.source_path@,
            order.metadata.update_status@ == "local_only"@,
    {
        proof {
            use_type_invariant(self);
        }
        InstallOrder {
            source_path: self.local_path.clone(),
            name: None,
            metadata: self.import_source(),
        }
    }

    /// How the batch goes on once the path was imported with this outcome.
    pub fn imported(self, outcome: InstallOutcome) -> (step: BatchStep)
        ensures
            step@ == next_step(self@.answered(import_result(self@.current(), outcome))),
    {
        proof {
            use_type_invariant(&self);
        }
        let ghost before = self@;
        let ghost view = import_result(before.current(), outcome);
        let mut batch = self.batch;
        let relative_path = batch.paths[batch.results.len()].clone();
        let result = match installed(outcome) {
            Ok(response) => PathResult {
                relative_path,
                ok: true,
                skill_id: Some(response.skill_id),
                central_path: Some(response.central_path),
                reason: None,
            },
            Err(error) => PathResult {
                relative_path,
                ok: false,
                skill_id: None,
                central_path: None,
                reason: Some(error.message),
            },
        };
        assert(result@ == view);
        proof {
            lemma_answered(before, view);
        }
        batch.record(result);
        BatchItem::step(batch)
    }

    /// How the batch goes on once the path was dealt with.
    fn dealt_with(self, outcome: Result<(), String>) -> (step: BatchStep)
        ensures
            step@ == next_step(self@.answered(plain_result(self@.current(), outcome))),
    {
        proof {
            use_type_invariant(&self);
        }
        let ghost before = self@;
        let mut batch = self.batch;
        let result = plain(batch.paths[batch.results.len()].clone(), outcome);
        proof {
            lemma_answered(before, result@);
        }
        batch.record(result);
        BatchItem::step(batch)
    }

    /// How the batch goes on once the path was deleted with this outcome.
    pub fn deleted(self, outcome: Result<(), String>) -> (step: BatchStep)
        ensures
            step@ == next_step(self@.answered(plain_result(self@.current(), outcome))),
    {
        self.dealt_with(outcome)
    }
}

/// What a batch reports of an import.
pub open spec fn import_result(relative_path: Seq<char>, outcome: InstallOutcome) -> ResultView {
    match outcome {
        InstallOutcome::Installed { skill_id, name, central_path } => ResultView {
            relative_path,
            ok: true,
            skill_id: Some(skill_id@),
            central_path: Some(central_path@),
            reason: None,
        },
        _ => ResultView::failed(relative_path, outcome.failure()->0.message),
    }
}

/// What a batch reports of an action that either works or gives a reason.
pub open spec fn plain_result(relative_path: Seq<char>, outcome: Result<(), String>) -> ResultView {
    match outcome {
        Ok(()) => ResultView::done(relative_path),
        Err(reason) => ResultView::failed(relative_path, reason@),
    }
}

fn plain(relative_path: String, outcome: Result<(), String>) -> (result: PathResult)
    ensures
        result@ == plain_result(relative_path@, outcome),
{
    match outcome {
        Ok(()) => PathResult {
            relative_path,
            ok: true,
            skill_id: None,
            central_path: None,
            reason: None,
        },
        Err(reason) => PathResult {
            relative_path,
            ok: false,
            skill_id: None,
            central_path: None,
            reason: Some(reason),
        },
    }
}

/// How a request for some entries of an agent's directory begins.
pub open spec fn first_step(
    agent_key: Seq<char>,
    body: AgentPathBody,
    found: Option<ToolAdapter>,
) -> Result<StepView, ErrorView> {
    if body.paths().len() == 0 {
        Err(ErrorView::invalid_input("relative_path or relative_paths required"@))
    } else {
        match found {
            None => Err(ErrorView::not_found("unknown agent: "@ + agent_key)),
            Some(adapter) => Ok(next_step(fresh(adapter.skills_dir@, texts(body.paths())))),
        }
    }
}

/// Begins a batch for the paths of the request.
fn begin(agent_key: &str, body: &AgentPathBody, found: Option<ToolAdapter>) -> (result: Result<
    BatchStep,
    AppError,
>)
    ensures
        seen(result) == first_step(agent_key@, *body, found),
{
    let paths = match extract_paths(body) {
        Err(error) => {
            return Err(error);
        },
        Ok(paths) => paths,
    };
    match resolve_agent(found, agent_key) {
        Err(error) => Err(error),
        Ok(adapter) => Ok(BatchItem::step(Batch::start(adapter.skills_dir, paths))),
    }
}

/// `POST /api/agents/{key}/local-skills/import`: the first path to import, given
/// what the tools answered when they were asked for the agent.
pub fn import_agent_local_skills(
    agent_key: &str,
    body: &AgentPathBody,
    found: Option<ToolAdapter>,
) -> (result: Result<BatchStep, AppError>)
    ensures
        seen(result) == first_step(agent_key@, *body, found),
{
    begin(agent_key, body, found)
}

/// `POST /api/agents/{key}/local-skills/delete`: the first path to delete, given
/// what the tools answered when they were asked for the agent.
pub fn delete_agent_local_skills(
    agent_key: &str,
    body: &AgentPathBody,
    found: Option<ToolAdapter>,
) -> (result: Result<BatchStep, AppError>)
    ensures
        seen(result) == first_step(agent_key@, *body, found),
{
    begin(agent_key, body, found)
}

// ── update ──────────────────────────────────────────────────────────────

/// A request to bring entries of an agent's directory up to date with the
/// central library.
#[derive(Debug)]
pub struct UpdateBody {
    pub relative_paths: Vec<String>,
    pub force: bool,
}

/// What may become of an entry that is in the way of an update.
#[derive(Clone, Copy, Debug, PartialEq, Eq, Structural)]
pub enum ReplacePolicy {
    /// The user agreed to its replacement.
    UserConfirmed,
    /// It stays.
    NoClobber,
}

/// Whether `skill` is what the entry `relative` is brought up to date with: by
/// its name, or the last name of its central path.
pub open spec fn updates(skill: SkillRecord, relative: Seq<char>) -> bool {
    skill.name@ == relative || last_name(skill.central_path@) == Some(relative)
}

/// The first of `skills` that the entry `relative` is brought up to date with.
pub open spec fn first_update(skills: Seq<SkillRecord>, relative: Seq<char>) -> Option<SkillRecord>
    decreases skills.len(),
{
    if skills.len() == 0 {
        None
    } else if updates(skills[0], relative) {
        Some(skills[0])
    } else {
        first_update(skills.skip(1), relative)
    }
}

fn find_update(skills: &Vec<SkillRecord>, relative: &str) -> (found: Option<SkillRecord>)
    ensures
        found == first_update(skills@, relative@),
{
    assert(skills@.skip(0) =~= skills@);
    for i in 0..skills.len()
        invariant
            first_update(skills@, relative@) == first_update(skills@.skip(i as int), relative@),
    {
        let skill = &skills[i];
        let fits = if same(skill.name.as_str(), relative) {
            true
        } else {
            match file_name(skill.central_path.as_str()) {
                Some(name) => same(name.as_str(), relative),
                None => false,
            }
        };
        if fits {
            return Some(skill.clone());
        }
        assert(skills@.skip(i as int).skip(1) =~= skills@.skip(i + 1));
    }
    None
}

/// An update as contracts see it.
#[verifier::ext_equal]
pub struct UpdateView {
    pub batch: BatchView,
    pub force: bool,
}

/// How an update goes on, as contracts see it.
pub enum UpdateStepView {
    ReadSkills(UpdateView),
    Sync { update: UpdateView, source: Seq<char> },
    Done(Result<MutateView, ErrorView>),
}

/// How an update goes on with the next path.
pub open spec fn next_update(batch: BatchView, force: bool) -> UpdateStepView {
    match next_step(batch) {
        StepView::Work(batch) => UpdateStepView::ReadSkills(UpdateView { batch, force }),
        StepView::Done(response) => UpdateStepView::Done(Ok(response)),
    }
}

/// How an update goes on once the skills of the central library are known: with
/// the skill to copy, or with a failure where there is none for the path.
pub open spec fn skills_step(update: UpdateView, skills: Seq<SkillRecord>) -> UpdateStepView {
    match first_update(skills, update.batch.current()) {
        Some(skill) => UpdateStepView::Sync { update, source: skill.central_path@ },
        None => next_update(
            update.batch.answered(
                ResultView::failed(
                    update.batch.current(),
                    "skill not in central library; import first"@,
                ),
            ),
            update.force,
        ),
    }
}

/// How an update goes on once the skill was copied.
pub open spec fn synced_step(update: UpdateView, outcome: Result<(), String>) -> UpdateStepView {
    next_update(
        update.batch.answered(plain_result(update.batch.current(), outcome)),
        update.force,
    )
}

/// A path to bring up to date, once the central library is known.
#[derive(Debug)]
pub struct UpdateItem {
    item: BatchItem,
    force: bool,
}

/// A path to bring up to date from a skill of the central library.
#[derive(Debug)]
pub struct SyncItem {
    item: BatchItem,
    force: bool,
    source: String,
}

/// How an update goes on.
#[derive(Debug)]
pub enum UpdateStep {
    /// The skills of the central library are needed.
    ReadSkills(UpdateItem),
    /// There is an entry to copy a skill to.
    Sync(SyncItem),
    /// All paths are answered for, or the store failed.
    Done(Result<AgentMutateResponse, AppError>),
}

impl View for UpdateItem {
    type V = UpdateView;

    closed spec fn view(&self) -> UpdateView {
        UpdateView { batch: self.item@, force: self.force }
    }
}

impl View for SyncItem {
    type V = UpdateView;

    closed spec fn view(&self) -> UpdateView {
        UpdateView { batch: self.item@, force: self.force }
    }
}

impl SyncItem {
    /// The path of the skill in the central library.
    pub closed spec fn source_path(self) -> Seq<char> {
        self.source@
    }
}

impl View for UpdateStep {
    type V = UpdateStepView;

    open spec fn view(&self) -> UpdateStepView {
        match self {
            UpdateStep::ReadSkills(item) => UpdateStepView::ReadSkills(item@),
            UpdateStep::Sync(item) => UpdateStepView::Sync {
                update: item@,
                source: item.source_path(),
            },
            UpdateStep::Done(result) => UpdateStepView::Done(seen(*result)),
        }
    }
}

fn update_step(step: BatchStep, force: bool) -> (next: UpdateStep)
    ensures
        next@ == (match step@ {
            StepView::Work(batch) => UpdateStepView::ReadSkills(UpdateView { batch, force }),
            StepView::Done(response) => UpdateStepView::Done(Ok(response)),
        }),
{
    match step {
        BatchStep::Work(item) => UpdateStep::ReadSkills(UpdateItem { item, force }),
        BatchStep::Done(response) => UpdateStep::Done(Ok(response)),
    }
}

impl UpdateItem {
    /// How the update goes on, given what the store answered when it was asked
    /// for all skills. A store that does not answer ends the request.
    pub fn with_skills(self, skills: &Result<Vec<SkillRecord>, String>) -> (step: UpdateStep)
        ensures
            step@ == (match *skills {
                Err(reason) => UpdateStepView::Done(Err(ErrorView::db(reason@))),
                Ok(all) => skills_step(self@, all@),
            }),
            match (step, *skills) {
                (UpdateStep::Sync(item), Ok(all)) => {
                    let relative = self@.batch.paths[self@.batch.results.len() as int];
                    &&& item@ == self@
                    &&& exists|i: int|
                        0 <= i < all@.len() && (#[trigger] all@[i]).central_path@
                            == item.source_path() && (all@[i].name@ == relative || last_name(
                            all@[i].central_path@,
                        ) == Some(relative)) && forall|j: int|
                            0 <= j < i ==> (#[trigger] all@[j]).name@ != relative && last_name(
                                all@[j].central_path@,
                            ) != Some(relative)
                },
                (UpdateStep::Sync(_), Err(_)) => false,
                (_, Ok(all)) => {
                    let relative = self@.batch.paths[self@.batch.results.len() as int];
                    forall|j: int|
                        0 <= j < all@.len() ==> (#[trigger] all@[j]).name@ != relative
                            && last_name(all@[j].central_path@) != Some(relative)
                },
                (UpdateStep::Done(result), Err(reason)) => result matches Err(error) && error.kind
                    == ErrorKind::Database && error.message@ == reason@,
                (UpdateStep::ReadSkills(_), Err(_)) => false,
            },
    {
        let all = match skills {
            Err(reason) => {
                return UpdateStep::Done(Err(AppError::db(reason.as_str())));
            },
            Ok(all) => all,
        };
        proof {
            update_copies_what_fits(self@, all@);
        }
        let found = find_update(all, self.item.relative_path());
        match found {
            Some(skill) => UpdateStep::Sync(
                SyncItem { item: self.item, force: self.force, source: skill.central_path },
            ),
            None => update_step(
                self.item.dealt_with(Err("skill not in central library; import first".to_owned())),
                self.force,
            ),
        }
    }
}

impl SyncItem {
    /// The path of the skill in the central library.
    pub fn source(&self) -> (path: &str)
        ensures
            path@ == self.source_path(),
    {
        self.source.as_str()
    }

    /// The entry to copy the skill to. It lies inside the agent's directory.
    pub fn local_path(&self) -> (path: &str)
        ensures
            self@.batch.is_waiting(),
            self@.batch.target() == Ok::<Seq<char>, ErrorView>(path@),
            starts_with(path@, self@.batch.skills_dir),
            self@.batch.results.len() < self@.batch.paths.len(),
            safe_join(
                self@.batch.skills_dir,
                self@.batch.paths[self@.batch.results.len() as int],
            ) == Ok::<Seq<char>, ErrorView>(path@),
    {
        self.item.local_path()
    }

    /// What may become of the entry: it is replaced only where the request
    /// insists.
    pub fn policy(&self) -> (policy: ReplacePolicy)
        ensures
            policy == (if self@.force {
                ReplacePolicy::UserConfirmed
            } else {
                ReplacePolicy::NoClobber
            }),
    {
        if self.force {
            ReplacePolicy::UserConfirmed
        } else {
            ReplacePolicy::NoClobber
        }
    }

    /// How the update goes on once the skill was copied with this outcome.
    pub fn synced(self, outcome: Result<(), String>) -> (step: UpdateStep)
        ensures
            step@ == synced_step(self@, outcome),
    {
        update_step(self.item.dealt_with(outcome), self.force)
    }
}

/// `POST /api/agents/{key}/local-skills/update`: how the update begins, given
/// what the tools answered when they were asked for the agent.
pub fn update_agent_local_skills(
    agent_key: &str,
    body: &UpdateBody,
    found: Option<ToolAdapter>,
) -> (result: Result<UpdateStep, AppError>)
    ensures
        seen(result) == (if body.relative_paths@.len() == 0 {
            Err(ErrorView::invalid_input("relative_paths required"@))
        } else {
            match found {
                None => Err(ErrorView::not_found("unknown agent: "@ + agent_key@)),
                Some(adapter) => Ok(
                    next_update(
                        fresh(adapter.skills_dir@, texts(body.relative_paths@)),
                        body.force,
                    ),
                ),
            }
        }),
{
    if body.relative_paths.len() == 0 {
        return Err(AppError::invalid_input("relative_paths required"));
    }
    match resolve_agent(found, agent_key) {
        Err(error) => Err(error),
        Ok(adapter) => {
            let batch = Batch::start(adapter.skills_dir, copied(&body.relative_paths));
            Ok(update_step(BatchItem::step(batch), body.force))
        },
    }
}

/// What an update reports of an entry, given the skills of the central library
/// and what comes of copying one there.
pub open spec fn update_result(
    relative_path: Seq<char>,
    skills: Seq<SkillRecord>,
    outcome: Result<(), String>,
) -> ResultView {
    match first_update(skills, relative_path) {
        Some(_) => plain_result(relative_path, outcome),
        None => ResultView::failed(
            relative_path,
            "skill not in central library; import first"@,
        ),
    }
}

/// From one path to the next: reading the skills and, where one fits, copying it
/// answers for the path, and for that path alone.
pub proof fn update_takes_steps(
    update: UpdateView,
    skills: Seq<SkillRecord>,
    outcome: Result<(), String>,
)
    ensures
        ({
            let answered = update.batch.answered(
                update_result(update.batch.current(), skills, outcome),
            );
            match first_update(skills, update.batch.current()) {
                Some(skill) => skills_step(update, skills) == (UpdateStepView::Sync {
                    update,
                    source: skill.central_path@,
                }) && synced_step(update, outcome) == next_update(answered, update.force),
                None => skills_step(update, skills) == next_update(answered, update.force),
            }
        }),
{
}

/// How far an update is from its end.
pub open spec fn steps_left(step: UpdateStepView) -> int {
    match step {
        UpdateStepView::ReadSkills(update) => 2 * (update.batch.paths.len()
            - update.batch.results.len()) + 1,
        UpdateStepView::Sync { update, .. } => 2 * (update.batch.paths.len()
            - update.batch.results.len()),
        UpdateStepView::Done(_) => 0,
    }
}

/// The response to an update whose steps are taken to the end, where `skills`
/// gives the skills that the store holds, and `copy` what comes of copying, when
/// it is each path's turn.
pub open spec fn update_run(
    step: UpdateStepView,
    skills: spec_fn(int) -> Seq<SkillRecord>,
    copy: spec_fn(int) -> Result<(), String>,
) -> Option<Result<MutateView, ErrorView>>
    decreases steps_left(step),
    via update_run_decreases
{
    match step {
        UpdateStepView::Done(result) => Some(result),
        UpdateStepView::ReadSkills(update) => if update.batch.is_waiting() {
            update_run(
                skills_step(update, skills(update.batch.results.len() as int)),
                skills,
                copy,
            )
        } else {
            None
        },
        UpdateStepView::Sync { update, source } => if update.batch.is_waiting() {
            update_run(
                synced_step(update, copy(update.batch.results.len() as int)),
                skills,
                copy,
            )
        } else {
            None
        },
    }
}

#[via_fn]
proof fn update_run_decreases(
    step: UpdateStepView,
    skills: spec_fn(int) -> Seq<SkillRecord>,
    copy: spec_fn(int) -> Result<(), String>,
) {
    match step {
        UpdateStepView::Done(_) => {},
        UpdateStepView::ReadSkills(update) => {
            if update.batch.is_waiting() {
                let failure = ResultView::failed(
                    update.batch.current(),
                    "skill not in central library; import first"@,
                );
                lemma_answered(update.batch, failure);
                advanced_is_ready(update.batch.answered(failure));
            }
        },
        UpdateStepView::Sync { update, source } => {
            if update.batch.is_waiting() {
                let result = plain_result(
                    update.batch.current(),
                    copy(update.batch.results.len() as int),
                );
                lemma_answered(update.batch, result);
                advanced_is_ready(update.batch.answered(result));
            }
        },
    }
}

/// What an update makes of each path.
pub open spec fn update_results(
    paths: Seq<Seq<char>>,
    skills: spec_fn(int) -> Seq<SkillRecord>,
    copy: spec_fn(int) -> Result<(), String>,
) -> spec_fn(int) -> ResultView {
    |i: int| update_result(paths[i], skills(i), copy(i))
}

/// Taking the steps of an update is running its batch.
proof fn lemma_update_run(
    batch: BatchView,
    force: bool,
    skills: spec_fn(int) -> Seq<SkillRecord>,
    copy: spec_fn(int) -> Result<(), String>,
)
    requires
        batch.is_consistent(),
    ensures
        update_run(next_update(batch, force), skills, copy) == Some(
            Ok::<MutateView, ErrorView>(
                report(run(batch, update_results(batch.paths, skills, copy))),
            ),
        ),
    decreases batch.paths.len() - batch.results.len(),
{
    let outcome = update_results(batch.paths, skills, copy);
    let ready = batch.advanced();
    advanced_is_ready(batch);
    if !ready.is_complete() {
        let k = ready.results.len() as int;
        let update = UpdateView { batch: ready, force };
        let next = ready.answered(outcome(k));
        update_takes_steps(update, skills(k), copy(k));
        lemma_answered(ready, outcome(k));
        lemma_update_run(next, force, skills, copy);
        reveal_with_fuel(update_run, 3);
    }
}

/// An update that the store answers every time reports, for every path, once and
/// in the order of the request, the refusal, that there is nothing to update it
/// from, or what came of the copy.
pub proof fn update_answers_every_path(
    skills_dir: Seq<char>,
    paths: Seq<Seq<char>>,
    force: bool,
    skills: spec_fn(int) -> Seq<SkillRecord>,
    copy: spec_fn(int) -> Result<(), String>,
)
    ensures
        update_run(next_update(fresh(skills_dir, paths), force), skills, copy) == Some(
            Ok::<MutateView, ErrorView>(
                report(answers(skills_dir, paths, update_results(paths, skills, copy))),
            ),
        ),
{
    lemma_update_run(fresh(skills_dir, paths), force, skills, copy);
    run_answers_every_path(skills_dir, paths, update_results(paths, skills, copy));
}

// ── what the steps do, one by one ───────────────────────────────────────

/// A batch begins with the directory, the paths of the request in their order, and
/// no results. A result goes behind those before it, and the path that is answered
/// for next is the one that has no result yet.
pub proof fn batches_go_path_by_path(
    skills_dir: Seq<char>,
    paths: Seq<Seq<char>>,
    batch: BatchView,
    result: ResultView,
)
    ensures
        fresh(skills_dir, paths).skills_dir == skills_dir,
        fresh(skills_dir, paths).paths == paths,
        fresh(skills_dir, paths).results.len() == 0,
        batch.answered(result).skills_dir == batch.skills_dir,
        batch.answered(result).paths == batch.paths,
        batch.answered(result).results == batch.results + seq![result],
        batch.current() == batch.paths[batch.results.len() as int],
        batch.target() == safe_join(
            batch.skills_dir,
            batch.paths[batch.results.len() as int],
        ),
{
    assert(batch.results.push(result) =~= batch.results + seq![result]);
}

/// From the results so far a batch goes to the first path behind them that the
/// request may touch, and answers for those between with the reason of the refusal;
/// where none is left to touch, what is reported are all results, with the number
/// of those that are ok and of those that are not.
pub proof fn next_step_one_by_one(batch: BatchView)
    requires
        batch.results.len() <= batch.paths.len(),
    ensures
        match next_step(batch) {
            StepView::Work(ready) => {
                &&& ready.skills_dir == batch.skills_dir
                &&& ready.paths == batch.paths
                &&& batch.results.len() <= ready.results.len() < batch.paths.len()
                &&& safe_join(
                    batch.skills_dir,
                    batch.paths[ready.results.len() as int],
                ) is Ok
                &&& forall|i: int|
                    0 <= i < batch.results.len() ==> #[trigger] ready.results[i] == batch.results[i]
                &&& forall|i: int|
                    batch.results.len() <= i < ready.results.len() ==> ({
                        &&& safe_join(batch.skills_dir, batch.paths[i]) is Err
                        &&& (#[trigger] ready.results[i]).relative_path == batch.paths[i]
                        &&& !ready.results[i].ok
                        &&& ready.results[i].skill_id is None
                        &&& ready.results[i].central_path is None
                        &&& ready.results[i].reason == Some(
                            safe_join(batch.skills_dir, batch.paths[i])->Err_0.message,
                        )
                    })
            },
            StepView::Done(response) => {
                &&& response.results.len() == batch.paths.len()
                &&& response.succeeded == response.results.filter(|r: ResultView| r.ok).len()
                &&& response.failed == response.results.filter(|r: ResultView| !r.ok).len()
                &&& forall|i: int|
                    0 <= i < batch.results.len() ==> #[trigger] response.results[i] == batch.results[i]
                &&& forall|i: int|
                    batch.results.len() <= i < batch.paths.len() ==> ({
                        &&& safe_join(batch.skills_dir, batch.paths[i]) is Err
                        &&& (#[trigger] response.results[i]).relative_path == batch.paths[i]
                        &&& !response.results[i].ok
                        &&& response.results[i].skill_id is None
                        &&& response.results[i].central_path is None
                        &&& response.results[i].reason == Some(
                            safe_join(batch.skills_dir, batch.paths[i])->Err_0.message,
                        )
                    })
            },
        },
    decreases batch.paths.len() - batch.results.len(),
{
    if !batch.is_complete() && batch.target() is Err {
        let refusal = ResultView::failed(batch.current(), batch.target()->Err_0.message);
        let next = batch.answered(refusal);
        next_step_one_by_one(next);
        assert(next_step(batch) == next_step(next));
        let k = batch.results.len() as int;
        assert(next.results[k] == refusal);
        assert forall|i: int| 0 <= i < k implies #[trigger] next.results[i]
            == batch.results[i] by {}
        match next_step(batch) {
            StepView::Work(ready) => {
                assert(ready.results[k] == next.results[k]);
                assert forall|i: int| 0 <= i < k implies #[trigger] ready.results[i]
                    == batch.results[i] by {
                    assert(ready.results[i] == next.results[i]);
                }
            },
            StepView::Done(response) => {
                assert(response.results[k] == next.results[k]);
                assert forall|i: int| 0 <= i < k implies #[trigger] response.results[i]
                    == batch.results[i] by {
                    assert(response.results[i] == next.results[i]);
                }
            },
        }
    } else {
        report_counts(batch.results);
    }
}

/// What is reported are the results as they are, with the number of those that are
/// ok as succeeded and of those that are not as failed.
pub proof fn report_counts(results: Seq<ResultView>)
    ensures
        report(results).results == results,
        report(results).succeeded == results.filter(|r: ResultView| r.ok).len(),
        report(results).failed == results.filter(|r: ResultView| !r.ok).len(),
    decreases results.len(),
{
    reveal(Seq::filter);
    if results.len() > 0 {
        report_counts(results.drop_last());
    }
}

/// What is reported of one path: its own text, whether it worked, the skill and
/// where it lies only for an import that worked, and the reason only for what did
/// not work.
pub proof fn results_tell_what_came_of_it(
    relative_path: Seq<char>,
    outcome: InstallOutcome,
    plain: Result<(), String>,
)
    ensures
        import_result(relative_path, outcome) == (match outcome {
            InstallOutcome::Installed { skill_id, name, central_path } => ResultView {
                relative_path,
                ok: true,
                skill_id: Some(skill_id@),
                central_path: Some(central_path@),
                reason: None,
            },
            InstallOutcome::LockFailed(reason) => ResultView {
                relative_path,
                ok: false,
                skill_id: None,
                central_path: None,
                reason: Some(reason@),
            },
            InstallOutcome::CopyFailed(reason) => ResultView {
                relative_path,
                ok: false,
                skill_id: None,
                central_path: None,
                reason: Some(reason@),
            },
            InstallOutcome::StoreFailed(error) => ResultView {
                relative_path,
                ok: false,
                skill_id: None,
                central_path: None,
                reason: Some(error.message@),
            },
        }),
        plain_result(relative_path, plain) == (ResultView {
            relative_path,
            ok: plain is Ok,
            skill_id: None,
            central_path: None,
            reason: match plain {
                Ok(()) => None,
                Err(reason) => Some(reason@),
            },
        }),
{
}

/// An import or a deletion is refused without paths and then for an unknown agent;
/// else it begins with all paths of the request in the directory of the agent.
pub proof fn requests_begin_with_all_paths(
    agent_key: Seq<char>,
    body: AgentPathBody,
    found: Option<ToolAdapter>,
)
    ensures
        body.paths().len() == 0 ==> first_step(agent_key, body, found) == Err::<
            StepView,
            ErrorView,
        >(
            ErrorView {
                kind: ErrorKind::InvalidInput,
                message: "relative_path or relative_paths required"@,
            },
        ),
        body.paths().len() > 0 && found is None ==> first_step(agent_key, body, found) == Err::<
            StepView,
            ErrorView,
        >(ErrorView { kind: ErrorKind::NotFound, message: "unknown agent: "@ + agent_key }),
        body.paths().len() > 0 && found is Some ==> first_step(agent_key, body, found) == Ok::<
            StepView,
            ErrorView,
        >(
            next_step(
                BatchView {
                    skills_dir: found->0.skills_dir@,
                    paths: body.paths().map_values(|path: String| path@),
                    results: seq![],
                },
            ),
        ),
{
}

/// An update goes from path to path as every batch does, and keeps to the end
/// whether the request insists.
pub proof fn updates_go_as_batches_do(batch: BatchView, force: bool)
    ensures
        match (next_step(batch), next_update(batch, force)) {
            (StepView::Work(ready), UpdateStepView::ReadSkills(update)) => update.batch == ready
                && update.force == force,
            (StepView::Done(response), UpdateStepView::Done(result)) => result == Ok::<
                MutateView,
                ErrorView,
            >(response),
            _ => false,
        },
{
}

/// An entry is brought up to date from the first skill of the store whose name, or
/// the last name of whose central path, is the very path that the request gives,
/// and from no other; where no skill has that text for one of the two, the path is
/// answered for with that reason and nothing is copied.
pub proof fn update_copies_what_fits(update: UpdateView, skills: Seq<SkillRecord>)
    ensures
        ({
            let relative = update.batch.paths[update.batch.results.len() as int];
            match skills_step(update, skills) {
                UpdateStepView::Sync { update: same_update, source } => {
                    &&& same_update == update
                    &&& exists|i: int|
                        0 <= i < skills.len() && (#[trigger] skills[i]).central_path@ == source && (
                        skills[i].name@ == relative || last_name(skills[i].central_path@) == Some(
                            relative,
                        )) && forall|j: int|
                            0 <= j < i ==> (#[trigger] skills[j]).name@ != relative && last_name(
                                skills[j].central_path@,
                            ) != Some(relative)
                },
                step => {
                    &&& forall|j: int|
                        0 <= j < skills.len() ==> (#[trigger] skills[j]).name@ != relative
                            && last_name(skills[j].central_path@) != Some(relative)
                    &&& step == next_update(
                        BatchView {
                            skills_dir: update.batch.skills_dir,
                            paths: update.batch.paths,
                            results: update.batch.results.push(
                                ResultView {
                                    relative_path: relative,
                                    ok: false,
                                    skill_id: None,
                                    central_path: None,
                                    reason: Some("skill not in central library; import first"@),
                                },
                            ),
                        },
                        update.force,
                    )
                },
            }
        }),
{
    let relative = update.batch.paths[update.batch.results.len() as int];
    lemma_first_update(skills, relative);
}

/// What an entry is brought up to date from is the first that fits.
proof fn lemma_first_update(skills: Seq<SkillRecord>, relative: Seq<char>)
    ensures
        match first_update(skills, relative) {
            Some(skill) => exists|i: int|
                0 <= i < skills.len() && #[trigger] skills[i] == skill && (skill.name@ == relative
                    || last_name(skill.central_path@) == Some(relative)) && forall|j: int|
                    0 <= j < i ==> (#[trigger] skills[j]).name@ != relative && last_name(
                        skills[j].central_path@,
                    ) != Some(relative),
            None => forall|j: int|
                0 <= j < skills.len() ==> (#[trigger] skills[j]).name@ != relative && last_name(
                    skills[j].central_path@,
                ) != Some(relative),
        },
    decreases skills.len(),
{
    if skills.len() > 0 && !updates(skills[0], relative) {
        let rest = skills.skip(1);
        lemma_first_update(rest, relative);
        assert forall|j: int| 0 < j < skills.len() implies #[trigger] skills[j] == rest[j - 1] by {}
        if let Some(skill) = first_update(rest, relative) {
            let i = choose|i: int|
                0 <= i < rest.len() && #[trigger] rest[i] == skill && (skill.name@ == relative
                    || last_name(skill.central_path@) == Some(relative)) && forall|j: int|
                    0 <= j < i ==> (#[trigger] rest[j]).name@ != relative && last_name(
                        rest[j].central_path@,
                    ) != Some(relative);
            assert(skills[i + 1] == skill);
        }
    } else if skills.len() > 0 {
        assert(skills[0] == first_update(skills, relative)->0);
    }
}

/// Once a skill was copied, the path is answered for with what came of it, and the
/// update goes on behind it.
pub proof fn copies_are_answered_for(update: UpdateView, outcome: Result<(), String>)
    ensures
        synced_step(update, outcome) == next_update(
            BatchView {
                skills_dir: update.batch.skills_dir,
                paths: update.batch.paths,
                results: update.batch.results.push(
                    ResultView {
                        relative_path: update.batch.paths[update.batch.results.len() as int],
                        ok: outcome is Ok,
                        skill_id: None,
                        central_path: None,
                        reason: match outcome {
                            Ok(()) => None,
                            Err(reason) => Some(reason@),
                        },
                    },
                ),
            },
            update.force,
        ),
{
}

/// Contracts see the whole of a response, path by path, and of a step.
pub proof fn responses_are_seen_whole(response: AgentMutateResponse, i: int)
    requires
        0 <= i < response.results@.len(),
    ensures
        response@.succeeded == response.succeeded,
        response@.failed == response.failed,
        response@.results.len() == response.results@.len(),
        response@.results[i].relative_path == response.results@[i].relative_path@,
        response@.results[i].ok == response.results@[i].ok,
        response@.results[i].skill_id is Some <==> response.results@[i].skill_id is Some,
        response.results@[i].skill_id is Some ==> response@.results[i].skill_id->0
            == response.results@[i].skill_id->0@,
        response@.results[i].central_path is Some <==> response.results@[i].central_path is Some,
        response.results@[i].central_path is Some ==> response@.results[i].central_path->0
            == response.results@[i].central_path->0@,
        response@.results[i].reason is Some <==> response.results@[i].reason is Some,
        response.results@[i].reason is Some ==> response@.results[i].reason->0
            == response.results@[i].reason->0@,
        BatchStep::Done(response)@ == StepView::Done(response@),
        UpdateStep::Done(Ok(response))@ == UpdateStepView::Done(
            Ok::<MutateView, ErrorView>(response@),
        ),
{
}

/// Contracts see which path a step waits for, and with what it goes on.
pub proof fn steps_are_seen_whole(work: BatchItem, read: UpdateItem, sync: SyncItem)
    ensures
        BatchStep::Work(work)@ == StepView::Work(work@),
        UpdateStep::ReadSkills(read)@ == UpdateStepView::ReadSkills(read@),
        UpdateStep::Sync(sync)@ == (UpdateStepView::Sync {
            update: sync@,
            source: sync.source_path(),
        }),
{
}

} // verus!

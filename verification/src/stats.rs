//! Statistics of one evaluation: its failed builds and its evaluation failures.

use crate::analyzer;
use crate::analyzer::EvalErrorAnalyzer;
use crate::cli::EvalArgs;
use crate::deps;
use crate::deps::{dependent_job_counts, Graph};
use crate::eval;
use crate::eval::{EvalDataError, EvalModel, HydraEval};
use crate::fetch::HYDRA_URL;
use crate::json::{Json, JsonModel};
use crate::status;
use crate::status::HydraBuild;
use crate::table;
use crate::table::Table;
use crate::text;
use crate::text::decimal_text;
use vstd::prelude::*;
use vstd::string::*;

verus! {

// ---- failed builds ----

/// A failed build with the number of jobs that depend on it.
pub struct Job<'a> {
    pub job: &'a str,
    pub direct_deps: usize,
    pub all_deps: usize,
    pub build_url: String,
}

/// The mathematical content of a [`Job`].
pub struct JobModel {
    pub job: Seq<char>,
    pub direct_deps: usize,
    pub all_deps: usize,
    pub build_url: Seq<char>,
}

impl<'a> View for Job<'a> {
    type V = JobModel;

    open spec fn view(&self) -> JobModel {
        JobModel {
            job: self.job@,
            direct_deps: self.direct_deps,
            all_deps: self.all_deps,
            build_url: self.build_url@,
        }
    }
}

/// A list of failed builds, as their content.
pub open spec fn job_views(jobs: Seq<Job>) -> Seq<JobModel> {
    jobs.map_values(|job: Job| job@)
}

/// The build failed. A build without a status is still queued.
pub open spec fn has_failed(build: JsonModel) -> bool {
    build.at("buildstatus"@).as_i64() matches Some(n) && n != 0
}

/// What is wrong with a failed build.
pub open spec fn failed_check(build: JsonModel, i: int) -> Option<EvalDataError> {
    if !has_failed(build) {
        None
    } else if build.at("drvpath"@).as_text() is None {
        Some(EvalDataError::NoBuildDrvPath(i as usize))
    } else if build.at("job"@).as_text() is None {
        Some(EvalDataError::NoJobName(i as usize))
    } else {
        None
    }
}

/// What is wrong with the failed ones of builds.
pub open spec fn failed_checks(builds: Seq<JsonModel>) -> Seq<Option<EvalDataError>> {
    Seq::new(builds.len(), |i: int| failed_check(builds[i], i))
}

/// The entry for a failed build.
pub open spec fn failed_entry(build: JsonModel, graph: Graph) -> JobModel {
    let info = eval::dependents_info(graph, build.at("drvpath"@).as_text()->0);
    JobModel {
        job: build.at("job"@).as_text()->0,
        direct_deps: info.direct_deps,
        all_deps: info.all_deps,
        build_url: HYDRA_URL@ + "/build/"@ + build.at("id"@).written(),
    }
}

/// The failed ones of builds.
pub open spec fn failed_entries(builds: Seq<JsonModel>, graph: Graph) -> Seq<JobModel> {
    builds.filter(|build: JsonModel| has_failed(build)).map_values(
        |build: JsonModel| failed_entry(build, graph),
    )
}

impl EvalModel {
    /// What keeps the failed builds from being listed.
    pub open spec fn failed_error(self) -> Option<EvalDataError> {
        eval::either_error(
            eval::first_error(eval::inputs_checks(self.jobs)),
            eval::first_error(failed_checks(self.builds)),
        )
    }

    /// The failed builds.
    pub open spec fn failed(self) -> Seq<JobModel> {
        failed_entries(self.builds, self.graph())
    }
}

/// The address of the page of a build on the server.
fn build_page(build: &Json) -> (url: String)
    ensures
        url@ == HYDRA_URL@ + "/build/"@ + build@.at("id"@).written(),
{
    let mut url = HYDRA_URL.to_owned();
    url.append("/build/");
    match build.get("id") {
        Some(id) => url.append(&id.write()),
        None => url.append("null"),
    }
    url
}

impl HydraEval {
    /// The failed builds, in the order of the builds.
    pub fn get_failed_build_stats<'a>(&'a self) -> (jobs: Result<Vec<Job<'a>>, EvalDataError>)
        ensures
            match jobs {
                Ok(jobs) => self@.failed_error() is None && job_views(jobs@) == self@.failed(),
                Err(error) => self@.failed_error() == Some(error),
            },
    {
        let job_deps = match self.get_eval_job_deps() {
            Ok(job_deps) => job_deps,
            Err(error) => {
                return Err(error);
            },
        };
        let ghost builds = self@.builds;
        let ghost checks = failed_checks(builds);
        let ghost graph = self@.graph();
        let mut failed: Vec<Job<'a>> = Vec::new();
        let mut i: usize = 0;
        proof {
            reveal(Seq::filter);
            assert(job_views(failed@) =~= failed_entries(builds.take(0), graph));
        }
        while i < self.hydra_builds.len()
            invariant
                i <= self.hydra_builds@.len(),
                builds == self@.builds,
                checks == failed_checks(builds),
                graph == deps::graph_of(job_deps),
                eval::first_error(eval::inputs_checks(self@.jobs)) is None,
                eval::first_error(checks.take(i as int)) is None,
                job_views(failed@) == failed_entries(builds.take(i as int), graph),
            decreases self.hydra_builds.len() - i,
        {
            let build = &self.hydra_builds[i];
            proof {
                assert(builds[i as int] == build@);
                eval::lemma_first_error_at(checks, i as int);
                lemma_failed_step(builds, i as int, graph);
            }
            let has_failed = match build.i64_at("buildstatus") {
                Some(n) => n != 0,
                None => false,
            };
            if has_failed {
                let drv = match build.text_at("drvpath") {
                    Some(drv) => drv,
                    None => {
                        return Err(EvalDataError::NoBuildDrvPath(i));
                    },
                };
                let counts = dependent_job_counts(drv, &job_deps);
                let job = match build.text_at("job") {
                    Some(job) => job,
                    None => {
                        return Err(EvalDataError::NoJobName(i));
                    },
                };
                let entry = Job {
                    job,
                    direct_deps: counts[0],
                    all_deps: counts[counts.len() - 1],
                    build_url: build_page(build),
                };
                assert(entry@ == failed_entry(build@, graph));
                let ghost before = job_views(failed@);
                failed.push(entry);
                assert(job_views(failed@) =~= before.push(entry@));
            }
            i += 1;
        }
        assert(builds.take(i as int) =~= builds);
        assert(checks.take(i as int) =~= checks);
        Ok(failed)
    }
}

/// What one more build adds to the failed ones.
proof fn lemma_failed_step(builds: Seq<JsonModel>, n: int, graph: Graph)
    requires
        0 <= n < builds.len(),
    ensures
        failed_entries(builds.take(n + 1), graph) == (if has_failed(builds[n]) {
            failed_entries(builds.take(n), graph).push(failed_entry(builds[n], graph))
        } else {
            failed_entries(builds.take(n), graph)
        }),
{
    reveal(Seq::filter);
    let next = builds.take(n + 1);
    assert(next.drop_last() =~= builds.take(n));
    assert(next.last() == builds[n]);
    let failed = |build: JsonModel| has_failed(build);
    let entry = |build: JsonModel| failed_entry(build, graph);
    assert(builds.take(n).filter(failed).push(builds[n]).map_values(entry) =~= builds.take(
        n,
    ).filter(failed).map_values(entry).push(entry(builds[n])));
}

// ---- successful builds ----

/// The build has finished and produced its outputs.
pub open spec fn has_succeeded(build: JsonModel) -> bool {
    status::build_in(build) matches Some(build) && build.succeeded()
}

/// The derivations of the successful ones of builds.
pub open spec fn successful_drvs(builds: Seq<JsonModel>) -> Seq<Seq<char>> {
    builds.filter(|build: JsonModel| has_succeeded(build)).map_values(
        |build: JsonModel| status::build_in(build)->0.drvpath,
    )
}

impl EvalModel {
    /// The derivations that were built successfully.
    pub open spec fn successful(self) -> Seq<Seq<char>> {
        successful_drvs(self.builds)
    }
}

/// What one more build adds to the successful ones.
proof fn lemma_successful_step(builds: Seq<JsonModel>, n: int)
    requires
        0 <= n < builds.len(),
    ensures
        successful_drvs(builds.take(n + 1)) == (if has_succeeded(builds[n]) {
            successful_drvs(builds.take(n)).push(status::build_in(builds[n])->0.drvpath)
        } else {
            successful_drvs(builds.take(n))
        }),
{
    reveal(Seq::filter);
    let next = builds.take(n + 1);
    assert(next.drop_last() =~= builds.take(n));
    assert(next.last() == builds[n]);
    let kept = |build: JsonModel| has_succeeded(build);
    let drv = |build: JsonModel| status::build_in(build)->0.drvpath;
    assert(builds.take(n).filter(kept).push(builds[n]).map_values(drv) =~= builds.take(n).filter(
        kept,
    ).map_values(drv).push(drv(builds[n])));
}

impl HydraEval {
    /// The derivations that were built successfully, in the order of the builds. A build that
    /// lacks a part is none of them.
    pub fn get_successful_builds<'a>(&'a self) -> (drvs: Vec<&'a str>)
        ensures
            deps::paths(drvs@) == self@.successful(),
    {
        let ghost builds = self@.builds;
        let mut drvs: Vec<&'a str> = Vec::new();
        let mut i: usize = 0;
        proof {
            reveal(Seq::filter);
            assert(deps::paths(drvs@) =~= successful_drvs(builds.take(0)));
        }
        while i < self.hydra_builds.len()
            invariant
                i <= self.hydra_builds@.len(),
                builds == self@.builds,
                deps::paths(drvs@) == successful_drvs(builds.take(i as int)),
            decreases self.hydra_builds.len() - i,
        {
            let json = &self.hydra_builds[i];
            proof {
                assert(builds[i as int] == json@);
                lemma_successful_step(builds, i as int);
            }
            if let Some(build) = HydraBuild::from_json(json) {
                if build.success() {
                    if let Some(drv) = json.text_at("drvpath") {
                        let ghost before = deps::paths(drvs@);
                        drvs.push(drv);
                        assert(deps::paths(drvs@) =~= before.push(drv@));
                    }
                }
            }
            i += 1;
        }
        assert(builds.take(i as int) =~= builds);
        drvs
    }
}

/// A build is never counted both as failed and as successful.
pub proof fn law_failed_or_successful(build: JsonModel)
    ensures
        !(has_failed(build) && has_succeeded(build)),
{
}

// ---- failed builds in order ----

/// The entries with fewer dependents come first.
pub open spec fn sorted_by_dependents(jobs: Seq<JobModel>) -> bool {
    forall|i: int, j: int| 0 <= i < j < jobs.len() ==> jobs[i].all_deps <= jobs[j].all_deps
}

/// The entries with a given number of dependents.
pub open spec fn with_dependents(jobs: Seq<JobModel>, n: usize) -> Seq<JobModel> {
    jobs.filter(|job: JobModel| job.all_deps == n)
}

/// `sorted` holds the entries of `jobs`, those with fewer dependents first, and those with the
/// same number of dependents in the order in which they stand in `jobs`.
pub open spec fn is_stable_sort(sorted: Seq<JobModel>, jobs: Seq<JobModel>) -> bool {
    &&& sorted.len() == jobs.len()
    &&& sorted_by_dependents(sorted)
    &&& forall|n: usize| #[trigger] with_dependents(sorted, n) == with_dependents(jobs, n)
}

/// Filtering what is put together.
proof fn lemma_filter_add(a: Seq<JobModel>, b: Seq<JobModel>, n: usize)
    ensures
        with_dependents(a + b, n) == with_dependents(a, n) + with_dependents(b, n),
    decreases b.len(),
{
    reveal(Seq::filter);
    if b.len() == 0 {
        assert(a + b =~= a);
        assert(with_dependents(a, n) + with_dependents(b, n) =~= with_dependents(a, n));
    } else {
        lemma_filter_add(a, b.drop_last(), n);
        assert((a + b).drop_last() =~= a + b.drop_last());
        assert((a + b).last() == b.last());
        assert(with_dependents(a + b, n) =~= with_dependents(a, n) + with_dependents(b, n));
    }
}

/// Nothing with `n` dependents is found among entries that all have another number.
proof fn lemma_filter_none(a: Seq<JobModel>, n: usize)
    requires
        forall|i: int| 0 <= i < a.len() ==> (#[trigger] a[i]).all_deps != n,
    ensures
        with_dependents(a, n) == Seq::<JobModel>::empty(),
    decreases a.len(),
{
    reveal(Seq::filter);
    if a.len() > 0 {
        assert(a.drop_last().len() < a.len());
        assert forall|i: int| 0 <= i < a.drop_last().len() implies (
        #[trigger] a.drop_last()[i]).all_deps != n by {
            assert(a[i].all_deps != n);
        }
        lemma_filter_none(a.drop_last(), n);
        assert(a[a.len() - 1].all_deps != n);
    }
}

/// An entry put behind all those with no more dependents keeps the order stable.
proof fn lemma_insertion_stable(
    sorted: Seq<JobModel>,
    jobs: Seq<JobModel>,
    job: JobModel,
    at: int,
)
    requires
        is_stable_sort(sorted, jobs),
        0 <= at <= sorted.len(),
        forall|i: int| 0 <= i < at ==> (#[trigger] sorted[i]).all_deps <= job.all_deps,
        forall|i: int| at <= i < sorted.len() ==> job.all_deps < (#[trigger] sorted[i]).all_deps,
    ensures
        is_stable_sort(sorted.insert(at, job), jobs.push(job)),
{
    let (low, high) = (sorted.take(at), sorted.skip(at));
    let new = sorted.insert(at, job);
    assert(new =~= low + seq![job] + high);
    assert(sorted =~= low + high);
    assert forall|n: usize| #[trigger] with_dependents(new, n) == with_dependents(
        jobs.push(job),
        n,
    ) by {
        lemma_filter_add(low + seq![job], high, n);
        lemma_filter_add(low, seq![job], n);
        lemma_filter_add(low, high, n);
        lemma_filter_add(jobs, seq![job], n);
        assert(jobs.push(job) =~= jobs + seq![job]);
        assert(with_dependents(sorted, n) == with_dependents(jobs, n));
        if n == job.all_deps {
            assert forall|i: int| 0 <= i < high.len() implies (#[trigger] high[i]).all_deps != n by {
                assert(high[i] == sorted[at + i]);
            }
            lemma_filter_none(high, n);
            assert(with_dependents(new, n) =~= with_dependents(jobs.push(job), n));
        } else {
            lemma_filter_none(seq![job], n);
            assert(with_dependents(new, n) =~= with_dependents(jobs.push(job), n));
        }
    }
}

/// Sorts failed builds by the number of jobs that depend on them.
pub fn sort_by_dependents<'a>(jobs: Vec<Job<'a>>) -> (sorted: Vec<Job<'a>>)
    ensures
        is_stable_sort(job_views(sorted@), job_views(jobs@)),
{
    let ghost all = job_views(jobs@);
    let n = jobs.len();
    let mut rest = jobs;
    let mut sorted: Vec<Job<'a>> = Vec::new();
    proof {
        assert(all.skip(0) =~= all);
        assert forall|k: usize| #[trigger] with_dependents(job_views(sorted@), k)
            == with_dependents(all.take(0), k) by {
            assert(job_views(sorted@) =~= all.take(0));
        }
    }
    while rest.len() > 0
        invariant
            sorted@.len() + rest@.len() == n,
            all.len() == n,
            job_views(rest@) == all.skip(sorted@.len() as int),
            is_stable_sort(job_views(sorted@), all.take(sorted@.len() as int)),
        decreases rest.len(),
    {
        let ghost m: int = sorted@.len() as int;
        let ghost left = job_views(rest@);
        let job = rest.remove(0);
        assert(left[0] == job@);
        assert(job@ == all[m]);
        assert(job_views(rest@) =~= left.skip(1));
        assert(left.skip(1) =~= all.skip(m + 1));
        let mut at: usize = sorted.len();
        let ghost before = job_views(sorted@);
        while at > 0 && job.all_deps < sorted[at - 1].all_deps
            invariant
                at <= sorted@.len(),
                before == job_views(sorted@),
                forall|i: int|
                    at <= i < before.len() ==> job.all_deps < (#[trigger] before[i]).all_deps,
            decreases at,
        {
            assert(before[at - 1] == sorted@[at - 1]@);
            at -= 1;
        }
        proof {
            if at > 0 {
                assert(before[at - 1] == sorted@[at - 1]@);
            }
            assert forall|i: int| 0 <= i < at implies (#[trigger] before[i]).all_deps
                <= job@.all_deps by {
                assert(before[i].all_deps <= before[at - 1].all_deps);
            }
            lemma_insertion_stable(before, all.take(m), job@, at as int);
            assert(all.take(m).push(job@) =~= all.take(m + 1));
        }
        sorted.insert(at, job);
        assert(job_views(sorted@) =~= before.insert(at as int, job@));
    }
    assert(all.take(sorted@.len() as int) =~= all);
    sorted
}

/// What the last entry adds to those with a number of dependents.
proof fn lemma_filter_last(a: Seq<JobModel>, n: usize)
    requires
        a.len() > 0,
    ensures
        with_dependents(a, n) == (if a.last().all_deps == n {
            with_dependents(a.drop_last(), n).push(a.last())
        } else {
            with_dependents(a.drop_last(), n)
        }),
{
    reveal(Seq::filter);
}

/// The last entry of a sorted list has the most dependents.
proof fn lemma_last_is_most(a: Seq<JobModel>, n: usize)
    requires
        a.len() > 0,
        sorted_by_dependents(a),
        with_dependents(a, n).len() > 0,
    ensures
        n <= a.last().all_deps,
{
    if a.last().all_deps < n {
        assert forall|i: int| 0 <= i < a.len() implies (#[trigger] a[i]).all_deps != n by {
            if i < a.len() - 1 {
                assert(a[i].all_deps <= a[a.len() - 1].all_deps);
            }
        }
        lemma_filter_none(a, n);
    }
}

/// Two sorted lists with the same entries for every number of dependents are the same.
proof fn lemma_sorted_lists_equal(a: Seq<JobModel>, b: Seq<JobModel>)
    requires
        a.len() == b.len(),
        sorted_by_dependents(a),
        sorted_by_dependents(b),
        forall|n: usize| #[trigger] with_dependents(a, n) == with_dependents(b, n),
    ensures
        a == b,
    decreases a.len(),
{
    if a.len() == 0 {
        assert(a =~= b);
    } else {
        let (x, y) = (a.drop_last(), b.drop_last());
        let (k, m) = (a.last().all_deps, b.last().all_deps);
        assert(with_dependents(a, k) == with_dependents(b, k));
        assert(with_dependents(a, m) == with_dependents(b, m));
        lemma_filter_last(a, k);
        lemma_filter_last(b, m);
        lemma_last_is_most(a, m);
        lemma_last_is_most(b, k);
        assert(with_dependents(a, k).last() == a.last());
        assert(with_dependents(b, k).last() == b.last());
        assert forall|n: usize| #[trigger] with_dependents(x, n) == with_dependents(y, n) by {
            assert(with_dependents(a, n) == with_dependents(b, n));
            lemma_filter_last(a, n);
            lemma_filter_last(b, n);
            if n == k {
                assert(with_dependents(x, n) =~= with_dependents(a, n).drop_last());
                assert(with_dependents(y, n) =~= with_dependents(b, n).drop_last());
            }
        }
        lemma_sorted_lists_equal(x, y);
        assert(a =~= x.push(a.last()));
        assert(b =~= y.push(b.last()));
    }
}

/// There is only one way to sort failed builds by their dependents that leaves those with the
/// same number of dependents in their order.
pub proof fn law_stable_sort_unique(a: Seq<JobModel>, b: Seq<JobModel>, jobs: Seq<JobModel>)
    requires
        is_stable_sort(a, jobs),
        is_stable_sort(b, jobs),
    ensures
        a == b,
{
    assert forall|n: usize| #[trigger] with_dependents(a, n) == with_dependents(b, n) by {
        assert(with_dependents(a, n) == with_dependents(jobs, n));
        assert(with_dependents(b, n) == with_dependents(jobs, n));
    }
    lemma_sorted_lists_equal(a, b);
}

// ---- evaluation failures ----

/// So many spaces.
pub open spec fn spaces(n: nat) -> Seq<char> {
    Seq::new(n, |i: int| ' ')
}

/// A text with every line that is not empty moved to the right by `n` spaces. Carriage returns
/// at the ends of lines are dropped.
pub open spec fn indented(n: nat, s: Seq<char>) -> Seq<char> {
    text::joined(
        text::lines(s).map_values(
            |line: Seq<char>|
                if line.len() == 0 {
                    line
                } else {
                    spaces(n) + line
                },
        ),
        seq!['\n'],
    ) + (if s.len() > 0 && s.last() == '\n' {
        seq!['\n']
    } else {
        Seq::empty()
    })
}

/// Calls `indent::indent_all_by`. The claim is that it indents every line that is not empty, the
/// first included, puts a line feed between the lines as `str::lines` gives them, and ends with
/// a line feed if the text does. The bound on the number of spaces keeps far from the size at
/// which `str::repeat`, which makes the indentation, panics.
#[verifier::external_body]
fn indent_all(number_of_spaces: usize, input: &str) -> (r: String)
    requires
        number_of_spaces <= 80,
    ensures
        r@ == indented(number_of_spaces as nat, input@),
{
    indent::indent_all_by(number_of_spaces, input)
}

/// An attribute that could not be evaluated, with the error and the reason found in it.
pub struct Failure<'a> {
    pub attr: &'a str,
    pub error: &'a str,
    pub reason: Option<String>,
}

/// The mathematical content of a [`Failure`].
pub struct FailureModel {
    pub attr: Seq<char>,
    pub error: Seq<char>,
    pub reason: Option<Seq<char>>,
}

impl<'a> View for Failure<'a> {
    type V = FailureModel;

    open spec fn view(&self) -> FailureModel {
        FailureModel {
            attr: self.attr@,
            error: self.error@,
            reason: analyzer::optional(self.reason),
        }
    }
}

/// A list of failures, as their content.
pub open spec fn failure_views(failures: Seq<Failure>) -> Seq<FailureModel> {
    failures.map_values(|failure: Failure| failure@)
}

/// What is said of a failure without a recognized reason.
pub open spec fn unrecognized(failure: FailureModel) -> Seq<char> {
    failure.attr + ": \n"@ + indented(4, failure.error) + "\n"@
}

/// What is said of all failures without a recognized reason.
pub open spec fn unrecognized_text(failures: Seq<FailureModel>) -> Seq<char>
    decreases failures.len(),
{
    if failures.len() == 0 {
        Seq::empty()
    } else {
        unrecognized_text(failures.drop_last()) + (if failures.last().reason is None {
            unrecognized(failures.last())
        } else {
            Seq::empty()
        })
    }
}

/// The recognized reasons.
pub open spec fn failure_reasons(failures: Seq<FailureModel>) -> Set<Seq<char>> {
    Set::new(
        |reason: Seq<char>|
            exists|i: int|
                0 <= i < failures.len() && (#[trigger] failures[i]).reason == Some(reason),
    )
}

/// The attributes that failed for a reason.
pub open spec fn failed_for(failures: Seq<FailureModel>, reason: Seq<char>) -> Seq<Seq<char>> {
    failures.filter(|failure: FailureModel| failure.reason == Some(reason)).map_values(
        |failure: FailureModel| failure.attr,
    )
}

/// Attributes, one on each line.
pub open spec fn attr_list(attrs: Seq<Seq<char>>) -> Seq<char> {
    text::concat(attrs.map_values(|attr: Seq<char>| "    "@ + attr + "\n"@))
}

/// What is said of a reason.
pub open spec fn reason_block(reason: Seq<char>, attrs: Seq<Seq<char>>) -> Seq<char> {
    reason + ": "@ + text::decimal(attrs.len()) + "\n"@ + attr_list(attrs)
}

/// The report on failures: first those without a recognized reason, then the others by their
/// reasons.
pub open spec fn failure_report(failures: Seq<FailureModel>) -> Seq<char> {
    unrecognized_text(failures) + text::concat(
        table::sorted_keys(failure_reasons(failures)).map_values(
            |reason: Seq<char>| reason_block(reason, failed_for(failures, reason)),
        ),
    )
}

/// What one more failure adds to those with a reason.
proof fn lemma_failed_for_step(failures: Seq<FailureModel>, n: int, reason: Seq<char>)
    requires
        0 <= n < failures.len(),
    ensures
        failed_for(failures.take(n + 1), reason) == (if failures[n].reason == Some(reason) {
            failed_for(failures.take(n), reason).push(failures[n].attr)
        } else {
            failed_for(failures.take(n), reason)
        }),
{
    reveal(Seq::filter);
    let next = failures.take(n + 1);
    assert(next.drop_last() =~= failures.take(n));
    assert(next.last() == failures[n]);
    let same = |failure: FailureModel| failure.reason == Some(reason);
    let attr = |failure: FailureModel| failure.attr;
    assert(failures.take(n).filter(same).push(failures[n]).map_values(attr) =~= failures.take(
        n,
    ).filter(same).map_values(attr).push(failures[n].attr));
}

/// What one more failure adds to the reasons.
proof fn lemma_failure_reasons_step(failures: Seq<FailureModel>, n: int)
    requires
        0 <= n < failures.len(),
    ensures
        failure_reasons(failures.take(n + 1)) == (match failures[n].reason {
            Some(reason) => failure_reasons(failures.take(n)).insert(reason),
            None => failure_reasons(failures.take(n)),
        }),
{
    let (a, b) = (failures.take(n), failures.take(n + 1));
    assert forall|reason: Seq<char>|
        failure_reasons(b).contains(reason) == (failure_reasons(a).contains(reason)
            || failures[n].reason == Some(reason)) by {
        if failure_reasons(b).contains(reason) {
            let i = choose|i: int|
                0 <= i < b.len() && (#[trigger] b[i]).reason == Some(reason);
            if i < n {
                assert(a[i].reason == Some(reason));
            }
        }
        if failure_reasons(a).contains(reason) {
            let i = choose|i: int|
                0 <= i < a.len() && (#[trigger] a[i]).reason == Some(reason);
            assert(b[i].reason == Some(reason));
        }
        assert(b[n] == failures[n]);
    }
    match failures[n].reason {
        Some(reason) => {
            assert(failure_reasons(b) =~= failure_reasons(a).insert(reason));
        },
        None => {
            assert(failure_reasons(b) =~= failure_reasons(a));
        },
    }
}

/// Writes attributes, one on each line.
fn write_attr_list(attrs: &Vec<&str>) -> (r: String)
    ensures
        r@ == attr_list(deps::paths(attrs@)),
{
    let ghost lines = deps::paths(attrs@).map_values(|attr: Seq<char>| "    "@ + attr + "\n"@);
    let mut r = String::new();
    let mut i: usize = 0;
    while i < attrs.len()
        invariant
            i <= attrs@.len(),
            lines == deps::paths(attrs@).map_values(|attr: Seq<char>| "    "@ + attr + "\n"@),
            r@ == text::concat(lines.take(i as int)),
        decreases attrs.len() - i,
    {
        let mut line = "    ".to_owned();
        line.append(attrs[i]);
        line.append("\n");
        assert(line@ == lines[i as int]);
        r.append(&line);
        assert(lines.take(i + 1).drop_last() =~= lines.take(i as int));
        i += 1;
    }
    assert(lines.take(i as int) =~= lines);
    r
}

/// Writes the report on failures.
pub fn write_failures(failures: &Vec<Failure>) -> (r: String)
    ensures
        r@ == failure_report(failure_views(failures@)),
{
    let ghost all = failure_views(failures@);
    let mut by_reason: Table<Vec<&str>> = Table::new();
    let mut r = String::new();
    let mut i: usize = 0;
    proof {
        assert(by_reason@.dom() =~= failure_reasons(all.take(0)));
        assert forall|reason: Seq<char>| #[trigger]
            deps::paths(by_reason.items(reason)) == failed_for(all.take(0), reason) by {
            reveal(Seq::filter);
            assert(deps::paths(by_reason.items(reason)) =~= failed_for(all.take(0), reason));
        }
    }
    while i < failures.len()
        invariant
            i <= failures@.len(),
            all == failure_views(failures@),
            r@ == unrecognized_text(all.take(i as int)),
            by_reason@.dom() == failure_reasons(all.take(i as int)),
            forall|reason: Seq<char>| #[trigger]
                deps::paths(by_reason.items(reason)) == failed_for(all.take(i as int), reason),
        decreases failures.len() - i,
    {
        let failure = &failures[i];
        let ghost before = by_reason;
        proof {
            assert(all[i as int] == failure@);
            assert(all.take(i + 1).drop_last() =~= all.take(i as int));
            assert(all.take(i + 1).last() == failure@);
        }
        match &failure.reason {
            Some(reason) => {
                by_reason.add(reason.as_str(), failure.attr);
                proof {
                    let key = reason@;
                    assert(deps::paths(before.items(key).push(failure.attr)) =~= deps::paths(
                        before.items(key),
                    ).push(failure.attr@));
                }
                assert(r@ =~= unrecognized_text(all.take(i + 1)));
            },
            None => {
                let mut entry = failure.attr.to_owned();
                entry.append(": \n");
                entry.append(&indent_all(4, failure.error));
                entry.append("\n");
                r.append(&entry);
                assert(r@ =~= unrecognized_text(all.take(i + 1)));
            },
        }
        proof {
            lemma_failure_reasons_step(all, i as int);
            assert forall|reason: Seq<char>| #[trigger]
                deps::paths(by_reason.items(reason)) == failed_for(all.take(i + 1), reason) by {
                lemma_failed_for_step(all, i as int, reason);
                assert(deps::paths(before.items(reason)) == failed_for(all.take(i as int), reason));
            }
        }
        i += 1;
    }
    assert(all.take(i as int) =~= all);
    let n = by_reason.len();
    let ghost start = r@;
    let ghost blocks = by_reason.keys().map_values(
        |reason: Seq<char>| reason_block(reason, failed_for(all, reason)),
    );
    let mut j: usize = 0;
    assert(start + text::concat(blocks.take(0)) =~= start);
    while j < n
        invariant
            j <= n,
            n == by_reason.keys().len(),
            blocks == by_reason.keys().map_values(
                |reason: Seq<char>| reason_block(reason, failed_for(all, reason)),
            ),
            forall|reason: Seq<char>| #[trigger]
                deps::paths(by_reason.items(reason)) == failed_for(all, reason),
            r@ == start + text::concat(blocks.take(j as int)),
        decreases n - j,
    {
        let (reason, attrs) = by_reason.entry(j);
        assert(deps::paths(by_reason.items(reason@)) == failed_for(all, reason@));
        let mut block = reason.to_owned();
        block.append(": ");
        block.append(&decimal_text(attrs.len() as u64));
        block.append("\n");
        block.append(&write_attr_list(attrs));
        assert(block@ == blocks[j as int]);
        r.append(&block);
        assert(blocks.take(j + 1).drop_last() =~= blocks.take(j as int));
        assert(r@ =~= start + text::concat(blocks.take(j + 1)));
        j += 1;
    }
    assert(blocks.take(j as int) =~= blocks);
    r
}

/// What is wrong with the name of a job that failed to evaluate.
pub open spec fn failure_check(job: JsonModel, i: int) -> Option<EvalDataError> {
    if job.at("error"@).as_text() is Some {
        eval::attr_check(job, i)
    } else {
        None
    }
}

/// What is wrong with the names of the jobs that failed to evaluate.
pub open spec fn failure_checks(jobs: Seq<JsonModel>) -> Seq<Option<EvalDataError>> {
    Seq::new(jobs.len(), |i: int| failure_check(jobs[i], i))
}

/// The failure of a job.
pub open spec fn failure_of(job: JsonModel) -> FailureModel {
    FailureModel {
        attr: job.at("attr"@).as_text()->0,
        error: job.at("error"@).as_text()->0,
        reason: analyzer::reason_of(job.at("error"@).as_text()->0),
    }
}

/// The failures among jobs.
pub open spec fn failures_among(jobs: Seq<JsonModel>) -> Seq<FailureModel> {
    jobs.filter(|job: JsonModel| job.at("error"@).as_text() is Some).map_values(
        |job: JsonModel| failure_of(job),
    )
}

/// What one more job adds to the failures.
proof fn lemma_failures_step(jobs: Seq<JsonModel>, n: int)
    requires
        0 <= n < jobs.len(),
    ensures
        failures_among(jobs.take(n + 1)) == (if jobs[n].at("error"@).as_text() is Some {
            failures_among(jobs.take(n)).push(failure_of(jobs[n]))
        } else {
            failures_among(jobs.take(n))
        }),
{
    reveal(Seq::filter);
    let next = jobs.take(n + 1);
    assert(next.drop_last() =~= jobs.take(n));
    assert(next.last() == jobs[n]);
    let failed = |job: JsonModel| job.at("error"@).as_text() is Some;
    let failure = |job: JsonModel| failure_of(job);
    assert(jobs.take(n).filter(failed).push(jobs[n]).map_values(failure) =~= jobs.take(n).filter(
        failed,
    ).map_values(failure).push(failure(jobs[n])));
}

/// The jobs that failed to evaluate, with the reasons.
pub fn eval_failures<'a>(jobs: &'a Vec<Json>, analyzer: &EvalErrorAnalyzer) -> (failures: Result<
    Vec<Failure<'a>>,
    EvalDataError,
>)
    ensures
        match failures {
            Ok(failures) => eval::first_error(failure_checks(eval::json_views(jobs@))) is None
                && failure_views(failures@) == failures_among(eval::json_views(jobs@)),
            Err(error) => eval::first_error(failure_checks(eval::json_views(jobs@))) == Some(error),
        },
{
    let ghost all = eval::json_views(jobs@);
    let ghost checks = failure_checks(all);
    let mut failures: Vec<Failure<'a>> = Vec::new();
    let mut i: usize = 0;
    proof {
        reveal(Seq::filter);
        assert(failure_views(failures@) =~= failures_among(all.take(0)));
    }
    while i < jobs.len()
        invariant
            i <= jobs@.len(),
            all == eval::json_views(jobs@),
            checks == failure_checks(all),
            eval::first_error(checks.take(i as int)) is None,
            failure_views(failures@) == failures_among(all.take(i as int)),
        decreases jobs.len() - i,
    {
        let job = &jobs[i];
        proof {
            assert(all[i as int] == job@);
            eval::lemma_first_error_at(checks, i as int);
            lemma_failures_step(all, i as int);
        }
        if let Some(error) = job.text_at("error") {
            let attr = match job.text_at("attr") {
                Some(attr) => attr,
                None => {
                    return Err(EvalDataError::NoAttr(i));
                },
            };
            let failure = Failure { attr, error, reason: analyzer.analyze(error) };
            assert(failure@ == failure_of(job@));
            let ghost before = failure_views(failures@);
            failures.push(failure);
            assert(failure_views(failures@) =~= before.push(failure@));
        }
        i += 1;
    }
    assert(all.take(i as int) =~= all);
    assert(checks.take(i as int) =~= checks);
    Ok(failures)
}

/// Reports on the jobs that failed to evaluate.
pub fn print_eval_failure_summary(
    jobs: &Vec<Json>,
    analyzer: &EvalErrorAnalyzer,
) -> (report: Result<String, EvalDataError>)
    ensures
        match report {
            Ok(report) => eval::first_error(failure_checks(eval::json_views(jobs@))) is None
                && report@ == failure_report(failures_among(eval::json_views(jobs@))),
            Err(error) => eval::first_error(failure_checks(eval::json_views(jobs@))) == Some(error),
        },
{
    match eval_failures(jobs, analyzer) {
        Ok(failures) => Ok(write_failures(&failures)),
        Err(error) => Err(error),
    }
}

/// What is to be printed of an evaluation: its failed builds, and, each if it is asked for, the
/// derivations that were built successfully and the report on the jobs that failed to evaluate.
pub struct EvalStats<'a> {
    pub failed_jobs: Vec<Job<'a>>,
    pub successful: Option<Vec<&'a str>>,
    pub eval_failures: Option<Result<String, EvalDataError>>,
}

/// The statistics of an evaluation. Builds with fewer dependents come first.
pub fn process_and_print_eval_stats<'a>(
    hydra_eval: &'a HydraEval,
    cli: &EvalArgs,
    analyzer: &EvalErrorAnalyzer,
) -> (stats: Result<EvalStats<'a>, EvalDataError>)
    ensures
        match stats {
            Ok(stats) => {
                &&& hydra_eval@.failed_error() is None
                &&& is_stable_sort(job_views(stats.failed_jobs@), hydra_eval@.failed())
                &&& match stats.successful {
                    None => !cli.list_successful,
                    Some(drvs) => cli.list_successful && deps::paths(drvs@)
                        == hydra_eval@.successful(),
                }
                &&& match stats.eval_failures {
                    None => !cli.eval_failures,
                    Some(Ok(report)) => cli.eval_failures && eval::first_error(
                        failure_checks(hydra_eval@.jobs),
                    ) is None && report@ == failure_report(failures_among(hydra_eval@.jobs)),
                    Some(Err(error)) => cli.eval_failures && eval::first_error(
                        failure_checks(hydra_eval@.jobs),
                    ) == Some(error),
                }
            },
            Err(error) => hydra_eval@.failed_error() == Some(error),
        },
{
    let failed_jobs = match hydra_eval.get_failed_build_stats() {
        Ok(failed_jobs) => sort_by_dependents(failed_jobs),
        Err(error) => {
            return Err(error);
        },
    };
    let successful = if cli.list_successful {
        Some(hydra_eval.get_successful_builds())
    } else {
        None
    };
    let eval_failures = if cli.eval_failures {
        Some(print_eval_failure_summary(&hydra_eval.eval_jobs, analyzer))
    } else {
        None
    };
    Ok(EvalStats { failed_jobs, successful, eval_failures })
}

} // verus!

//! An evaluation as fetched from Hydra and from Nix, and what can be read from it.

use crate::deps;
use crate::deps::{dependent_job_counts, Graph, JobDeps};
use crate::json::{Json, JsonModel};
use crate::outcomes;
use crate::outcomes::all_or_first_error;
use crate::status;
use crate::status::{BuildInfo, BuildModel, EvalInfo, HydraAttrStatus, HydraBuild, StatusModel};
use crate::summary::{HydraEvalSummary, SummaryModel};
use crate::table::Table;
use vstd::prelude::*;
use vstd::string::*;

verus! {

/// An evaluation: the builds that Hydra has for it, and its jobs as Nix evaluates them.
pub struct HydraEval {
    pub eval_id: u64,
    pub distro: Option<String>,
    pub hydra_builds: Vec<Json>,
    pub eval_jobs: Vec<Json>,
}

/// The mathematical content of a [`HydraEval`].
pub struct EvalModel {
    pub eval_id: u64,
    pub distro: Option<Seq<char>>,
    pub builds: Seq<JsonModel>,
    pub jobs: Seq<JsonModel>,
}

/// A list of documents, as their content.
pub open spec fn json_views(documents: Seq<Json>) -> Seq<JsonModel> {
    documents.map_values(|json: Json| json@)
}

impl View for HydraEval {
    type V = EvalModel;

    open spec fn view(&self) -> EvalModel {
        EvalModel {
            eval_id: self.eval_id,
            distro: match self.distro {
                Some(distro) => Some(distro@),
                None => None,
            },
            builds: json_views(self.hydra_builds@),
            jobs: json_views(self.eval_jobs@),
        }
    }
}

impl HydraEval {
    /// Puts an evaluation together from the outcomes of fetching its builds and of evaluating its
    /// jobs. The first build that could not be fetched comes before the jobs.
    pub fn from_parts<E>(
        eval_id: u64,
        distro: Option<String>,
        builds: Vec<Result<Json, E>>,
        jobs: Result<Vec<Json>, E>,
    ) -> (eval: Result<HydraEval, E>)
        ensures
            match outcomes::first_failure(builds@) {
                Some(error) => eval == Err::<HydraEval, E>(error),
                None => match (jobs, eval) {
                    (Ok(jobs), Ok(eval)) => {
                        &&& eval.eval_id == eval_id
                        &&& eval.distro == distro
                        &&& eval.hydra_builds@ == outcomes::successes(builds@)
                        &&& eval.eval_jobs == jobs
                    },
                    (Err(a), Err(b)) => a == b,
                    _ => false,
                },
            },
    {
        let hydra_builds = match all_or_first_error(builds) {
            Ok(hydra_builds) => hydra_builds,
            Err(error) => {
                return Err(error);
            },
        };
        match jobs {
            Ok(eval_jobs) => Ok(HydraEval { eval_id, distro, hydra_builds, eval_jobs }),
            Err(error) => Err(error),
        }
    }
}

/// What an evaluation lacks. Builds and jobs are given by their position.
pub enum EvalDataError {
    /// A build does not say which job it is for.
    NoJobName(usize),
    /// A build lacks a part, or has one of the wrong kind.
    NoBuild(usize),
    /// A failed build does not say which derivation it is of.
    NoBuildDrvPath(usize),
    /// The inputs of a job are no object.
    NoInputs(usize),
    /// A job with inputs does not say which derivation it is.
    NoDrvPath(usize),
    /// A job does not say which attribute it is for.
    NoAttr(usize),
}

/// The first error that a series of checks finds.
pub open spec fn first_error(checks: Seq<Option<EvalDataError>>) -> Option<EvalDataError>
    decreases checks.len(),
{
    if checks.len() == 0 {
        None
    } else {
        match first_error(checks.drop_last()) {
            Some(error) => Some(error),
            None => checks.last(),
        }
    }
}

/// The first of two errors.
pub open spec fn either_error(a: Option<EvalDataError>, b: Option<EvalDataError>) -> Option<
    EvalDataError,
> {
    match a {
        Some(error) => Some(error),
        None => b,
    }
}

/// What a check finds decides unless an earlier check has found something.
pub proof fn lemma_first_error_at(checks: Seq<Option<EvalDataError>>, n: int)
    requires
        0 <= n < checks.len(),
        first_error(checks.take(n)) is None,
    ensures
        first_error(checks.take(n + 1)) == checks[n],
        checks[n] is Some ==> first_error(checks) == checks[n],
    decreases checks.len(),
{
    assert(checks.take(n + 1).drop_last() =~= checks.take(n));
    if checks[n] is Some {
        if n + 1 == checks.len() {
            assert(checks.take(n + 1) =~= checks);
        } else {
            let rest = checks.drop_last();
            assert(rest.take(n) =~= checks.take(n));
            lemma_first_error_at(rest, n);
        }
    }
}

// ---- dependencies between jobs ----

/// What is wrong with the inputs of a job. A job without inputs failed to evaluate.
pub open spec fn inputs_check(job: JsonModel, i: int) -> Option<EvalDataError> {
    match job.field("inputDrvs"@) {
        None => None,
        Some(JsonModel::Object(fields)) => if fields.len() > 0 && job.at("drvPath"@).as_text() is None {
            Some(EvalDataError::NoDrvPath(i as usize))
        } else {
            None
        },
        Some(_) => Some(EvalDataError::NoInputs(i as usize)),
    }
}

/// What is wrong with the inputs of jobs.
pub open spec fn inputs_checks(jobs: Seq<JsonModel>) -> Seq<Option<EvalDataError>> {
    Seq::new(jobs.len(), |i: int| inputs_check(jobs[i], i))
}

/// One derivation being an input of another.
pub struct Edge {
    pub input: Seq<char>,
    pub user: Seq<char>,
}

/// The inputs of a job.
pub open spec fn job_edges(job: JsonModel) -> Seq<Edge> {
    match job.field("inputDrvs"@) {
        Some(JsonModel::Object(fields)) => fields.map_values(
            |f: (Seq<char>, JsonModel)|
                Edge { input: f.0, user: job.at("drvPath"@).as_text()->0 },
        ),
        _ => Seq::empty(),
    }
}

/// The inputs of all jobs.
pub open spec fn edges(jobs: Seq<JsonModel>) -> Seq<Edge>
    decreases jobs.len(),
{
    if jobs.len() == 0 {
        Seq::empty()
    } else {
        edges(jobs.drop_last()) + job_edges(jobs.last())
    }
}

/// The derivations that have `input` among their inputs, in the order of the edges.
pub open spec fn users_of(edges: Seq<Edge>, input: Seq<char>) -> Seq<Seq<char>> {
    edges.filter(|e: Edge| e.input == input).map_values(|e: Edge| e.user)
}

/// The derivations that are an input of something.
pub open spec fn inputs_in(edges: Seq<Edge>) -> Set<Seq<char>> {
    Set::new(
        |input: Seq<char>|
            exists|i: int| 0 <= i < edges.len() && (#[trigger] edges[i]).input == input,
    )
}

/// The graph with the given edges.
pub open spec fn graph_with(edges: Seq<Edge>) -> Graph {
    Map::new(
        |input: Seq<char>| inputs_in(edges).contains(input),
        |input: Seq<char>| users_of(edges, input),
    )
}

/// What one more edge adds.
proof fn lemma_edge_added(edges: Seq<Edge>, edge: Edge)
    ensures
        inputs_in(edges.push(edge)) == inputs_in(edges).insert(edge.input),
        forall|input: Seq<char>| #[trigger]
            users_of(edges.push(edge), input) == (if input == edge.input {
                users_of(edges, input).push(edge.user)
            } else {
                users_of(edges, input)
            }),
{
    let more = edges.push(edge);
    assert forall|input: Seq<char>|
        inputs_in(more).contains(input) == inputs_in(edges).insert(edge.input).contains(input) by {
        if inputs_in(more).contains(input) && input != edge.input {
            let i = choose|i: int| 0 <= i < more.len() && (#[trigger] more[i]).input == input;
            assert(edges[i].input == input);
        }
        if inputs_in(edges).contains(input) {
            let i = choose|i: int| 0 <= i < edges.len() && (#[trigger] edges[i]).input == input;
            assert(more[i].input == input);
        }
        assert(more[edges.len() as int] == edge);
    }
    assert(inputs_in(more) =~= inputs_in(edges).insert(edge.input));
    assert forall|input: Seq<char>| #[trigger]
        users_of(more, input) == (if input == edge.input {
            users_of(edges, input).push(edge.user)
        } else {
            users_of(edges, input)
        }) by {
        reveal(Seq::filter);
        let same = |e: Edge| e.input == input;
        let user = |e: Edge| e.user;
        assert(more.drop_last() =~= edges);
        assert(edges.filter(same).push(edge).map_values(user) =~= edges.filter(same).map_values(
            user,
        ).push(edge.user));
    }
}

/// The table holds the users of each input.
spec fn tells_edges(table: JobDeps, edges: Seq<Edge>) -> bool {
    &&& table@.dom() == inputs_in(edges)
    &&& forall|input: Seq<char>| #[trigger] deps::paths(table.items(input)) == users_of(edges, input)
}

proof fn lemma_table_is_graph(table: JobDeps, edges: Seq<Edge>)
    requires
        tells_edges(table, edges),
    ensures
        deps::graph_of(table) == graph_with(edges),
{
    assert forall|input: Seq<char>| table@.contains_key(input) implies deps::graph_of(table)[input]
        == graph_with(edges)[input] by {
        assert(deps::paths(table.items(input)) == users_of(edges, input));
    }
    assert(deps::graph_of(table) =~= graph_with(edges));
}

/// Enters the inputs of one job.
fn add_inputs<'a>(
    table: &mut JobDeps<'a>,
    fields: &'a Vec<(String, Json)>,
    drv: &'a str,
    Ghost(known): Ghost<Seq<Edge>>,
)
    requires
        tells_edges(*old(table), known),
    ensures
        tells_edges(
            *final(table),
            known + fields@.map_values(|f: (String, Json)| Edge { input: f.0@, user: drv@ }),
        ),
{
    let ghost own = fields@.map_values(|f: (String, Json)| Edge { input: f.0@, user: drv@ });
    let mut i: usize = 0;
    assert(known + own.take(0) =~= known);
    while i < fields.len()
        invariant
            i <= fields@.len(),
            own == fields@.map_values(|f: (String, Json)| Edge { input: f.0@, user: drv@ }),
            tells_edges(*table, known + own.take(i as int)),
        decreases fields.len() - i,
    {
        let ghost before = *table;
        let ghost so_far = known + own.take(i as int);
        table.add(fields[i].0.as_str(), drv);
        proof {
            let edge = own[i as int];
            assert(known + own.take(i + 1) =~= so_far.push(edge));
            lemma_edge_added(so_far, edge);
            assert forall|input: Seq<char>| #[trigger]
                deps::paths(table.items(input)) == users_of(so_far.push(edge), input) by {
                assert(deps::paths(before.items(input)) == users_of(so_far, input));
                if input == edge.input {
                    assert(deps::paths(before.items(input).push(drv)) =~= deps::paths(
                        before.items(input),
                    ).push(drv@));
                }
            }
        }
        i += 1;
    }
    assert(own.take(i as int) =~= own);
}

impl HydraEval {
    /// For every derivation, the jobs that have it among their inputs.
    pub fn get_eval_job_deps<'a>(&'a self) -> (table: Result<JobDeps<'a>, EvalDataError>)
        ensures
            match table {
                Ok(table) => first_error(inputs_checks(self@.jobs)) is None && deps::graph_of(table)
                    == graph_with(edges(self@.jobs)),
                Err(error) => first_error(inputs_checks(self@.jobs)) == Some(error),
            },
    {
        let ghost jobs = self@.jobs;
        let ghost checks = inputs_checks(jobs);
        let mut table: JobDeps<'a> = Table::new();
        let mut i: usize = 0;
        proof {
            reveal(Seq::filter);
            assert(jobs.take(0) =~= Seq::empty());
            assert(table@.dom() =~= inputs_in(edges(jobs.take(0))));
            assert forall|input: Seq<char>| #[trigger]
                deps::paths(table.items(input)) == users_of(edges(jobs.take(0)), input) by {
                assert(deps::paths(table.items(input)) =~= users_of(edges(jobs.take(0)), input));
            }
        }
        while i < self.eval_jobs.len()
            invariant
                i <= self.eval_jobs@.len(),
                jobs == self@.jobs,
                checks == inputs_checks(jobs),
                first_error(checks.take(i as int)) is None,
                tells_edges(table, edges(jobs.take(i as int))),
            decreases self.eval_jobs.len() - i,
        {
            let job = &self.eval_jobs[i];
            proof {
                assert(jobs[i as int] == job@);
                assert(jobs.take(i + 1).drop_last() =~= jobs.take(i as int));
                lemma_first_error_at(checks, i as int);
            }
            let ghost known = edges(jobs.take(i as int));
            match job.get("inputDrvs") {
                None => {
                    assert(known + job_edges(job@) =~= known);
                },
                Some(inputs) => match inputs {
                    Json::Object(fields) => {
                        if fields.len() > 0 {
                            let drv = match job.text_at("drvPath") {
                                Some(drv) => drv,
                                None => {
                                    return Err(EvalDataError::NoDrvPath(i));
                                },
                            };
                            add_inputs(&mut table, fields, drv, Ghost(known));
                            assert(fields@.map_values(
                                |f: (String, Json)| Edge { input: f.0@, user: drv@ },
                            ) =~= job_edges(job@));
                        } else {
                            assert(known + job_edges(job@) =~= known);
                        }
                    },
                    _ => {
                        return Err(EvalDataError::NoInputs(i));
                    },
                },
            }
            i += 1;
        }
        proof {
            assert(jobs.take(i as int) =~= jobs);
            assert(checks.take(i as int) =~= checks);
            lemma_table_is_graph(table, edges(jobs));
        }
        Ok(table)
    }
}

// ---- the state of the attributes ----

/// What is wrong with a build.
pub open spec fn build_check(build: JsonModel, i: int) -> Option<EvalDataError> {
    if build.at("job"@).as_text() is None {
        Some(EvalDataError::NoJobName(i as usize))
    } else if status::build_in(build) is None {
        Some(EvalDataError::NoBuild(i as usize))
    } else {
        None
    }
}

/// What is wrong with builds.
pub open spec fn build_checks(builds: Seq<JsonModel>) -> Seq<Option<EvalDataError>> {
    Seq::new(builds.len(), |i: int| build_check(builds[i], i))
}

/// What is wrong with the name of a job.
pub open spec fn attr_check(job: JsonModel, i: int) -> Option<EvalDataError> {
    if job.at("attr"@).as_text() is None {
        Some(EvalDataError::NoAttr(i as usize))
    } else {
        None
    }
}

/// What is wrong with the names of jobs.
pub open spec fn attr_checks(jobs: Seq<JsonModel>) -> Seq<Option<EvalDataError>> {
    Seq::new(jobs.len(), |i: int| attr_check(jobs[i], i))
}

/// The builds by the jobs that they are for; the last one counts.
pub open spec fn builds_by_job(builds: Seq<JsonModel>) -> Map<Seq<char>, BuildModel>
    decreases builds.len(),
{
    if builds.len() == 0 {
        Map::empty()
    } else {
        builds_by_job(builds.drop_last()).insert(
            builds.last().at("job"@).as_text()->0,
            status::build_in(builds.last())->0,
        )
    }
}

/// How many jobs depend on a derivation.
pub open spec fn dependents_info(graph: Graph, drv: Seq<char>) -> EvalInfo {
    EvalInfo {
        direct_deps: deps::within(graph, drv, 1).len() as usize,
        all_deps: deps::closure(graph, drv).len() as usize,
    }
}

/// What is said of a build: its dependents are counted only if it did not succeed.
pub open spec fn build_status(graph: Graph, build: BuildModel) -> StatusModel {
    StatusModel::Build(
        if build.succeeded() {
            EvalInfo { direct_deps: 0, all_deps: 0 }
        } else {
            dependents_info(graph, build.drvpath)
        },
        build,
    )
}

/// The state of the attribute of a job.
pub open spec fn job_status(
    job: JsonModel,
    builds: Map<Seq<char>, BuildModel>,
    graph: Graph,
) -> StatusModel {
    match job.at("error"@).as_text() {
        Some(error) => StatusModel::EvalError(error),
        None => {
            let attr = job.at("attr"@).as_text()->0;
            if builds.contains_key(attr) {
                build_status(graph, builds[attr])
            } else {
                StatusModel::Unbuilt
            }
        },
    }
}

/// The states of the attributes of jobs; the last job for an attribute counts.
pub open spec fn job_statuses(
    jobs: Seq<JsonModel>,
    builds: Map<Seq<char>, BuildModel>,
    graph: Graph,
) -> Map<Seq<char>, StatusModel>
    decreases jobs.len(),
{
    if jobs.len() == 0 {
        Map::empty()
    } else {
        job_statuses(jobs.drop_last(), builds, graph).insert(
            jobs.last().at("attr"@).as_text()->0,
            job_status(jobs.last(), builds, graph),
        )
    }
}

impl EvalModel {
    /// For every derivation, the jobs that have it among their inputs.
    pub open spec fn graph(self) -> Graph {
        graph_with(edges(self.jobs))
    }

    /// What keeps the evaluation from being summed up.
    pub open spec fn summary_error(self) -> Option<EvalDataError> {
        either_error(
            first_error(build_checks(self.builds)),
            either_error(
                first_error(inputs_checks(self.jobs)),
                first_error(attr_checks(self.jobs)),
            ),
        )
    }

    /// What the evaluation comes to.
    pub open spec fn summed_up(self) -> SummaryModel {
        SummaryModel {
            eval_id: self.eval_id,
            distro: self.distro,
            attrs: job_statuses(self.jobs, builds_by_job(self.builds), self.graph()),
        }
    }
}

/// Counts the jobs that depend on a derivation.
fn count_dependents<'a>(drv: &'a str, jobs: &JobDeps<'a>) -> (info: EvalInfo)
    ensures
        info == dependents_info(deps::graph_of(*jobs), drv@),
{
    let counts = dependent_job_counts(drv, jobs);
    EvalInfo { direct_deps: counts[0], all_deps: counts[counts.len() - 1] }
}

/// The content of a table of builds.
spec fn table_builds(table: Table<HydraBuild>) -> Map<Seq<char>, BuildModel> {
    table@.map_values(|build: HydraBuild| build@)
}

/// The content of a table of states.
spec fn table_statuses(table: Table<HydraAttrStatus>) -> Map<Seq<char>, StatusModel> {
    table@.map_values(|status: HydraAttrStatus| status@)
}

impl HydraEval {
    /// The builds by the jobs that they are for.
    fn collect_builds<'a>(&'a self) -> (table: Result<Table<'a, HydraBuild>, EvalDataError>)
        ensures
            match table {
                Ok(table) => first_error(build_checks(self@.builds)) is None && table_builds(table)
                    == builds_by_job(self@.builds),
                Err(error) => first_error(build_checks(self@.builds)) == Some(error),
            },
    {
        let ghost builds = self@.builds;
        let ghost checks = build_checks(builds);
        let mut table: Table<'a, HydraBuild> = Table::new();
        let mut i: usize = 0;
        assert(table_builds(table) =~= builds_by_job(builds.take(0)));
        while i < self.hydra_builds.len()
            invariant
                i <= self.hydra_builds@.len(),
                builds == self@.builds,
                checks == build_checks(builds),
                first_error(checks.take(i as int)) is None,
                table_builds(table) == builds_by_job(builds.take(i as int)),
            decreases self.hydra_builds.len() - i,
        {
            let build = &self.hydra_builds[i];
            proof {
                assert(builds[i as int] == build@);
                assert(builds.take(i + 1).drop_last() =~= builds.take(i as int));
                lemma_first_error_at(checks, i as int);
            }
            let job = match build.text_at("job") {
                Some(job) => job,
                None => {
                    return Err(EvalDataError::NoJobName(i));
                },
            };
            match HydraBuild::from_json(build) {
                Some(build) => {
                    let ghost before = table;
                    table.insert(job, build);
                    assert(table_builds(table) =~= table_builds(before).insert(job@, build@));
                },
                None => {
                    return Err(EvalDataError::NoBuild(i));
                },
            }
            i += 1;
        }
        assert(builds.take(i as int) =~= builds);
        assert(checks.take(i as int) =~= checks);
        Ok(table)
    }

    /// What the evaluation comes to.
    pub fn summary<'a>(&'a self) -> (summary: Result<HydraEvalSummary<'a>, EvalDataError>)
        ensures
            match summary {
                Ok(summary) => self@.summary_error() is None && summary@ == self@.summed_up(),
                Err(error) => self@.summary_error() == Some(error),
            },
    {
        let builds = match self.collect_builds() {
            Ok(builds) => builds,
            Err(error) => {
                return Err(error);
            },
        };
        let job_deps = match self.get_eval_job_deps() {
            Ok(job_deps) => job_deps,
            Err(error) => {
                return Err(error);
            },
        };
        let ghost jobs = self@.jobs;
        let ghost checks = attr_checks(jobs);
        let ghost known = builds_by_job(self@.builds);
        let ghost graph = self@.graph();
        let mut attrs: Table<'a, HydraAttrStatus<'a>> = Table::new();
        let mut i: usize = 0;
        assert(table_statuses(attrs) =~= job_statuses(jobs.take(0), known, graph));
        while i < self.eval_jobs.len()
            invariant
                i <= self.eval_jobs@.len(),
                jobs == self@.jobs,
                checks == attr_checks(jobs),
                known == table_builds(builds),
                graph == deps::graph_of(job_deps),
                first_error(build_checks(self@.builds)) is None,
                first_error(inputs_checks(self@.jobs)) is None,
                first_error(checks.take(i as int)) is None,
                table_statuses(attrs) == job_statuses(jobs.take(i as int), known, graph),
            decreases self.eval_jobs.len() - i,
        {
            let job = &self.eval_jobs[i];
            proof {
                assert(jobs[i as int] == job@);
                assert(jobs.take(i + 1).drop_last() =~= jobs.take(i as int));
                lemma_first_error_at(checks, i as int);
            }
            let attr = match job.text_at("attr") {
                Some(attr) => attr,
                None => {
                    return Err(EvalDataError::NoAttr(i));
                },
            };
            let status = match job.text_at("error") {
                Some(error) => HydraAttrStatus::EvalError(error),
                None => match builds.get(attr) {
                    Some(build) => {
                        assert(known[attr@] == build@);
                        let eval = if build.success() {
                            EvalInfo { direct_deps: 0, all_deps: 0 }
                        } else {
                            count_dependents(build.drvpath.as_str(), &job_deps)
                        };
                        HydraAttrStatus::Build(BuildInfo { eval, hydra: build.clone() })
                    },
                    None => HydraAttrStatus::Unbuilt,
                },
            };
            assert(status@ == job_status(job@, known, graph));
            let ghost before = attrs;
            attrs.insert(attr, status);
            assert(table_statuses(attrs) =~= table_statuses(before).insert(attr@, status@));
            i += 1;
        }
        assert(jobs.take(i as int) =~= jobs);
        assert(checks.take(i as int) =~= checks);
        let distro: Option<&'a str> = match &self.distro {
            Some(distro) => Some(distro.as_str()),
            None => None,
        };
        Ok(HydraEvalSummary { eval_id: self.eval_id, distro, attrs })
    }
}

} // verus!

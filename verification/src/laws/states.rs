//! What holds of the state of an attribute and of the dependents of a build.

use crate::deps;
use crate::deps::Graph;
use crate::eval;
use crate::eval::{Edge, EvalDataError, EvalModel};
use crate::json::{JsonModel, NumberModel};
use crate::laws;
use crate::laws::documents;
use crate::stats;
use crate::status;
use crate::status::{BuildModel, CiChange, EvalInfo, Standing, StatusModel};
use crate::text;
use vstd::prelude::*;
use vstd::set_lib::*;
use vstd::string::*;

verus! {

// ---- checks ----

/// If a series of checks finds nothing, no check does.
pub(crate) proof fn lemma_no_error(checks: Seq<Option<EvalDataError>>)
    ensures
        eval::first_error(checks) is None <==> forall|i: int|
            0 <= i < checks.len() ==> (#[trigger] checks[i]) is None,
    decreases checks.len(),
{
    if checks.len() > 0 {
        let fewer = checks.drop_last();
        lemma_no_error(fewer);
        if eval::first_error(checks) is None {
            assert forall|i: int| 0 <= i < checks.len() implies (#[trigger] checks[i]) is None by {
                if i < fewer.len() {
                    assert(fewer[i] is None);
                }
            }
        }
        if forall|i: int| 0 <= i < checks.len() ==> (#[trigger] checks[i]) is None {
            assert forall|i: int| 0 <= i < fewer.len() implies (#[trigger] fewer[i]) is None by {
                assert(checks[i] is None);
            }
            assert(checks[checks.len() - 1] is None);
        }
    }
}

// ---- dependents ----

/// A job says that its derivation, `user`, has `input` among its inputs.
pub open spec fn job_takes(job: JsonModel, input: Seq<char>, user: Seq<char>) -> bool {
    &&& documents::holds(job, "drvPath"@, JsonModel::Text(user))
    &&& exists|fields: Seq<(Seq<char>, JsonModel)>, k: int|
        #![trigger documents::holds(job, "inputDrvs"@, JsonModel::Object(fields)), fields[k]]
        documents::holds(job, "inputDrvs"@, JsonModel::Object(fields)) && 0 <= k < fields.len() && fields[k].0
            == input
}

/// Some job says that `user` has `input` among its inputs.
pub open spec fn some_job_takes(jobs: Seq<JsonModel>, input: Seq<char>, user: Seq<char>) -> bool {
    exists|i: int| 0 <= i < jobs.len() && job_takes(#[trigger] jobs[i], input, user)
}

/// A chain of derivations, each having the one before it among its inputs.
pub open spec fn job_chain(jobs: Seq<JsonModel>, chain: Seq<Seq<char>>) -> bool {
    &&& chain.len() >= 1
    &&& forall|i: int|
        0 <= i < chain.len() - 1 ==> some_job_takes(jobs, #[trigger] chain[i], chain[i + 1])
}

/// A derivation with everything that a chain of any length leads to from it.
pub open spec fn reached(jobs: Seq<JsonModel>, drv: Seq<char>) -> Set<Seq<char>> {
    Set::new(
        |user: Seq<char>|
            exists|chain: Seq<Seq<char>>| #[trigger]
                job_chain(jobs, chain) && chain[0] == drv && chain[chain.len() - 1] == user,
    )
}

/// A derivation with everything that has it among its inputs.
pub open spec fn reached_directly(jobs: Seq<JsonModel>, drv: Seq<char>) -> Set<Seq<char>> {
    Set::new(|user: Seq<char>| user == drv || some_job_takes(jobs, drv, user))
}

/// The inputs of the jobs can be read.
pub open spec fn inputs_readable(jobs: Seq<JsonModel>) -> bool {
    eval::first_error(eval::inputs_checks(jobs)) is None
}

/// The edges of a job are what it says.
proof fn lemma_job_edges(job: JsonModel, i: int, input: Seq<char>, user: Seq<char>)
    requires
        eval::inputs_check(job, i) is None,
    ensures
        eval::job_edges(job).contains(Edge { input, user }) <==> job_takes(job, input, user),
{
    let edge = Edge { input, user };
    let all = eval::job_edges(job);
    documents::law_field_is_first_of_its_name(job, "drvPath"@, JsonModel::Text(user));
    if all.contains(edge) {
        let fields = job.field("inputDrvs"@)->0->Object_0;
        documents::law_field_is_first_of_its_name(job, "inputDrvs"@, JsonModel::Object(fields));
        let k = choose|k: int| 0 <= k < all.len() && all[k] == edge;
        assert(fields[k].0 == input);
        assert(job.at("drvPath"@).as_text() == Some(user));
        assert(documents::holds(job, "inputDrvs"@, JsonModel::Object(fields)) && fields[k].0 == input);
    }
    if job_takes(job, input, user) {
        let (fields, k) = choose|fields: Seq<(Seq<char>, JsonModel)>, k: int|
            #![trigger documents::holds(job, "inputDrvs"@, JsonModel::Object(fields)), fields[k]]
            documents::holds(job, "inputDrvs"@, JsonModel::Object(fields)) && 0 <= k < fields.len()
                && fields[k].0 == input;
        documents::law_field_is_first_of_its_name(job, "inputDrvs"@, JsonModel::Object(fields));
        assert(all[k] == edge);
    }
}

/// The graph of jobs has the edges that the jobs name.
proof fn lemma_graph_tells_jobs(jobs: Seq<JsonModel>, input: Seq<char>, user: Seq<char>)
    requires
        inputs_readable(jobs),
    ensures
        deps::depends(eval::graph_with(eval::edges(jobs)), input, user) <==> some_job_takes(
            jobs,
            input,
            user,
        ),
{
    let checks = eval::inputs_checks(jobs);
    lemma_no_error(checks);
    laws::law_graph_tells_inputs_of_jobs(jobs, input, user);
    let edge = Edge { input, user };
    if some_job_takes(jobs, input, user) {
        let i = choose|i: int| 0 <= i < jobs.len() && job_takes(#[trigger] jobs[i], input, user);
        assert(checks[i] is None);
        lemma_job_edges(jobs[i], i, input, user);
        assert(eval::job_edges(jobs[i]).contains(edge));
    }
    if exists|i: int| 0 <= i < jobs.len() && (#[trigger] eval::job_edges(jobs[i])).contains(edge) {
        let i = choose|i: int|
            0 <= i < jobs.len() && (#[trigger] eval::job_edges(jobs[i])).contains(edge);
        assert(checks[i] is None);
        lemma_job_edges(jobs[i], i, input, user);
        assert(job_takes(jobs[i], input, user));
    }
}

/// The closure in the graph of jobs is everything that a chain of jobs leads to.
proof fn lemma_closure_is_reached(jobs: Seq<JsonModel>, drv: Seq<char>)
    requires
        inputs_readable(jobs),
    ensures
        deps::closure(eval::graph_with(eval::edges(jobs)), drv) == reached(jobs, drv),
        deps::within(eval::graph_with(eval::edges(jobs)), drv, 1) == reached_directly(jobs, drv),
{
    let graph = eval::graph_with(eval::edges(jobs));
    assert forall|chain: Seq<Seq<char>>| deps::is_chain(graph, chain) <==> #[trigger] job_chain(
        jobs,
        chain,
    ) by {
        if deps::is_chain(graph, chain) {
            assert forall|i: int| 0 <= i < chain.len() - 1 implies some_job_takes(
                jobs,
                #[trigger] chain[i],
                chain[i + 1],
            ) by {
                lemma_graph_tells_jobs(jobs, chain[i], chain[i + 1]);
            }
        }
        if job_chain(jobs, chain) {
            assert forall|i: int| 0 <= i < chain.len() - 1 implies deps::depends(
                graph,
                #[trigger] chain[i],
                chain[i + 1],
            ) by {
                lemma_graph_tells_jobs(jobs, chain[i], chain[i + 1]);
            }
        }
    }
    assert forall|user: Seq<char>|
        deps::closure(graph, drv).contains(user) == reached(jobs, drv).contains(user) by {
        deps::law_closure_means_chain(graph, drv, user);
        if deps::closure(graph, drv).contains(user) {
            let chain = choose|chain: Seq<Seq<char>>|
                deps::is_chain(graph, chain) && chain.first() == drv && chain.last() == user;
            assert(job_chain(jobs, chain));
        }
        if reached(jobs, drv).contains(user) {
            let chain = choose|chain: Seq<Seq<char>>| #[trigger]
                job_chain(jobs, chain) && chain[0] == drv && chain[chain.len() - 1] == user;
            assert(deps::is_chain(graph, chain) && chain.first() == drv && chain.last() == user);
        }
    }
    assert(deps::closure(graph, drv) =~= reached(jobs, drv));
    assert forall|user: Seq<char>|
        deps::within(graph, drv, 1).contains(user) == reached_directly(jobs, drv).contains(user) by {
        lemma_graph_tells_jobs(jobs, drv, user);
        assert(deps::within(graph, drv, 0) == set![drv]);
        if deps::depends(graph, drv, user) {
            assert(set![drv].contains(drv) && deps::depends(graph, drv, user));
        }
    }
    assert(deps::within(graph, drv, 1) =~= reached_directly(jobs, drv));
}

/// Chains of jobs lead to finitely many derivations.
proof fn lemma_reached_finite(jobs: Seq<JsonModel>, drv: Seq<char>)
    requires
        inputs_readable(jobs),
    ensures
        reached(jobs, drv).finite(),
        reached_directly(jobs, drv).finite(),
{
    let all = eval::edges(jobs);
    let users = all.map_values(|edge: Edge| edge.user);
    let bound = users.to_set().insert(drv);
    vstd::seq_lib::seq_to_set_is_finite(users);
    assert forall|input: Seq<char>, user: Seq<char>| #[trigger]
        some_job_takes(jobs, input, user) implies bound.contains(user) by {
        lemma_graph_tells_jobs(jobs, input, user);
        laws::lemma_users_on_edges(all, input, user);
        let i = choose|i: int| 0 <= i < all.len() && all[i] == Edge { input, user };
        assert(users[i] == user);
    }
    assert forall|user: Seq<char>| reached(jobs, drv).contains(user) implies bound.contains(user) by {
        let chain = choose|chain: Seq<Seq<char>>| #[trigger]
            job_chain(jobs, chain) && chain[0] == drv && chain[chain.len() - 1] == user;
        if chain.len() > 1 {
            assert(some_job_takes(jobs, chain[chain.len() - 2], chain[chain.len() - 2 + 1]));
        }
    }
    assert(reached(jobs, drv).subset_of(bound));
    assert(reached_directly(jobs, drv).subset_of(bound));
    lemma_set_subset_finite(bound, reached(jobs, drv));
    lemma_set_subset_finite(bound, reached_directly(jobs, drv));
}

/// The dependents of a derivation are counted as far as any chain of jobs leads, the direct ones
/// as those that have it among their inputs.
pub proof fn law_all_dependents_are_counted(jobs: Seq<JsonModel>, drv: Seq<char>)
    requires
        inputs_readable(jobs),
    ensures
        ({
            let info = eval::dependents_info(eval::graph_with(eval::edges(jobs)), drv);
            &&& reached(jobs, drv).finite()
            &&& reached_directly(jobs, drv).finite()
            &&& reached(jobs, drv).len() <= usize::MAX ==> info.all_deps == reached(jobs, drv).len()
            &&& reached_directly(jobs, drv).len() <= usize::MAX ==> info.direct_deps
                == reached_directly(jobs, drv).len()
        }),
{
    lemma_closure_is_reached(jobs, drv);
    lemma_reached_finite(jobs, drv);
}

/// One more job in a chain counts: who has something that is counted among its inputs is counted.
pub proof fn law_chains_go_on(
    jobs: Seq<JsonModel>,
    drv: Seq<char>,
    user: Seq<char>,
    further: Seq<char>,
)
    requires
        reached(jobs, drv).contains(user),
        some_job_takes(jobs, user, further),
    ensures
        reached(jobs, drv).contains(further),
        reached(jobs, drv).contains(drv),
{
    let chain = choose|chain: Seq<Seq<char>>| #[trigger]
        job_chain(jobs, chain) && chain[0] == drv && chain[chain.len() - 1] == user;
    let longer = chain.push(further);
    assert forall|i: int| 0 <= i < longer.len() - 1 implies some_job_takes(
        jobs,
        #[trigger] longer[i],
        longer[i + 1],
    ) by {
        if i < chain.len() - 1 {
            assert(some_job_takes(jobs, chain[i], chain[i + 1]));
        }
    }
    assert(job_chain(jobs, longer) && longer[0] == drv && longer[longer.len() - 1] == further);
    let single = seq![drv];
    assert(job_chain(jobs, single) && single[0] == drv && single[single.len() - 1] == drv);
}

/// The counts for a derivation go from its direct dependents to all of its dependents, and each
/// is that of what chains with so many edges at most lead to.
pub proof fn law_counts_go_to_the_end(graph: Graph, drv: Seq<char>, counts: Seq<usize>, i: int)
    requires
        deps::counts_neighbourhoods(graph, drv, counts),
        0 <= i < counts.len(),
    ensures
        counts[i] == chained(graph, drv, (i + 1) as nat).len(),
        i < counts.len() - 1 ==> counts[i] < counts[i + 1],
        forall|more: nat| #[trigger] chained(graph, drv, more).subset_of(
            chained(graph, drv, counts.len()),
        ),
{
    assert forall|steps: nat| #[trigger] chained(graph, drv, steps) == deps::within(
        graph,
        drv,
        steps,
    ) by {
        assert forall|user: Seq<char>|
            chained(graph, drv, steps).contains(user) == deps::within(graph, drv, steps).contains(
                user,
            ) by {
            deps::law_within_means_chain(graph, drv, user, steps);
        }
        assert(chained(graph, drv, steps) =~= deps::within(graph, drv, steps));
    }
    assert(chained(graph, drv, (i + 1) as nat) == deps::within(graph, drv, (i + 1) as nat));
    assert forall|more: nat| #[trigger] chained(graph, drv, more).subset_of(
        chained(graph, drv, counts.len()),
    ) by {
        deps::lemma_within_saturated(graph, drv, counts.len(), more);
    }
}

/// Everything that a chain with so many edges at most leads to.
pub open spec fn chained(graph: Graph, drv: Seq<char>, steps: nat) -> Set<Seq<char>> {
    Set::new(
        |user: Seq<char>|
            exists|chain: Seq<Seq<char>>| deps::leads(graph, chain, drv, user, steps),
    )
}

// ---- builds ----

/// A field of an object holds this integer.
pub open spec fn integer_at(json: JsonModel, key: Seq<char>, n: int) -> bool {
    exists|number: NumberModel|
        #![trigger documents::holds(json, key, JsonModel::Number(number))]
        documents::holds(json, key, JsonModel::Number(number)) && match number {
            NumberModel::PosInt(u) => u == n,
            NumberModel::NegInt(i) => i == n,
            NumberModel::Float(_) => false,
        }
}

pub(crate) proof fn lemma_integer_at(json: JsonModel, key: Seq<char>, n: i64)
    ensures
        integer_at(json, key, n as int) <==> json.at(key).as_i64() == Some(n),
{
    if integer_at(json, key, n as int) {
        let number = choose|number: NumberModel|
            #![trigger documents::holds(json, key, JsonModel::Number(number))]
            documents::holds(json, key, JsonModel::Number(number)) && match number {
                NumberModel::PosInt(u) => u == n,
                NumberModel::NegInt(i) => i == n,
                NumberModel::Float(_) => false,
            };
        documents::law_field_is_first_of_its_name(json, key, JsonModel::Number(number));
    }
    if let JsonModel::Number(number) = json.at(key) {
        documents::law_field_is_first_of_its_name(json, key, JsonModel::Number(number));
    }
}

/// A document describes a build.
pub open spec fn describes(json: JsonModel, build: BuildModel) -> bool {
    &&& documents::holds(json, "drvpath"@, JsonModel::Text(build.drvpath))
    &&& integer_at(json, "finished"@, build.finished as int)
    &&& integer_at(json, "buildstatus"@, build.buildstatus as int)
    &&& documents::holds(json, "id"@, JsonModel::Number(NumberModel::PosInt(build.id)))
}

/// A build is read from a document exactly if the document describes it.
pub proof fn law_build_is_what_is_described(json: JsonModel, build: BuildModel)
    ensures
        status::build_in(json) == Some(build) <==> describes(json, build),
{
    lemma_integer_at(json, "finished"@, build.finished as i64);
    lemma_integer_at(json, "buildstatus"@, build.buildstatus as i64);
    documents::law_field_is_first_of_its_name(json, "drvpath"@, JsonModel::Text(build.drvpath));
    documents::law_field_is_first_of_its_name(
        json,
        "id"@,
        JsonModel::Number(NumberModel::PosInt(build.id)),
    );
    if status::build_in(json) == Some(build) {
        assert(json.at("drvpath"@) == JsonModel::Text(build.drvpath));
        assert(json.at("id"@) == JsonModel::Number(NumberModel::PosInt(build.id)));
    }
}

/// A build has succeeded exactly if it has finished with the status 0, and was aborted exactly if it
/// has finished with the status 3. Any other status is a failure of a build that was tried.
pub proof fn law_outcome_of_build(build: BuildModel, info: EvalInfo)
    ensures
        build.succeeded() <==> build.finished == 1 && build.buildstatus == 0,
        build.was_aborted() <==> build.finished == 1 && build.buildstatus == 3,
        StatusModel::Build(info, build).standing() == (if build.finished == 1 && build.buildstatus
            == 0 {
            Standing::BuildOk
        } else {
            Standing::BuildFailed
        }),
        StatusModel::Build(info, build).is_aborted() <==> build.finished == 1 && build.buildstatus
            == 3,
{
}

/// An attribute that has no build is not aborted, and stands as its state says.
pub proof fn law_standing_without_build(error: Seq<char>)
    ensures
        StatusModel::EvalError(error).standing() == Standing::EvalError,
        StatusModel::Unbuilt.standing() == Standing::Unbuilt,
        !StatusModel::EvalError(error).is_aborted(),
        !StatusModel::Unbuilt.is_aborted(),
{
}

/// The page of a build ends with its number.
pub proof fn law_page_of_build(build: BuildModel)
    ensures
        build.page().take(38) == "https://hydra.iid.ciirc.cvut.cz/build/"@,
        laws::texts::number_of(build.page().skip(38)) == build.id,
{
    reveal_strlit("https://hydra.iid.ciirc.cvut.cz/build/");
    laws::texts::law_decimal_reads_back(build.id as nat);
    assert(build.page().take(38) =~= "https://hydra.iid.ciirc.cvut.cz/build/"@);
    assert(build.page().skip(38) =~= text::decimal(build.id as nat));
}

/// What is said of an aborted build names the attribute and the page of the build.
pub proof fn law_aborted_build_is_named(attr: Seq<char>, build: BuildModel)
    ensures
        status::abortion_notice(attr, build) == "attribute "@ + attr + " aborted in, see "@
            + build.page(),
{
}

// ---- the state of an attribute ----

/// A job is for an attribute.
pub open spec fn job_is_for(job: JsonModel, attr: Seq<char>) -> bool {
    documents::holds(job, "attr"@, JsonModel::Text(attr))
}

/// A build is for a job.
pub open spec fn build_is_for(build: JsonModel, attr: Seq<char>) -> bool {
    documents::holds(build, "job"@, JsonModel::Text(attr))
}

/// The job at a place is the last one for an attribute.
pub open spec fn last_job_for(jobs: Seq<JsonModel>, attr: Seq<char>, i: int) -> bool {
    &&& 0 <= i < jobs.len()
    &&& job_is_for(jobs[i], attr)
    &&& forall|j: int| i < j < jobs.len() ==> !job_is_for(#[trigger] jobs[j], attr)
}

/// The build at a place is the last one for an attribute.
pub open spec fn last_build_for(builds: Seq<JsonModel>, attr: Seq<char>, i: int) -> bool {
    &&& 0 <= i < builds.len()
    &&& build_is_for(builds[i], attr)
    &&& forall|j: int| i < j < builds.len() ==> !build_is_for(#[trigger] builds[j], attr)
}

/// No build is for an attribute.
pub open spec fn no_build_for(builds: Seq<JsonModel>, attr: Seq<char>) -> bool {
    forall|j: int| 0 <= j < builds.len() ==> !build_is_for(#[trigger] builds[j], attr)
}

pub(crate) proof fn lemma_is_for(json: JsonModel, key: Seq<char>, attr: Seq<char>)
    ensures
        documents::holds(json, key, JsonModel::Text(attr)) <==> json.at(key).as_text() == Some(attr),
{
    documents::law_field_is_first_of_its_name(json, key, JsonModel::Text(attr));
    if json.at(key).as_text() == Some(attr) {
        assert(json.at(key) == JsonModel::Text(attr));
    }
}

/// Every attribute of a job is in the summary, and nothing else. An attribute stands with an
/// evaluation error exactly if the last job for it has one, and then with that error.
pub proof fn law_attributes_are_those_of_jobs(eval: EvalModel, attr: Seq<char>)
    requires
        eval.summary_error() is None,
    ensures
        eval.summed_up().attrs.contains_key(attr) <==> exists|i: int|
            last_job_for(eval.jobs, attr, i),
        forall|i: int, error: Seq<char>|
            #![trigger last_job_for(eval.jobs, attr, i), documents::holds(eval.jobs[i], "error"@, JsonModel::Text(error))]
            last_job_for(eval.jobs, attr, i) ==> (documents::holds(
                eval.jobs[i],
                "error"@,
                JsonModel::Text(error),
            ) <==> eval.summed_up().attrs[attr] == StatusModel::EvalError(error)),
{
    let jobs = eval.jobs;
    let builds = eval::builds_by_job(eval.builds);
    let graph = eval.graph();
    laws::law_last_job_decides(jobs, builds, graph, attr);
    let is_for = |i: int| 0 <= i < jobs.len() && jobs[i].at("attr"@).as_text()->0 == attr;
    lemma_no_error(eval::attr_checks(jobs));
    assert forall|i: int| 0 <= i < jobs.len() implies (is_for(i) <==> job_is_for(
        #[trigger] jobs[i],
        attr,
    )) by {
        assert(eval::attr_checks(jobs)[i] is None);
        lemma_is_for(jobs[i], "attr"@, attr);
    }
    if exists|i: int| #[trigger] is_for(i) {
        let i = lemma_last_such(jobs.len() as int, is_for);
        assert(job_is_for(jobs[i], attr));
        assert forall|j: int| i < j < jobs.len() implies !job_is_for(#[trigger] jobs[j], attr) by {
            assert(!is_for(j));
        }
        assert(last_job_for(jobs, attr, i));
    }
    if exists|i: int| last_job_for(jobs, attr, i) {
        let i = choose|i: int| last_job_for(jobs, attr, i);
        assert(is_for(i));
    }
    assert forall|i: int, error: Seq<char>|
        #![trigger last_job_for(jobs, attr, i), documents::holds(jobs[i], "error"@, JsonModel::Text(error))]
        last_job_for(jobs, attr, i) implies (documents::holds(jobs[i], "error"@, JsonModel::Text(error))
        <==> eval.summed_up().attrs[attr] == StatusModel::EvalError(error)) by {
        assert(is_for(i));
        assert forall|j: int| i < j implies !#[trigger] is_for(j) by {
            if j < jobs.len() {
                assert(!job_is_for(jobs[j], attr));
            }
        }
        lemma_is_for(jobs[i], "error"@, error);
        assert(eval.summed_up().attrs[attr] == eval::job_status(jobs[i], builds, graph));
    }
}

/// What an evaluation comes to keeps its number and its distribution.
pub proof fn law_summary_keeps_number_and_distribution(eval: EvalModel)
    ensures
        eval.summed_up().eval_id == eval.eval_id,
        eval.summed_up().distro == eval.distro,
{
}

/// The last place with a property.
proof fn lemma_last_such(n: int, p: spec_fn(int) -> bool) -> (i: int)
    requires
        exists|i: int| #[trigger] p(i),
        forall|i: int| #[trigger] p(i) ==> 0 <= i < n,
    ensures
        p(i),
        forall|j: int| i < j ==> !#[trigger] p(j),
    decreases n,
{
    if p(n - 1) {
        assert forall|j: int| n - 1 < j implies !#[trigger] p(j) by {}
        n - 1
    } else {
        assert forall|i: int| #[trigger] p(i) implies 0 <= i < n - 1 by {}
        assert(n > 0);
        lemma_last_such(n - 1, p)
    }
}

/// An attribute whose last job has no evaluation error is unbuilt exactly if no build is for it.
/// Else its state is the last build for it, as its document describes it, whatever its outcome.
pub proof fn law_attribute_has_its_last_build(eval: EvalModel, attr: Seq<char>, i: int)
    requires
        eval.summary_error() is None,
        last_job_for(eval.jobs, attr, i),
        forall|error: Seq<char>|
            !#[trigger] documents::holds(eval.jobs[i], "error"@, JsonModel::Text(error)),
    ensures
        ({
            let state = eval.summed_up().attrs[attr];
            &&& state is Unbuilt <==> no_build_for(eval.builds, attr)
            &&& state !is EvalError
            &&& forall|k: int| #[trigger]
                last_build_for(eval.builds, attr, k) ==> state is Build && describes(
                    eval.builds[k],
                    state->Build_1,
                )
        }),
{
    let jobs = eval.jobs;
    let builds = eval.builds;
    let by_job = eval::builds_by_job(builds);
    let graph = eval.graph();
    lemma_decided(eval, attr, i);
    assert(jobs[i].at("error"@).as_text() is None) by {
        if let Some(error) = jobs[i].at("error"@).as_text() {
            lemma_is_for(jobs[i], "error"@, error);
        }
    }
    lemma_is_for(jobs[i], "attr"@, attr);
    lemma_builds_by_job(eval, attr);
    let state = eval.summed_up().attrs[attr];
    assert(state == eval::job_status(jobs[i], by_job, graph));
    assert forall|k: int| #[trigger] last_build_for(builds, attr, k) implies state is Build
        && describes(builds[k], state->Build_1) by {
        let build = state->Build_1;
        assert(build_is_for(builds[k], attr));
        assert(by_job[attr] == status::build_in(builds[k])->0);
        lemma_no_error(eval::build_checks(builds));
        assert(eval::build_checks(builds)[k] is None);
        law_build_is_what_is_described(builds[k], build);
    }
}

/// The last job for an attribute decides its state.
proof fn lemma_decided(eval: EvalModel, attr: Seq<char>, i: int)
    requires
        eval.summary_error() is None,
        last_job_for(eval.jobs, attr, i),
    ensures
        eval.summed_up().attrs.contains_key(attr),
        eval.summed_up().attrs[attr] == eval::job_status(
            eval.jobs[i],
            eval::builds_by_job(eval.builds),
            eval.graph(),
        ),
{
    let jobs = eval.jobs;
    laws::law_last_job_decides(jobs, eval::builds_by_job(eval.builds), eval.graph(), attr);
    let is_for = |i: int| 0 <= i < jobs.len() && jobs[i].at("attr"@).as_text()->0 == attr;
    lemma_no_error(eval::attr_checks(jobs));
    lemma_is_for(jobs[i], "attr"@, attr);
    assert(is_for(i));
    assert forall|j: int| i < j implies !#[trigger] is_for(j) by {
        if j < jobs.len() {
            assert(eval::attr_checks(jobs)[j] is None);
            lemma_is_for(jobs[j], "attr"@, attr);
            assert(!job_is_for(jobs[j], attr));
        }
    }
}

/// The builds by their jobs are the last builds for them.
proof fn lemma_builds_by_job(eval: EvalModel, attr: Seq<char>)
    requires
        eval.summary_error() is None,
    ensures
        eval::builds_by_job(eval.builds).contains_key(attr) <==> !no_build_for(eval.builds, attr),
        forall|k: int| #[trigger]
            last_build_for(eval.builds, attr, k) ==> eval::builds_by_job(eval.builds)[attr]
                == status::build_in(eval.builds[k])->0,
{
    let builds = eval.builds;
    laws::law_last_build_counts(builds, attr);
    let is_for = |i: int| 0 <= i < builds.len() && builds[i].at("job"@).as_text()->0 == attr;
    lemma_no_error(eval::build_checks(builds));
    assert forall|k: int| 0 <= k < builds.len() implies (is_for(k) <==> build_is_for(
        #[trigger] builds[k],
        attr,
    )) by {
        assert(eval::build_checks(builds)[k] is None);
        lemma_is_for(builds[k], "job"@, attr);
    }
    if exists|k: int| #[trigger] is_for(k) {
        let k = choose|k: int| #[trigger] is_for(k);
        assert(build_is_for(builds[k], attr));
    }
    if !no_build_for(builds, attr) {
        let k = choose|k: int| 0 <= k < builds.len() && build_is_for(#[trigger] builds[k], attr);
        assert(is_for(k));
    }
    assert forall|k: int| #[trigger] last_build_for(builds, attr, k) implies eval::builds_by_job(
        builds,
    )[attr] == status::build_in(builds[k])->0 by {
        assert(is_for(k));
        assert forall|j: int| k < j implies !#[trigger] is_for(j) by {
            if j < builds.len() {
                assert(!build_is_for(builds[j], attr));
            }
        }
    }
}

/// A build that succeeded has no dependents counted. For any other, the counts are those of
/// everything that chains of jobs lead to, and of what has its derivation among its inputs.
pub proof fn law_dependents_of_attribute(
    eval: EvalModel,
    attr: Seq<char>,
    info: EvalInfo,
    build: BuildModel,
)
    requires
        eval.summary_error() is None,
        eval.summed_up().attrs.contains_key(attr),
        eval.summed_up().attrs[attr] == StatusModel::Build(info, build),
    ensures
        build.finished == 1 && build.buildstatus == 0 ==> info.direct_deps == 0 && info.all_deps
            == 0,
        !(build.finished == 1 && build.buildstatus == 0) ==> {
            &&& reached(eval.jobs, build.drvpath).len() <= usize::MAX ==> info.all_deps == reached(
                eval.jobs,
                build.drvpath,
            ).len()
            &&& reached_directly(eval.jobs, build.drvpath).len() <= usize::MAX ==> info.direct_deps
                == reached_directly(eval.jobs, build.drvpath).len()
        },
{
    law_attributes_are_those_of_jobs(eval, attr);
    let i = choose|i: int| last_job_for(eval.jobs, attr, i);
    lemma_decided(eval, attr, i);
    law_all_dependents_are_counted(eval.jobs, build.drvpath);
}

/// A document is for some job and describes some build.
pub open spec fn is_sound_build(build: JsonModel) -> bool {
    &&& exists|attr: Seq<char>| #[trigger] build_is_for(build, attr)
    &&& exists|model: BuildModel| #[trigger] describes(build, model)
}

/// A document is for some attribute and has readable inputs.
pub open spec fn is_sound_job(job: JsonModel) -> bool {
    &&& exists|attr: Seq<char>| #[trigger] job_is_for(job, attr)
    &&& inputs_given(job)
}

/// An evaluation can be summed up exactly if every build is for a job and describes a build, every
/// job is for an attribute, and the inputs of every job are an object, with a derivation to have
/// them unless there are none.
pub proof fn law_what_can_be_summed_up(eval: EvalModel)
    ensures
        eval.summary_error() is None <==> {
            &&& forall|k: int|
                0 <= k < eval.builds.len() ==> is_sound_build(#[trigger] eval.builds[k])
            &&& forall|i: int| 0 <= i < eval.jobs.len() ==> is_sound_job(#[trigger] eval.jobs[i])
        },
{
    let builds = eval.builds;
    let jobs = eval.jobs;
    lemma_no_error(eval::build_checks(builds));
    lemma_no_error(eval::inputs_checks(jobs));
    lemma_no_error(eval::attr_checks(jobs));
    if eval.summary_error() is None {
        assert forall|k: int| 0 <= k < builds.len() implies is_sound_build(#[trigger] builds[k]) by {
            assert(eval::build_checks(builds)[k] is None);
            lemma_sound_build(builds[k], k);
        }
        assert forall|i: int| 0 <= i < jobs.len() implies is_sound_job(#[trigger] jobs[i]) by {
            assert(eval::inputs_checks(jobs)[i] is None);
            assert(eval::attr_checks(jobs)[i] is None);
            lemma_inputs_given(jobs[i], i);
            lemma_has_attr(jobs[i], i);
        }
    }
    if (forall|k: int| 0 <= k < builds.len() ==> is_sound_build(#[trigger] builds[k])) && (forall|
        i: int,
    |
        0 <= i < jobs.len() ==> is_sound_job(#[trigger] jobs[i])) {
        assert forall|k: int| 0 <= k < builds.len() implies (#[trigger] eval::build_checks(
            builds,
        )[k]) is None by {
            lemma_sound_build(builds[k], k);
        }
        assert forall|i: int| 0 <= i < jobs.len() implies (#[trigger] eval::inputs_checks(
            jobs,
        )[i]) is None by {
            lemma_inputs_given(jobs[i], i);
        }
        assert forall|i: int| 0 <= i < jobs.len() implies (#[trigger] eval::attr_checks(
            jobs,
        )[i]) is None by {
            lemma_has_attr(jobs[i], i);
        }
    }
}

pub(crate) proof fn lemma_sound_build(b: JsonModel, k: int)
    ensures
        eval::build_check(b, k) is None <==> is_sound_build(b),
{
    if let Some(attr) = b.at("job"@).as_text() {
        lemma_is_for(b, "job"@, attr);
        assert(build_is_for(b, attr));
    }
    if exists|attr: Seq<char>| #[trigger] build_is_for(b, attr) {
        let attr = choose|attr: Seq<char>| #[trigger] build_is_for(b, attr);
        lemma_is_for(b, "job"@, attr);
    }
    if let Some(build) = status::build_in(b) {
        law_build_is_what_is_described(b, build);
        assert(describes(b, build));
    }
    if exists|build: BuildModel| #[trigger] describes(b, build) {
        let build = choose|build: BuildModel| #[trigger] describes(b, build);
        law_build_is_what_is_described(b, build);
    }
}

pub(crate) proof fn lemma_has_attr(job: JsonModel, i: int)
    ensures
        eval::attr_check(job, i) is None <==> exists|attr: Seq<char>| #[trigger]
            job_is_for(job, attr),
{
    if let Some(attr) = job.at("attr"@).as_text() {
        lemma_is_for(job, "attr"@, attr);
        assert(job_is_for(job, attr));
    }
    if exists|attr: Seq<char>| #[trigger] job_is_for(job, attr) {
        let attr = choose|attr: Seq<char>| #[trigger] job_is_for(job, attr);
        lemma_is_for(job, "attr"@, attr);
    }
}

/// A job has no inputs, or its inputs are an object; if that is not empty, the job has a
/// derivation.
pub open spec fn inputs_given(job: JsonModel) -> bool {
    ||| forall|inputs: JsonModel| !#[trigger] documents::holds(job, "inputDrvs"@, inputs)
    ||| exists|fields: Seq<(Seq<char>, JsonModel)>| #[trigger]
        documents::holds(job, "inputDrvs"@, JsonModel::Object(fields)) && (fields.len() == 0 || exists|
            drv: Seq<char>,
        | #[trigger] documents::holds(job, "drvPath"@, JsonModel::Text(drv)))
}

pub(crate) proof fn lemma_inputs_given(job: JsonModel, i: int)
    ensures
        eval::inputs_check(job, i) is None <==> inputs_given(job),
{
    match job.field("inputDrvs"@) {
        None => {
            assert forall|inputs: JsonModel| !#[trigger] documents::holds(job, "inputDrvs"@, inputs) by {
                documents::law_field_is_first_of_its_name(job, "inputDrvs"@, inputs);
            }
        },
        Some(inputs) => {
            documents::law_field_is_first_of_its_name(job, "inputDrvs"@, inputs);
            assert forall|other: JsonModel| #[trigger] documents::holds(job, "inputDrvs"@, other) implies other
                == inputs by {
                documents::law_field_is_first_of_its_name(job, "inputDrvs"@, other);
            }
            if let JsonModel::Object(fields) = inputs {
                assert(documents::holds(job, "inputDrvs"@, JsonModel::Object(fields)));
            }
            assert(documents::holds(job, "inputDrvs"@, inputs));
            if let Some(drv) = job.at("drvPath"@).as_text() {
                lemma_is_for(job, "drvPath"@, drv);
                assert(documents::holds(job, "drvPath"@, JsonModel::Text(drv)));
            }
            if exists|drv: Seq<char>| #[trigger] documents::holds(job, "drvPath"@, JsonModel::Text(drv)) {
                let drv = choose|drv: Seq<char>| #[trigger]
                    documents::holds(job, "drvPath"@, JsonModel::Text(drv));
                lemma_is_for(job, "drvPath"@, drv);
            }
        },
    }
}

// ---- changes ----

/// Each change means one thing: which state there was and which state there is.
pub proof fn law_meaning_of_changes(old_status: Standing, new_status: Standing)
    ensures
        ({
            let change = status::change_between(old_status, new_status);
            &&& change is FixedEvalError <==> old_status is EvalError && new_status is BuildOk
            &&& change is FixedEvalErrorBuildFails <==> old_status is EvalError
                && new_status is BuildFailed
            &&& change is EvalErrrorNoChange <==> old_status is EvalError && new_status is EvalError
            &&& change is FixedBuildFailure <==> old_status is BuildFailed && new_status is BuildOk
            &&& change is BuildFailureNoChange <==> old_status is BuildFailed
                && new_status is BuildFailed
            &&& change is NewBuildFailure <==> old_status is BuildOk && new_status is BuildFailed
            &&& change is BuildSuccessNoChange <==> old_status is BuildOk && new_status is BuildOk
            &&& change is NewEvalError <==> (old_status is BuildOk || old_status is BuildFailed)
                && new_status is EvalError
            &&& change is NewUnbuiltAttr <==> old_status !is Unbuilt && new_status is Unbuilt
            &&& change is UnbuiltNoChange <==> old_status is Unbuilt && new_status is Unbuilt
            &&& change is UnbuiltToEvalError <==> old_status is Unbuilt && new_status is EvalError
            &&& change is UnbuiltToBuildOk <==> old_status is Unbuilt && new_status is BuildOk
            &&& change is UnbuiltToBuildFailure <==> old_status is Unbuilt
                && new_status is BuildFailed
        }),
{
}

/// What is only in the new evaluation is added, with its state; what is only in the old one is
/// removed; what is in neither has not changed.
pub proof fn law_meaning_of_additions(old_status: Standing, new_status: Standing)
    ensures
        status::change_of(None, Some(Standing::BuildOk)) == Some(CiChange::AddedOk),
        status::change_of(None, Some(Standing::BuildFailed)) == Some(CiChange::AddedBuildFailure),
        status::change_of(None, Some(Standing::EvalError)) == Some(CiChange::AddedEvalError),
        status::change_of(None, Some(Standing::Unbuilt)) == Some(CiChange::AddedUnbuilt),
        status::change_of(Some(old_status), None) == Some(CiChange::Removed),
        status::change_of(None, None) is None,
        status::change_of(Some(old_status), Some(new_status)) == Some(
            status::change_between(old_status, new_status),
        ),
{
}

/// A section is marked by whether what it holds is well, has to be looked at, or is bad; and it is
/// named by what it holds.
pub proof fn law_captions_tell_changes()
    ensures
        CiChange::AddedOk.caption() == "✅ Added successfully"@,
        CiChange::Removed.caption() == "✅ Removed"@,
        CiChange::FixedEvalError.caption() == "✅ Fixed eval errors"@,
        CiChange::FixedBuildFailure.caption() == "✅ Fixed build failures"@,
        CiChange::BuildSuccessNoChange.caption() == "✅ Still succeeding builds"@,
        CiChange::UnbuiltNoChange.caption() == "✅ Still unbuilt attributes"@,
        CiChange::UnbuiltToBuildOk.caption()
            == "✅ Starts building previously unbuilt attributes successfully"@,
        CiChange::AddedUnbuilt.caption() == "⚠️ Added unbuilt attributes"@,
        CiChange::EvalErrrorNoChange.caption() == "⚠️ Still present eval errors"@,
        CiChange::BuildFailureNoChange.caption() == "⚠️ Still failing builds"@,
        CiChange::NewUnbuiltAttr.caption() == "⚠️ Introduced unbuilt attributes"@,
        CiChange::AddedEvalError.caption() == "❌ Added with eval errors"@,
        CiChange::AddedBuildFailure.caption() == "❌ Added with build failures"@,
        CiChange::NewEvalError.caption() == "❌ Introduced eval errors"@,
        CiChange::FixedEvalErrorBuildFails.caption() == "❌ Fixed eval errors but build fails"@,
        CiChange::NewBuildFailure.caption() == "❌ Introduced build failures"@,
        CiChange::UnbuiltToEvalError.caption() == "❌ Turns unbuilt attributes into eval errors"@,
        CiChange::UnbuiltToBuildFailure.caption()
            == "❌ Starts building previously unbuilt attributes with build failures"@,
{
}

/// The sections come in the order of what is well, what has to be looked at, and what is bad.
pub proof fn law_order_of_sections(i: int, j: int)
    requires
        0 <= i < j < CiChange::in_order().len(),
    ensures
        grade(CiChange::in_order()[i]) <= grade(CiChange::in_order()[j]),
        CiChange::in_order().len() == 18,
        CiChange::in_order().take(7) == seq![
            CiChange::AddedOk,
            CiChange::Removed,
            CiChange::FixedEvalError,
            CiChange::FixedBuildFailure,
            CiChange::BuildSuccessNoChange,
            CiChange::UnbuiltNoChange,
            CiChange::UnbuiltToBuildOk,
        ],
        CiChange::in_order().subrange(7, 11) == seq![
            CiChange::AddedUnbuilt,
            CiChange::EvalErrrorNoChange,
            CiChange::BuildFailureNoChange,
            CiChange::NewUnbuiltAttr,
        ],
        CiChange::in_order().skip(11) == seq![
            CiChange::AddedEvalError,
            CiChange::AddedBuildFailure,
            CiChange::NewEvalError,
            CiChange::FixedEvalErrorBuildFails,
            CiChange::NewBuildFailure,
            CiChange::UnbuiltToEvalError,
            CiChange::UnbuiltToBuildFailure,
        ],
{
    let all = CiChange::in_order();
    assert(all.take(7) =~= seq![
        CiChange::AddedOk,
        CiChange::Removed,
        CiChange::FixedEvalError,
        CiChange::FixedBuildFailure,
        CiChange::BuildSuccessNoChange,
        CiChange::UnbuiltNoChange,
        CiChange::UnbuiltToBuildOk,
    ]);
    assert(all.subrange(7, 11) =~= seq![
        CiChange::AddedUnbuilt,
        CiChange::EvalErrrorNoChange,
        CiChange::BuildFailureNoChange,
        CiChange::NewUnbuiltAttr,
    ]);
    assert(all.skip(11) =~= seq![
        CiChange::AddedEvalError,
        CiChange::AddedBuildFailure,
        CiChange::NewEvalError,
        CiChange::FixedEvalErrorBuildFails,
        CiChange::NewBuildFailure,
        CiChange::UnbuiltToEvalError,
        CiChange::UnbuiltToBuildFailure,
    ]);
}

/// How bad a change is.
pub open spec fn grade(change: CiChange) -> int {
    match change {
        CiChange::AddedOk
        | CiChange::Removed
        | CiChange::FixedEvalError
        | CiChange::FixedBuildFailure
        | CiChange::BuildSuccessNoChange
        | CiChange::UnbuiltNoChange
        | CiChange::UnbuiltToBuildOk => 0,
        CiChange::AddedUnbuilt
        | CiChange::EvalErrrorNoChange
        | CiChange::BuildFailureNoChange
        | CiChange::NewUnbuiltAttr => 1,
        _ => 2,
    }
}

// ---- failed and successful builds ----

/// A build has failed exactly if its status is an integer other than 0.
pub proof fn law_failed_builds(build: JsonModel)
    ensures
        stats::has_failed(build) <==> exists|n: i64| n != 0 && #[trigger] integer_at(
            build,
            "buildstatus"@,
            n as int,
        ),
{
    if let Some(n) = build.at("buildstatus"@).as_i64() {
        lemma_integer_at(build, "buildstatus"@, n);
        if n != 0 {
            assert(integer_at(build, "buildstatus"@, n as int));
        }
    }
    if exists|n: i64| n != 0 && #[trigger] integer_at(build, "buildstatus"@, n as int) {
        let n = choose|n: i64| n != 0 && #[trigger] integer_at(build, "buildstatus"@, n as int);
        lemma_integer_at(build, "buildstatus"@, n);
    }
}

/// The entry of a failed build names its job and its page, and counts everything that chains of
/// jobs lead to from its derivation, and what has it among its inputs.
pub proof fn law_entry_of_failed_build(
    eval: EvalModel,
    build: JsonModel,
    job: Seq<char>,
    drv: Seq<char>,
    id: u64,
)
    requires
        inputs_readable(eval.jobs),
        build_is_for(build, job),
        documents::holds(build, "drvpath"@, JsonModel::Text(drv)),
    ensures
        ({
            let entry = stats::failed_entry(build, eval.graph());
            &&& entry.job == job
            &&& reached(eval.jobs, drv).len() <= usize::MAX ==> entry.all_deps == reached(
                eval.jobs,
                drv,
            ).len()
            &&& reached_directly(eval.jobs, drv).len() <= usize::MAX ==> entry.direct_deps
                == reached_directly(eval.jobs, drv).len()
            &&& entry.build_url == "http://10.35.95.5:3000"@ + "/build/"@ + build.at("id"@).written()
            &&& documents::holds(build, "id"@, JsonModel::Number(NumberModel::PosInt(id)))
                ==> laws::texts::number_of(entry.build_url.skip(29)) == id
        }),
{
    lemma_is_for(build, "job"@, job);
    lemma_is_for(build, "drvpath"@, drv);
    law_all_dependents_are_counted(eval.jobs, drv);
    if documents::holds(build, "id"@, JsonModel::Number(NumberModel::PosInt(id))) {
        documents::law_field_is_first_of_its_name(
            build,
            "id"@,
            JsonModel::Number(NumberModel::PosInt(id)),
        );
        reveal_strlit("http://10.35.95.5:3000");
        reveal_strlit("/build/");
        laws::texts::law_decimal_reads_back(id as nat);
        let url = stats::failed_entry(build, eval.graph()).build_url;
        assert(url.skip(29) =~= text::decimal(id as nat));
    }
}

/// An evaluation with other builds.
pub open spec fn with_builds(eval: EvalModel, builds: Seq<JsonModel>) -> EvalModel {
    EvalModel { builds, ..eval }
}

/// The failed builds are listed in their order, and every failed build is, once.
pub proof fn law_every_failed_build_is_listed(
    eval: EvalModel,
    a: Seq<JsonModel>,
    b: Seq<JsonModel>,
    build: JsonModel,
)
    ensures
        with_builds(eval, a + b).failed() == with_builds(eval, a).failed() + with_builds(
            eval,
            b,
        ).failed(),
        with_builds(eval, Seq::empty()).failed().len() == 0,
        stats::has_failed(build) ==> with_builds(eval, seq![build]).failed() == seq![
            stats::failed_entry(build, eval.graph()),
        ],
        !stats::has_failed(build) ==> with_builds(eval, seq![build]).failed().len() == 0,
{
    let graph = eval.graph();
    let kept = |build: JsonModel| stats::has_failed(build);
    let entry = |build: JsonModel| stats::failed_entry(build, graph);
    lemma_filter_map_in_parts(a, b, kept, entry);
    lemma_filter_map_in_parts(seq![build], b, kept, entry);
    lemma_filter_map_in_parts(Seq::empty(), b, kept, entry);
}

/// The successful builds are listed in their order by their derivations, and every successful
/// build is, once.
pub proof fn law_every_successful_build_is_listed(
    eval: EvalModel,
    a: Seq<JsonModel>,
    b: Seq<JsonModel>,
    doc: JsonModel,
)
    ensures
        with_builds(eval, a + b).successful() == with_builds(eval, a).successful() + with_builds(
            eval,
            b,
        ).successful(),
        with_builds(eval, Seq::empty()).successful().len() == 0,
        forall|build: BuildModel| #[trigger] describes(doc, build) ==> {
            let listed = with_builds(eval, seq![doc]).successful();
            if build.finished == 1 && build.buildstatus == 0 {
                listed == seq![build.drvpath]
            } else {
                listed.len() == 0
            }
        },
        (forall|build: BuildModel| !#[trigger] describes(doc, build)) ==> with_builds(
            eval,
            seq![doc],
        ).successful().len() == 0,
{
    let kept = |build: JsonModel| stats::has_succeeded(build);
    let drv = |build: JsonModel| status::build_in(build)->0.drvpath;
    lemma_filter_map_in_parts(a, b, kept, drv);
    lemma_filter_map_in_parts(seq![doc], b, kept, drv);
    lemma_filter_map_in_parts(Seq::empty(), b, kept, drv);
    assert forall|build: BuildModel| #[trigger] describes(doc, build) implies {
        let listed = with_builds(eval, seq![doc]).successful();
        if build.finished == 1 && build.buildstatus == 0 {
            listed == seq![build.drvpath]
        } else {
            listed.len() == 0
        }
    } by {
        law_build_is_what_is_described(doc, build);
    }
    if let Some(build) = status::build_in(doc) {
        law_build_is_what_is_described(doc, build);
    }
}

/// What is kept of a list and changed item by item is made of what is kept of its parts.
pub(crate) proof fn lemma_filter_map_in_parts<A, B>(
    a: Seq<A>,
    b: Seq<A>,
    kept: spec_fn(A) -> bool,
    changed: spec_fn(A) -> B,
)
    ensures
        (a + b).filter(kept).map_values(changed) == a.filter(kept).map_values(changed) + b.filter(
            kept,
        ).map_values(changed),
        a.len() == 0 ==> a.filter(kept).map_values(changed).len() == 0,
        a.len() == 1 && kept(a[0]) ==> a.filter(kept).map_values(changed) == seq![changed(a[0])],
        a.len() == 1 && !kept(a[0]) ==> a.filter(kept).map_values(changed).len() == 0,
    decreases b.len(),
{
    reveal(Seq::filter);
    if a.len() == 1 {
        let none = a.drop_last();
        assert(none.len() == 0);
        assert(none.filter(kept).len() == 0);
        if kept(a[0]) {
            assert(a.filter(kept) =~= seq![a[0]]);
            assert(a.filter(kept).map_values(changed) =~= seq![changed(a[0])]);
        }
    }
    if b.len() == 0 {
        assert(a + b =~= a);
        assert(a.filter(kept).map_values(changed) + b.filter(kept).map_values(changed) =~= a.filter(
            kept,
        ).map_values(changed));
    } else {
        let fewer = b.drop_last();
        lemma_filter_map_in_parts(a, fewer, kept, changed);
        assert((a + b).drop_last() =~= a + fewer);
        assert((a + b).last() == b.last());
        assert((a + b).filter(kept).map_values(changed) =~= a.filter(kept).map_values(changed)
            + b.filter(kept).map_values(changed));
    }
}

/// The failed builds can be listed exactly if the inputs of the jobs can be read and every failed
/// build has a derivation and a job.
pub proof fn law_what_can_be_listed(eval: EvalModel)
    ensures
        eval.failed_error() is None <==> inputs_readable(eval.jobs) && forall|k: int|
            0 <= k < eval.builds.len() && stats::has_failed(#[trigger] eval.builds[k]) ==> {
                &&& exists|drv: Seq<char>| #[trigger]
                    documents::holds(eval.builds[k], "drvpath"@, JsonModel::Text(drv))
                &&& exists|job: Seq<char>| #[trigger] build_is_for(eval.builds[k], job)
            },
{
    lemma_no_error(stats::failed_checks(eval.builds));
    assert forall|k: int| 0 <= k < eval.builds.len() implies (stats::failed_checks(
        eval.builds,
    )[k] is None <==> (stats::has_failed(#[trigger] eval.builds[k]) ==> {
        &&& exists|drv: Seq<char>| #[trigger]
            documents::holds(eval.builds[k], "drvpath"@, JsonModel::Text(drv))
        &&& exists|job: Seq<char>| #[trigger] build_is_for(eval.builds[k], job)
    })) by {
        let b = eval.builds[k];
        if let Some(drv) = b.at("drvpath"@).as_text() {
            lemma_is_for(b, "drvpath"@, drv);
            assert(documents::holds(b, "drvpath"@, JsonModel::Text(drv)));
        }
        if exists|drv: Seq<char>| #[trigger] documents::holds(b, "drvpath"@, JsonModel::Text(drv)) {
            let drv = choose|drv: Seq<char>| #[trigger] documents::holds(b, "drvpath"@, JsonModel::Text(drv));
            lemma_is_for(b, "drvpath"@, drv);
        }
        if let Some(job) = b.at("job"@).as_text() {
            lemma_is_for(b, "job"@, job);
            assert(build_is_for(b, job));
        }
        if exists|job: Seq<char>| #[trigger] build_is_for(b, job) {
            let job = choose|job: Seq<char>| #[trigger] build_is_for(b, job);
            lemma_is_for(b, "job"@, job);
        }
    }
}

} // verus!

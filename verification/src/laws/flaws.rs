//! What holds of the errors that documents with a flaw lead to.

use crate::eval;
use crate::eval::{EvalDataError, EvalModel};
use crate::inputs;
use crate::inputs::FaultModel;
use crate::jobset;
use crate::jobset::{Finding, PrSearchModel, PrStepModel, PullRequestModel};
use crate::json;
use crate::json::{JsonModel, NumberModel};
use crate::laws::documents;
use crate::laws::states;
use crate::laws::texts;
use crate::nix;
use crate::stats;
use crate::text;
use vstd::prelude::*;
use vstd::string::*;

verus! {

// ---- evaluations ----

/// What the first check with a finding finds is the first error.
proof fn lemma_first_error(checks: Seq<Option<EvalDataError>>, k: int)
    requires
        0 <= k < checks.len(),
        forall|j: int| 0 <= j < k ==> (#[trigger] checks[j]) is None,
        checks[k] is Some,
    ensures
        eval::first_error(checks) == checks[k],
{
    let before = checks.take(k);
    assert forall|j: int| 0 <= j < before.len() implies (#[trigger] before[j]) is None by {
        assert(checks[j] is None);
    }
    states::lemma_no_error(before);
    eval::lemma_first_error_at(checks, k);
}

/// The first build with a flaw is told: by its job name if it has none, else as no build.
pub proof fn law_first_flawed_build_is_told(eval: EvalModel, k: int)
    requires
        0 <= k < eval.builds.len(),
        forall|j: int| 0 <= j < k ==> states::is_sound_build(#[trigger] eval.builds[j]),
        !states::is_sound_build(eval.builds[k]),
    ensures
        (forall|attr: Seq<char>| !#[trigger] states::build_is_for(eval.builds[k], attr))
            ==> eval.summary_error() == Some(EvalDataError::NoJobName(k as usize)),
        (exists|attr: Seq<char>| #[trigger] states::build_is_for(eval.builds[k], attr))
            ==> eval.summary_error() == Some(EvalDataError::NoBuild(k as usize)),
{
    let builds = eval.builds;
    let checks = eval::build_checks(builds);
    assert forall|j: int| 0 <= j < k implies (#[trigger] checks[j]) is None by {
        states::lemma_sound_build(builds[j], j);
    }
    states::lemma_sound_build(builds[k], k);
    lemma_first_error(checks, k);
    if let Some(attr) = builds[k].at("job"@).as_text() {
        states::lemma_is_for(builds[k], "job"@, attr);
        assert(states::build_is_for(builds[k], attr));
    }
    if exists|attr: Seq<char>| #[trigger] states::build_is_for(builds[k], attr) {
        let attr = choose|attr: Seq<char>| #[trigger] states::build_is_for(builds[k], attr);
        states::lemma_is_for(builds[k], "job"@, attr);
    }
}

/// If the builds have no flaw, the first job with unreadable inputs is told: that the inputs are no
/// object, or else that there is no derivation to have them. This comes before any missing name of
/// an attribute.
pub proof fn law_first_flawed_inputs_are_told(eval: EvalModel, k: int)
    requires
        forall|j: int|
            0 <= j < eval.builds.len() ==> states::is_sound_build(#[trigger] eval.builds[j]),
        0 <= k < eval.jobs.len(),
        forall|j: int| 0 <= j < k ==> states::inputs_given(#[trigger] eval.jobs[j]),
        !states::inputs_given(eval.jobs[k]),
    ensures
        (forall|fields: Seq<(Seq<char>, JsonModel)>|
            !#[trigger] documents::holds(
                eval.jobs[k],
                "inputDrvs"@,
                JsonModel::Object(fields),
            )) ==> eval.summary_error() == Some(EvalDataError::NoInputs(k as usize)),
        (exists|fields: Seq<(Seq<char>, JsonModel)>| #[trigger]
            documents::holds(eval.jobs[k], "inputDrvs"@, JsonModel::Object(fields)))
            ==> eval.summary_error() == Some(EvalDataError::NoDrvPath(k as usize)),
        eval.failed_error() == eval.summary_error(),
{
    let jobs = eval.jobs;
    states::lemma_no_error(eval::build_checks(eval.builds));
    assert forall|j: int| 0 <= j < eval.builds.len() implies (#[trigger] eval::build_checks(
        eval.builds,
    )[j]) is None by {
        states::lemma_sound_build(eval.builds[j], j);
    }
    let checks = eval::inputs_checks(jobs);
    assert forall|j: int| 0 <= j < k implies (#[trigger] checks[j]) is None by {
        states::lemma_inputs_given(jobs[j], j);
    }
    states::lemma_inputs_given(jobs[k], k);
    lemma_first_error(checks, k);
    let found = jobs[k].field("inputDrvs"@);
    if let Some(JsonModel::Object(fields)) = found {
        documents::law_field_is_first_of_its_name(
            jobs[k],
            "inputDrvs"@,
            JsonModel::Object(fields),
        );
        assert(documents::holds(jobs[k], "inputDrvs"@, JsonModel::Object(fields)));
    }
    if exists|fields: Seq<(Seq<char>, JsonModel)>| #[trigger]
        documents::holds(jobs[k], "inputDrvs"@, JsonModel::Object(fields)) {
        let fields = choose|fields: Seq<(Seq<char>, JsonModel)>| #[trigger]
            documents::holds(jobs[k], "inputDrvs"@, JsonModel::Object(fields));
        documents::law_field_is_first_of_its_name(
            jobs[k],
            "inputDrvs"@,
            JsonModel::Object(fields),
        );
    }
}

/// If nothing else is wrong, the first job that is for no attribute is told.
pub proof fn law_first_nameless_job_is_told(eval: EvalModel, k: int)
    requires
        forall|j: int|
            0 <= j < eval.builds.len() ==> states::is_sound_build(#[trigger] eval.builds[j]),
        forall|j: int| 0 <= j < eval.jobs.len() ==> states::inputs_given(#[trigger] eval.jobs[j]),
        0 <= k < eval.jobs.len(),
        forall|j: int| 0 <= j < k ==> states::is_sound_job(#[trigger] eval.jobs[j]),
        !states::is_sound_job(eval.jobs[k]),
    ensures
        eval.summary_error() == Some(EvalDataError::NoAttr(k as usize)),
{
    let jobs = eval.jobs;
    states::lemma_no_error(eval::build_checks(eval.builds));
    assert forall|j: int| 0 <= j < eval.builds.len() implies (#[trigger] eval::build_checks(
        eval.builds,
    )[j]) is None by {
        states::lemma_sound_build(eval.builds[j], j);
    }
    states::lemma_no_error(eval::inputs_checks(jobs));
    assert forall|j: int| 0 <= j < jobs.len() implies (#[trigger] eval::inputs_checks(
        jobs,
    )[j]) is None by {
        states::lemma_inputs_given(jobs[j], j);
    }
    let checks = eval::attr_checks(jobs);
    assert forall|j: int| 0 <= j < k implies (#[trigger] checks[j]) is None by {
        assert(states::is_sound_job(jobs[j]));
        states::lemma_has_attr(jobs[j], j);
    }
    assert(states::inputs_given(jobs[k]));
    states::lemma_has_attr(jobs[k], k);
    lemma_first_error(checks, k);
}

/// A failed build can be listed.
pub open spec fn can_be_listed(build: JsonModel) -> bool {
    stats::has_failed(build) ==> {
        &&& exists|drv: Seq<char>| #[trigger] documents::holds(build, "drvpath"@, JsonModel::Text(drv))
        &&& exists|job: Seq<char>| #[trigger] states::build_is_for(build, job)
    }
}

/// If the inputs can be read, the first failed build that cannot be listed is told: by its
/// derivation if it has none, else by its job.
pub proof fn law_first_unlisted_build_is_told(eval: EvalModel, k: int)
    requires
        states::inputs_readable(eval.jobs),
        0 <= k < eval.builds.len(),
        forall|j: int| 0 <= j < k ==> can_be_listed(#[trigger] eval.builds[j]),
        !can_be_listed(eval.builds[k]),
    ensures
        (forall|drv: Seq<char>|
            !#[trigger] documents::holds(eval.builds[k], "drvpath"@, JsonModel::Text(drv)))
            ==> eval.failed_error() == Some(EvalDataError::NoBuildDrvPath(k as usize)),
        (exists|drv: Seq<char>| #[trigger]
            documents::holds(eval.builds[k], "drvpath"@, JsonModel::Text(drv)))
            ==> eval.failed_error() == Some(EvalDataError::NoJobName(k as usize)),
{
    let builds = eval.builds;
    let checks = stats::failed_checks(builds);
    assert forall|j: int| 0 <= j < k implies (#[trigger] checks[j]) is None by {
        assert(can_be_listed(builds[j]));
        lemma_can_be_listed(builds[j], j);
    }
    lemma_can_be_listed(builds[k], k);
    lemma_first_error(checks, k);
    if let Some(drv) = builds[k].at("drvpath"@).as_text() {
        states::lemma_is_for(builds[k], "drvpath"@, drv);
        assert(documents::holds(builds[k], "drvpath"@, JsonModel::Text(drv)));
    }
    if exists|drv: Seq<char>| #[trigger]
        documents::holds(builds[k], "drvpath"@, JsonModel::Text(drv)) {
        let drv = choose|drv: Seq<char>| #[trigger]
            documents::holds(builds[k], "drvpath"@, JsonModel::Text(drv));
        states::lemma_is_for(builds[k], "drvpath"@, drv);
    }
}

proof fn lemma_can_be_listed(b: JsonModel, k: int)
    ensures
        stats::failed_check(b, k) is None <==> can_be_listed(b),
{
    if let Some(drv) = b.at("drvpath"@).as_text() {
        states::lemma_is_for(b, "drvpath"@, drv);
        assert(documents::holds(b, "drvpath"@, JsonModel::Text(drv)));
    }
    if exists|drv: Seq<char>| #[trigger] documents::holds(b, "drvpath"@, JsonModel::Text(drv)) {
        let drv = choose|drv: Seq<char>| #[trigger]
            documents::holds(b, "drvpath"@, JsonModel::Text(drv));
        states::lemma_is_for(b, "drvpath"@, drv);
    }
    if let Some(job) = b.at("job"@).as_text() {
        states::lemma_is_for(b, "job"@, job);
        assert(states::build_is_for(b, job));
    }
    if exists|job: Seq<char>| #[trigger] states::build_is_for(b, job) {
        let job = choose|job: Seq<char>| #[trigger] states::build_is_for(b, job);
        states::lemma_is_for(b, "job"@, job);
    }
}

/// A job is for an attribute, or has no error.
pub open spec fn failure_is_named(job: JsonModel) -> bool {
    ||| exists|attr: Seq<char>| #[trigger] states::job_is_for(job, attr)
    ||| forall|e: Seq<char>| !#[trigger] documents::holds(job, "error"@, JsonModel::Text(e))
}

/// Of jobs with an error, the first that is for no attribute is told; jobs without an error need no
/// attribute.
pub proof fn law_first_nameless_failure_is_told(jobs: Seq<JsonModel>, k: int)
    requires
        0 <= k < jobs.len(),
        forall|j: int| 0 <= j < k ==> failure_is_named(#[trigger] jobs[j]),
    ensures
        !failure_is_named(jobs[k]) ==> eval::first_error(stats::failure_checks(jobs)) == Some(
            EvalDataError::NoAttr(k as usize),
        ),
        failure_is_named(jobs[k]) && k == jobs.len() - 1 ==> eval::first_error(
            stats::failure_checks(jobs),
        ) is None,
{
    let checks = stats::failure_checks(jobs);
    assert forall|j: int| 0 <= j < k implies (#[trigger] checks[j]) is None by {
        assert(failure_is_named(jobs[j]));
        lemma_failure_is_named(jobs[j], j);
    }
    lemma_failure_is_named(jobs[k], k);
    if failure_is_named(jobs[k]) {
        assert(checks[k] is None);
        states::lemma_no_error(checks);
    } else {
        lemma_first_error(checks, k);
    }
}

proof fn lemma_failure_is_named(job: JsonModel, k: int)
    ensures
        stats::failure_check(job, k) is None <==> failure_is_named(job),
        stats::failure_check(job, k) is Some ==> stats::failure_check(job, k) == Some(
            EvalDataError::NoAttr(k as usize),
        ),
{
    states::lemma_has_attr(job, k);
    if let Some(e) = job.at("error"@).as_text() {
        states::lemma_is_for(job, "error"@, e);
        assert(documents::holds(job, "error"@, JsonModel::Text(e)));
    } else {
        assert forall|e: Seq<char>| !#[trigger] documents::holds(job, "error"@, JsonModel::Text(e)) by {
            states::lemma_is_for(job, "error"@, e);
        }
    }
}

// ---- documents of evaluations ----

/// The first build that is no number is told by its position.
pub proof fn law_first_build_without_number_is_told(items: Seq<JsonModel>, k: int)
    requires
        0 <= k < items.len(),
        forall|j: int|
            0 <= j < k ==> (#[trigger] items[j]) matches JsonModel::Number(NumberModel::PosInt(_)),
    ensures
        items[k] matches JsonModel::Number(NumberModel::PosInt(_)) ==> k == items.len() - 1
            ==> inputs::id_fault(items) is None,
        !(items[k] matches JsonModel::Number(NumberModel::PosInt(_))) ==> inputs::id_fault(items)
            == Some(FaultModel::NoBuildId(k)),
    decreases items.len(),
{
    let fewer = items.drop_last();
    if k < fewer.len() {
        assert forall|j: int| 0 <= j < k implies ((#[trigger] fewer[j]) matches JsonModel::Number(
            NumberModel::PosInt(_),
        )) by {
            assert(items[j] matches JsonModel::Number(NumberModel::PosInt(_)));
        }
        law_first_build_without_number_is_told(fewer, k);
    } else if fewer.len() > 0 {
        assert forall|j: int| 0 <= j < fewer.len() - 1 implies ((
        #[trigger] fewer[j]) matches JsonModel::Number(NumberModel::PosInt(_))) by {
            assert(items[j] matches JsonModel::Number(NumberModel::PosInt(_)));
        }
        assert(items[fewer.len() - 1] matches JsonModel::Number(NumberModel::PosInt(_)));
        law_first_build_without_number_is_told(fewer, fewer.len() - 1);
    }
}

/// What an input gives under a name is a text.
pub open spec fn input_tells(doc: JsonModel, input: Seq<char>, key: Seq<char>) -> bool {
    exists|v: Seq<char>| #[trigger]
        documents::text_far_below(doc, "jobsetevalinputs"@, input, key, v)
}

proof fn lemma_input_tells(doc: JsonModel, input: Seq<char>, key: Seq<char>)
    ensures
        input_tells(doc, input, key) <==> doc.at("jobsetevalinputs"@).at(input).at(
            key,
        ).as_text() is Some,
{
    let found = doc.at("jobsetevalinputs"@).at(input).at(key).as_text();
    if let Some(v) = found {
        documents::lemma_text_far_below(doc, "jobsetevalinputs"@, input, key, v);
        assert(documents::text_far_below(doc, "jobsetevalinputs"@, input, key, v));
    }
    if input_tells(doc, input, key) {
        let v = choose|v: Seq<char>| #[trigger]
            documents::text_far_below(doc, "jobsetevalinputs"@, input, key, v);
        documents::lemma_text_far_below(doc, "jobsetevalinputs"@, input, key, v);
    }
}

/// What the inputs of an evaluation lack is told in order: the address and the revision of the
/// release expressions, those of the overlay, and the system.
pub proof fn law_first_missing_input_is_told(doc: JsonModel)
    ensures
        ({
            let (hydra, overlay) = ("nix-ros-hydra"@, "nix-ros-overlay"@);
            let fault = inputs::inputs_fault(doc);
            if !input_tells(doc, hydra, "uri"@) {
                fault == Some(FaultModel::NoUri(hydra))
            } else if !input_tells(doc, hydra, "revision"@) {
                fault == Some(FaultModel::NoRevision(hydra))
            } else if !input_tells(doc, overlay, "uri"@) {
                fault == Some(FaultModel::NoUri(overlay))
            } else if !input_tells(doc, overlay, "revision"@) {
                fault == Some(FaultModel::NoRevision(overlay))
            } else if !input_tells(doc, "system"@, "value"@) {
                fault == Some(FaultModel::NoSystem)
            } else {
                fault is None
            }
        }),
{
    lemma_input_tells(doc, "nix-ros-hydra"@, "uri"@);
    lemma_input_tells(doc, "nix-ros-hydra"@, "revision"@);
    lemma_input_tells(doc, "nix-ros-overlay"@, "uri"@);
    lemma_input_tells(doc, "nix-ros-overlay"@, "revision"@);
    lemma_input_tells(doc, "system"@, "value"@);
}

/// That the builds are no list is told first, what the inputs lack second, and a build without a
/// number last.
pub proof fn law_order_of_faults(doc: JsonModel, items: Seq<JsonModel>)
    ensures
        (forall|list: Seq<JsonModel>|
            !#[trigger] documents::holds(doc, "builds"@, JsonModel::Array(list)))
            ==> inputs::eval_fault(doc) == Some(FaultModel::NoBuilds),
        documents::holds(doc, "builds"@, JsonModel::Array(items)) ==> {
            &&& inputs::inputs_fault(doc) is Some ==> inputs::eval_fault(doc)
                == inputs::inputs_fault(doc)
            &&& inputs::inputs_fault(doc) is None ==> inputs::eval_fault(doc) == inputs::id_fault(
                items,
            )
        },
{
    documents::law_field_is_first_of_its_name(doc, "builds"@, JsonModel::Array(items));
    if let JsonModel::Array(list) = doc.at("builds"@) {
        documents::law_field_is_first_of_its_name(doc, "builds"@, JsonModel::Array(list));
        assert(documents::holds(doc, "builds"@, JsonModel::Array(list)));
    }
}

// ---- lines ----

/// The first line that is no JSON is told, with its error.
pub proof fn law_first_unreadable_line_is_told(
    lines: Seq<Seq<char>>,
    k: int,
    error: serde_json::Error,
)
    requires
        0 <= k < lines.len(),
        forall|j: int| 0 <= j < k ==> json::parsed_json(#[trigger] lines[j]) is Ok,
        json::parsed_json(lines[k]) == Err::<JsonModel, serde_json::Error>(error),
    ensures
        nix::jobs_on(lines) == Err::<Seq<JsonModel>, serde_json::Error>(error),
    decreases lines.len(),
{
    let fewer = lines.drop_last();
    if k < fewer.len() {
        law_first_unreadable_line_is_told(fewer, k, error);
    } else if fewer.len() > 0 {
        assert forall|j: int| 0 <= j < fewer.len() implies json::parsed_json(
            #[trigger] fewer[j],
        ) is Ok by {
            assert(json::parsed_json(lines[j]) is Ok);
        }
        documents::law_one_job_on_each_line(fewer, 0);
    }
}

// ---- evaluations of jobsets ----

/// A search ends with the first finding that is one.
proof fn lemma_first_finding(findings: Seq<Finding>, k: int)
    requires
        0 <= k < findings.len(),
        forall|j: int| 0 <= j < k ==> (#[trigger] findings[j]) == Finding::NotFound,
        findings[k] != Finding::NotFound,
    ensures
        jobset::first_finding(findings) == findings[k],
    decreases findings.len(),
{
    let fewer = findings.drop_last();
    if k < fewer.len() {
        assert forall|j: int| 0 <= j < k implies (#[trigger] fewer[j]) == Finding::NotFound by {
            assert(findings[j] == Finding::NotFound);
        }
        lemma_first_finding(fewer, k);
    } else {
        assert forall|j: int| 0 <= j < fewer.len() implies (#[trigger] fewer[j])
            == Finding::NotFound by {
            assert(findings[j] == Finding::NotFound);
        }
        lemma_all_not_found(fewer);
    }
}

proof fn lemma_all_not_found(findings: Seq<Finding>)
    requires
        forall|j: int| 0 <= j < findings.len() ==> (#[trigger] findings[j]) == Finding::NotFound,
    ensures
        jobset::first_finding(findings) == Finding::NotFound,
    decreases findings.len(),
{
    if findings.len() > 0 {
        let fewer = findings.drop_last();
        assert forall|j: int| 0 <= j < fewer.len() implies (#[trigger] fewer[j])
            == Finding::NotFound by {
            assert(findings[j] == Finding::NotFound);
        }
        lemma_all_not_found(fewer);
        assert(findings[findings.len() - 1] == Finding::NotFound);
    }
}

/// An evaluation tells its commit and its number, and the commit is another one.
pub open spec fn is_of_other(eval: JsonModel, sha: Seq<char>) -> bool {
    exists|s: Seq<char>, id: u64| #[trigger] documents::is_eval_of(eval, s, id) && s != sha
}

/// All evaluations that a document lists are of other commits.
pub open spec fn lacks_commit(doc: JsonModel, sha: Seq<char>) -> bool {
    exists|evals: Seq<JsonModel>| #[trigger]
        documents::holds(doc, "evals"@, JsonModel::Array(evals)) && forall|j: int|
            0 <= j < evals.len() ==> is_of_other(#[trigger] evals[j], sha)
}

proof fn lemma_other(eval: JsonModel, sha: Seq<char>)
    ensures
        is_of_other(eval, sha) <==> jobset::eval_finding(eval, sha) == Finding::NotFound,
{
    if is_of_other(eval, sha) {
        let (s, id) = choose|s: Seq<char>, id: u64| #[trigger]
            documents::is_eval_of(eval, s, id) && s != sha;
        documents::lemma_eval_finding(eval, s, id);
    }
    if jobset::eval_finding(eval, sha) == Finding::NotFound {
        let s = jobset::revision_in(eval)->0;
        let id = eval.at("id"@).as_u64()->0;
        documents::lemma_eval_finding(eval, s, id);
        assert(documents::is_eval_of(eval, s, id) && s != sha);
    }
}

proof fn lemma_lacks_commit(doc: JsonModel, sha: Seq<char>)
    requires
        lacks_commit(doc, sha),
    ensures
        jobset::jobset_finding(doc, sha) == Finding::NotFound,
{
    let evals = choose|evals: Seq<JsonModel>| #[trigger]
        documents::holds(doc, "evals"@, JsonModel::Array(evals)) && forall|j: int|
            0 <= j < evals.len() ==> is_of_other(#[trigger] evals[j], sha);
    documents::law_field_is_first_of_its_name(doc, "evals"@, JsonModel::Array(evals));
    let inner = evals.map_values(|eval: JsonModel| jobset::eval_finding(eval, sha));
    assert forall|j: int| 0 <= j < inner.len() implies (#[trigger] inner[j]) == Finding::NotFound by {
        assert(is_of_other(evals[j], sha));
        lemma_other(evals[j], sha);
    }
    lemma_all_not_found(inner);
}

/// Behind evaluations and jobsets of other commits only, an evaluation of the commit is found, and
/// one that does not tell its commit or its number ends the search as malformed.
pub proof fn law_first_telling_evaluation_decides(
    jobsets: Seq<JsonModel>,
    sha: Seq<char>,
    i: int,
    evals: Seq<JsonModel>,
    j: int,
    id: u64,
)
    requires
        0 <= i < jobsets.len(),
        forall|k: int| 0 <= k < i ==> lacks_commit(#[trigger] jobsets[k], sha),
        documents::holds(jobsets[i], "evals"@, JsonModel::Array(evals)),
        0 <= j < evals.len(),
        forall|k: int| 0 <= k < j ==> is_of_other(#[trigger] evals[k], sha),
    ensures
        documents::is_eval_of(evals[j], sha, id) ==> jobset::commit_finding(jobsets, sha)
            == Finding::Found(id),
        !documents::is_told(evals[j]) ==> jobset::commit_finding(jobsets, sha) == Finding::Malformed,
{
    let findings = jobsets.map_values(|doc: JsonModel| jobset::jobset_finding(doc, sha));
    assert forall|k: int| 0 <= k < i implies (#[trigger] findings[k]) == Finding::NotFound by {
        assert(lacks_commit(jobsets[k], sha));
        lemma_lacks_commit(jobsets[k], sha);
    }
    documents::law_field_is_first_of_its_name(jobsets[i], "evals"@, JsonModel::Array(evals));
    let inner = evals.map_values(|eval: JsonModel| jobset::eval_finding(eval, sha));
    assert forall|k: int| 0 <= k < j implies (#[trigger] inner[k]) == Finding::NotFound by {
        assert(is_of_other(evals[k], sha));
        lemma_other(evals[k], sha);
    }
    documents::lemma_eval_finding(evals[j], sha, id);
    if documents::is_eval_of(evals[j], sha, id) {
        lemma_first_finding(inner, j);
        lemma_first_finding(findings, i);
    }
    if !documents::is_told(evals[j]) {
        let found = jobset::eval_finding(evals[j], sha);
        if let Finding::Found(n) = found {
            documents::lemma_eval_finding(evals[j], sha, n);
            assert(documents::is_eval_of(evals[j], sha, n));
        }
        lemma_other(evals[j], sha);
        if is_of_other(evals[j], sha) {
            let (s, n) = choose|s: Seq<char>, n: u64| #[trigger]
                documents::is_eval_of(evals[j], s, n) && s != sha;
            assert(documents::is_told(evals[j]));
        }
        assert(found == Finding::Malformed);
        lemma_first_finding(inner, j);
        lemma_first_finding(findings, i);
    }
}

/// A jobset that lists no evaluations at all ends the search as malformed, if nothing was found
/// before.
pub proof fn law_jobset_without_list_is_malformed(jobsets: Seq<JsonModel>, sha: Seq<char>, i: int)
    requires
        0 <= i < jobsets.len(),
        forall|k: int| 0 <= k < i ==> lacks_commit(#[trigger] jobsets[k], sha),
        forall|evals: Seq<JsonModel>|
            !#[trigger] documents::holds(jobsets[i], "evals"@, JsonModel::Array(evals)),
    ensures
        jobset::commit_finding(jobsets, sha) == Finding::Malformed,
{
    let findings = jobsets.map_values(|doc: JsonModel| jobset::jobset_finding(doc, sha));
    assert forall|k: int| 0 <= k < i implies (#[trigger] findings[k]) == Finding::NotFound by {
        assert(lacks_commit(jobsets[k], sha));
        lemma_lacks_commit(jobsets[k], sha);
    }
    if let JsonModel::Array(evals) = jobsets[i].at("evals"@) {
        documents::law_field_is_first_of_its_name(jobsets[i], "evals"@, JsonModel::Array(evals));
        assert(documents::holds(jobsets[i], "evals"@, JsonModel::Array(evals)));
    }
    assert(findings[i] == Finding::Malformed);
    lemma_first_finding(findings, i);
}

/// The warning that the latest evaluation stands in names the base commit and that evaluation.
pub proof fn law_stand_in_is_named(request: PullRequestModel, latest: u64, digits: Seq<char>)
    requires
        digits == text::decimal(latest as nat),
    ensures
        request.stand_in_notice(latest) == "Cannot find Hydra evaluation for base commit "@
            + request.base_sha + ". Using latest evaluation "@ + digits
            + " of the develop branch instead."@,
        texts::number_of(digits) == latest,
{
    texts::law_decimal_reads_back(latest as nat);
}

/// A search keeps its pull request, decides by what the jobsets show and by whether it uses the
/// cache, and leaves the cache exactly when the commits have to be looked for again.
pub proof fn law_search_leaves_cache_to_look_again(search: PrSearchModel, jobsets: Seq<JsonModel>)
    ensures
        search.after(jobsets).request == search.request,
        search.decision(jobsets) == search.request.decision(jobsets, search.use_cache),
        search.decision(jobsets) == Some(PrStepModel::LookAgain) ==> search.use_cache
            && !search.after(jobsets).use_cache,
        search.decision(jobsets) != Some(PrStepModel::LookAgain) ==> search.after(jobsets).use_cache
            == search.use_cache,
{
}

} // verus!

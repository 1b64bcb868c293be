//! What the models of values have to do with the values.

use crate::analyzer;
use crate::analyzer::Located;
use crate::deps;
use crate::eval;
use crate::eval::HydraEval;
use crate::fetch::{ActionModel, EventModel, FetchAction, FetchError, FetchEvent};
use crate::group;
use crate::group::{Listed, Shown, ShownModel};
use crate::inputs::{EvalInputs, FaultModel, InputError};
use crate::jobset::{PrStep, PrStepModel, PullRequest};
use crate::json::{Json, JsonModel, JsonNumber, NumberModel};
use crate::stats;
use crate::stats::{Failure, Job};
use crate::status::{BuildInfo, EvalInfo, HydraAttrStatus, HydraBuild, StatusModel};
use crate::summary::HydraEvalSummary;
use crate::text;
use vstd::prelude::*;
use vstd::string::*;

verus! {

/// The model of a document has the same parts: the same plain values, the models of the items of an
/// array in the same order, and the names and models of the fields of an object in the same order.
pub proof fn law_model_of_document(json: Json)
    ensures
        json is Null <==> json@ is Null,
        json matches Json::Bool(b) ==> json@ == JsonModel::Bool(b),
        json matches Json::Number(JsonNumber::PosInt(n)) ==> json@ == JsonModel::Number(
            NumberModel::PosInt(n),
        ),
        json matches Json::Number(JsonNumber::NegInt(n)) ==> json@ == JsonModel::Number(
            NumberModel::NegInt(n),
        ),
        json matches Json::Number(JsonNumber::Float(n)) ==> json@ == JsonModel::Number(
            NumberModel::Float(n),
        ),
        json matches Json::Text(s) ==> json@ == JsonModel::Text(s@),
        json matches Json::Array(items) ==> {
            &&& json@ is Array
            &&& json@->Array_0.len() == items@.len()
            &&& forall|i: int| 0 <= i < items@.len() ==> #[trigger] json@->Array_0[i] == items@[i]@
        },
        json matches Json::Object(fields) ==> {
            &&& json@ is Object
            &&& json@->Object_0.len() == fields@.len()
            &&& forall|i: int|
                0 <= i < fields@.len() ==> (#[trigger] json@->Object_0[i]).0 == fields@[i].0@
                    && json@->Object_0[i].1 == fields@[i].1@
        },
{
}

/// The model of a build has its parts.
pub proof fn law_model_of_build(build: HydraBuild)
    ensures
        build@.drvpath == build.drvpath@,
        build@.finished == build.finished,
        build@.buildstatus == build.buildstatus,
        build@.id == build.id,
{
}

/// The model of a state has its kind and its parts.
pub proof fn law_model_of_state(error: &str, info: BuildInfo)
    ensures
        HydraAttrStatus::EvalError(error)@ == StatusModel::EvalError(error@),
        HydraAttrStatus::Unbuilt@ is Unbuilt,
        HydraAttrStatus::Build(info)@ is Build,
        HydraAttrStatus::Build(info)@->Build_0.direct_deps == info.eval.direct_deps,
        HydraAttrStatus::Build(info)@->Build_0.all_deps == info.eval.all_deps,
        HydraAttrStatus::Build(info)@->Build_1 == info.hydra@,
{
}

/// The model of an evaluation has its number, its distribution, and its builds and jobs in order.
pub proof fn law_model_of_evaluation(eval: HydraEval, i: int)
    ensures
        eval@.eval_id == eval.eval_id,
        eval.distro matches Some(distro) ==> eval@.distro == Some(distro@),
        eval.distro is None ==> eval@.distro is None,
        eval@.builds.len() == eval.hydra_builds@.len(),
        eval@.jobs.len() == eval.eval_jobs@.len(),
        0 <= i < eval.hydra_builds@.len() ==> eval@.builds[i] == eval.hydra_builds@[i]@,
        0 <= i < eval.eval_jobs@.len() ==> eval@.jobs[i] == eval.eval_jobs@[i]@,
{
}

/// The model of what an evaluation comes to has its number, its distribution and its attributes
/// with the models of their states.
pub proof fn law_model_of_summary(summary: HydraEvalSummary, attr: Seq<char>)
    ensures
        summary@.eval_id == summary.eval_id,
        summary.distro matches Some(distro) ==> summary@.distro == Some(distro@),
        summary.distro is None ==> summary@.distro is None,
        summary@.attrs.contains_key(attr) <==> summary.attrs@.contains_key(attr),
        summary.attrs@.contains_key(attr) ==> summary@.attrs[attr] == summary.attrs@[attr]@,
{
}

/// The model of a failed build has its parts, and lists of them keep their order.
pub proof fn law_model_of_failed_build(job: Job, jobs: Seq<Job>, i: int)
    ensures
        job@.job == job.job@,
        job@.direct_deps == job.direct_deps,
        job@.all_deps == job.all_deps,
        job@.build_url == job.build_url@,
        stats::job_views(jobs).len() == jobs.len(),
        0 <= i < jobs.len() ==> stats::job_views(jobs)[i] == jobs[i]@,
{
}

/// The model of a failure has its parts, and lists of them keep their order.
pub proof fn law_model_of_failure(failure: Failure, failures: Seq<Failure>, i: int)
    ensures
        failure@.attr == failure.attr@,
        failure@.error == failure.error@,
        failure.reason matches Some(reason) ==> failure@.reason == Some(reason@),
        failure.reason is None ==> failure@.reason is None,
        stats::failure_views(failures).len() == failures.len(),
        0 <= i < failures.len() ==> stats::failure_views(failures)[i] == failures[i]@,
{
}

/// The model of what is shown of an attribute has its parts, and lists of them keep their order.
pub proof fn law_model_of_listed(
    listed: Listed,
    page: String,
    info: EvalInfo,
    description: String,
    items: Seq<Listed>,
    i: int,
)
    ensures
        listed@.attr == listed.attr@,
        listed@.shown == listed.shown@,
        Shown::Build(page, info)@ == ShownModel::Build(page@, info),
        Shown::EvalError(description)@ == ShownModel::EvalError(description@),
        Shown::Name@ is Name,
        group::listed_views(items).len() == items.len(),
        0 <= i < items.len() ==> group::listed_views(items)[i] == items[i]@,
{
}

/// The model of what an evaluation was made from has its parts.
pub proof fn law_model_of_inputs(inputs: EvalInputs)
    ensures
        inputs@.release_nix_tarball_url == inputs.release_nix_tarball_url@,
        inputs@.tarball_url == inputs.tarball_url@,
        inputs@.system == inputs.system@,
        inputs.distro matches Some(distro) ==> inputs@.distro == Some(distro@),
        inputs.distro is None ==> inputs@.distro is None,
        inputs.cross_system matches Some(system) ==> inputs@.cross_system == Some(system@),
        inputs.cross_system is None ==> inputs@.cross_system is None,
{
}

/// The model of an error on inputs has its kind and what it is about.
pub proof fn law_model_of_input_error(i: usize, input: &'static str)
    ensures
        InputError::NoBuilds@ is NoBuilds,
        InputError::NoBuildId(i)@ == FaultModel::NoBuildId(i as int),
        InputError::NoUri(input)@ == FaultModel::NoUri(input@),
        InputError::NoRevision(input)@ == FaultModel::NoRevision(input@),
        InputError::NoSystem@ is NoSystem,
{
}

/// The model of a pull request has its parts, and that of a step its kind and what it is about.
pub proof fn law_model_of_pull_request(
    request: PullRequest,
    base: u64,
    head: u64,
    message: String,
)
    ensures
        request@.base_sha == request.base_sha@,
        request@.head_sha == request.head_sha@,
        request@.into_develop == request.into_develop,
        PrStep::Compare(base, head)@ == PrStepModel::Compare(base, head),
        PrStep::LookAgain@ is LookAgain,
        PrStep::CompareLatest(head)@ == PrStepModel::CompareLatest(head),
        PrStep::Fail(message)@ == PrStepModel::Fail(message@),
{
}

/// The model of an event of a fetch has its kind and its text.
pub proof fn law_model_of_event(content: String)
    ensures
        FetchEvent::Started@ is Started,
        FetchEvent::CacheHit(content)@ == EventModel::CacheHit(content@),
        FetchEvent::CacheMiss@ is CacheMiss,
        FetchEvent::Refused(content)@ == EventModel::Refused(content@),
        FetchEvent::Answered(content)@ == EventModel::Answered(content@),
        FetchEvent::Stored@ is Stored,
        FetchEvent::Rested@ is Rested,
        FetchEvent::Removed@ is Removed,
{
}

/// The model of an action of a fetch has its kind and what it is about.
pub proof fn law_model_of_action(content: String, millis: u64, doc: Json)
    ensures
        FetchAction::ReadCache@ is ReadCache,
        FetchAction::Request(content)@ == ActionModel::Request(content@),
        FetchAction::Rest(millis)@ == ActionModel::Rest(millis),
        FetchAction::Store(content)@ == ActionModel::Store(content@),
        FetchAction::RemoveCached@ is RemoveCached,
        FetchAction::Return(doc)@ == ActionModel::Return(doc@),
        FetchAction::Fail(FetchError::Refused(content))@ == ActionModel::FailRefused(content@),
{
}

/// The model of a match has its parts; lists of texts keep their order.
pub proof fn law_model_of_texts(
    located: Located,
    texts: Seq<String>,
    borrowed: Seq<&str>,
    docs: Seq<Json>,
    i: int,
)
    ensures
        located@.whole == located.whole@,
        located@.group == located.group@,
        text::views(texts).len() == texts.len(),
        0 <= i < texts.len() ==> text::views(texts)[i] == texts[i]@,
        deps::paths(borrowed).len() == borrowed.len(),
        0 <= i < borrowed.len() ==> deps::paths(borrowed)[i] == borrowed[i]@,
        eval::json_views(docs).len() == docs.len(),
        0 <= i < docs.len() ==> eval::json_views(docs)[i] == docs[i]@,
        analyzer::optional(None) is None,
        0 <= i < texts.len() ==> analyzer::optional(Some(texts[i])) == Some(texts[i]@),
        group::optional_str(None) is None,
        0 <= i < borrowed.len() ==> group::optional_str(Some(borrowed[i])) == Some(borrowed[i]@),
{
}

} // verus!

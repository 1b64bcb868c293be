//! What an evaluation was made from, and where its parts are found.

use crate::group;
use crate::json::{Json, JsonModel};
use crate::text;
use crate::text::decimal_text;
use vstd::prelude::*;
use vstd::string::*;

verus! {

/// The path of an evaluation on the server.
pub open spec fn evaluation_path(eval_id: u64) -> Seq<char> {
    "eval/"@ + text::decimal(eval_id as nat)
}

/// The path of a build on the server.
pub open spec fn path_of_build(build_id: u64) -> Seq<char> {
    "build/"@ + text::decimal(build_id as nat)
}

/// The path of an evaluation on the server.
pub fn eval_path(eval_id: u64) -> (path: String)
    ensures
        path@ == evaluation_path(eval_id),
{
    let mut path = "eval/".to_owned();
    path.append(&decimal_text(eval_id));
    path
}

/// The path of a build on the server.
pub fn build_path(build_id: u64) -> (path: String)
    ensures
        path@ == path_of_build(build_id),
{
    let mut path = "build/".to_owned();
    path.append(&decimal_text(build_id));
    path
}

/// What the document of an evaluation lacks.
pub enum InputError {
    /// The builds are no array.
    NoBuilds,
    /// The build at this position is no number.
    NoBuildId(usize),
    /// This input has no address.
    NoUri(&'static str),
    /// This input has no revision.
    NoRevision(&'static str),
    /// The system is not given.
    NoSystem,
}

/// The mathematical content of an [`InputError`].
pub enum FaultModel {
    NoBuilds,
    NoBuildId(int),
    NoUri(Seq<char>),
    NoRevision(Seq<char>),
    NoSystem,
}

impl View for InputError {
    type V = FaultModel;

    open spec fn view(&self) -> FaultModel {
        match self {
            InputError::NoBuilds => FaultModel::NoBuilds,
            InputError::NoBuildId(i) => FaultModel::NoBuildId(*i as int),
            InputError::NoUri(input) => FaultModel::NoUri(input@),
            InputError::NoRevision(input) => FaultModel::NoRevision(input@),
            InputError::NoSystem => FaultModel::NoSystem,
        }
    }
}

/// The first of two faults.
pub open spec fn either_fault(a: Option<FaultModel>, b: Option<FaultModel>) -> Option<FaultModel> {
    match a {
        Some(fault) => Some(fault),
        None => b,
    }
}

/// The builds that the document of an evaluation names.
pub open spec fn builds_in(eval: JsonModel) -> Option<Seq<JsonModel>> {
    match eval.at("builds"@) {
        JsonModel::Array(items) => Some(items),
        _ => None,
    }
}

/// The first build that is no number.
pub open spec fn id_fault(items: Seq<JsonModel>) -> Option<FaultModel>
    decreases items.len(),
{
    if items.len() == 0 {
        None
    } else {
        either_fault(
            id_fault(items.drop_last()),
            if items.last().as_u64() is None {
                Some(FaultModel::NoBuildId(items.len() - 1))
            } else {
                None
            },
        )
    }
}

/// What is wrong with the list of builds.
pub open spec fn builds_fault(eval: JsonModel) -> Option<FaultModel> {
    if builds_in(eval) is None {
        Some(FaultModel::NoBuilds)
    } else {
        None
    }
}

/// The numbers of the builds of an evaluation.
pub open spec fn ids_of(eval: JsonModel) -> Seq<u64> {
    builds_in(eval)->0.map_values(|item: JsonModel| item.as_u64()->0)
}

/// A build that is no number is the first unless an earlier one is none either.
proof fn lemma_id_fault_at(items: Seq<JsonModel>, n: int)
    requires
        0 <= n < items.len(),
        id_fault(items.take(n)) is None,
        items[n].as_u64() is None,
    ensures
        id_fault(items) == Some(FaultModel::NoBuildId(n)),
    decreases items.len(),
{
    let fewer = items.drop_last();
    if n < items.len() - 1 {
        assert(fewer.take(n) =~= items.take(n));
        lemma_id_fault_at(fewer, n);
    } else {
        assert(fewer =~= items.take(n));
    }
}

/// The fault of a list of builds is a build.
proof fn lemma_id_fault_kind(items: Seq<JsonModel>)
    ensures
        id_fault(items) matches Some(fault) ==> fault is NoBuildId,
    decreases items.len(),
{
    if items.len() > 0 {
        lemma_id_fault_kind(items.drop_last());
    }
}

/// The numbers of the builds of an evaluation.
pub fn build_ids(eval: &Json) -> (ids: Result<Vec<u64>, InputError>)
    ensures
        match ids {
            Ok(ids) => builds_fault(eval@) is None && id_fault(builds_in(eval@)->0) is None && ids@
                == ids_of(eval@),
            Err(error) => either_fault(builds_fault(eval@), id_fault(builds_in(eval@)->0)) == Some(
                error@,
            ),
        },
{
    match eval.get("builds") {
        Some(Json::Array(items)) => {
            let ghost all = builds_in(eval@)->0;
            let mut ids: Vec<u64> = Vec::new();
            let mut i: usize = 0;
            while i < items.len()
                invariant
                    i <= items@.len(),
                    builds_in(eval@) == Some(all),
                    all.len() == items@.len(),
                    forall|j: int| 0 <= j < all.len() ==> #[trigger] all[j] == items@[j]@,
                    id_fault(all.take(i as int)) is None,
                    ids@ == all.take(i as int).map_values(|item: JsonModel| item.as_u64()->0),
                decreases items.len() - i,
            {
                assert(all[i as int] == items@[i as int]@);
                match items[i].as_u64() {
                    Some(id) => {
                        ids.push(id);
                        proof {
                            let next = all.take(i + 1);
                            assert(next.drop_last() =~= all.take(i as int));
                            assert(ids@ =~= next.map_values(|item: JsonModel| item.as_u64()->0));
                        }
                    },
                    None => {
                        proof {
                            lemma_id_fault_at(all, i as int);
                        }
                        return Err(InputError::NoBuildId(i));
                    },
                }
                i += 1;
            }
            assert(all.take(i as int) =~= all);
            Ok(ids)
        },
        _ => Err(InputError::NoBuilds),
    }
}

/// The part of the document of an evaluation on one of its inputs.
pub open spec fn input_in(eval: JsonModel, input: Seq<char>) -> JsonModel {
    eval.at("jobsetevalinputs"@).at(input)
}

/// The address of the archive of a revision.
pub open spec fn archive_url(uri: Seq<char>, revision: Seq<char>) -> Seq<char> {
    uri + "/archive/"@ + revision + ".tar.gz"@
}

/// What is wrong with an input: it has no address, or no revision.
pub open spec fn input_fault(eval: JsonModel, input: Seq<char>) -> Option<FaultModel> {
    if input_in(eval, input).at("uri"@).as_text() is None {
        Some(FaultModel::NoUri(input))
    } else if input_in(eval, input).at("revision"@).as_text() is None {
        Some(FaultModel::NoRevision(input))
    } else {
        None
    }
}

/// The address of the archive of an input.
fn get_input_url(eval: &Json, input: &'static str) -> (url: Result<String, InputError>)
    ensures
        match url {
            Ok(url) => input_fault(eval@, input@) is None && url@ == input_url(eval@, input@),
            Err(error) => input_fault(eval@, input@) == Some(error@),
        },
{
    let uri = input_text(eval, input, "uri");
    let revision = input_text(eval, input, "revision");
    match uri {
        Some(uri) => match revision {
            Some(revision) => {
                let mut url = uri.to_owned();
                url.append("/archive/");
                url.append(revision);
                url.append(".tar.gz");
                Ok(url)
            },
            None => Err(InputError::NoRevision(input)),
        },
        None => Err(InputError::NoUri(input)),
    }
}

/// A text in the part of the document of an evaluation on one of its inputs.
fn input_text<'a>(eval: &'a Json, input: &str, key: &str) -> (text: Option<&'a str>)
    ensures
        group::optional_str(text) == input_in(eval@, input@).at(key@).as_text(),
{
    match eval.get("jobsetevalinputs") {
        Some(inputs) => match inputs.get(input) {
            Some(part) => part.text_at(key),
            None => None,
        },
        None => None,
    }
}

/// What an evaluation was made from.
pub struct EvalInputs {
    pub release_nix_tarball_url: String,
    pub tarball_url: String,
    pub system: String,
    pub distro: Option<String>,
    pub cross_system: Option<String>,
}

/// The mathematical content of an [`EvalInputs`].
pub struct InputsModel {
    pub release_nix_tarball_url: Seq<char>,
    pub tarball_url: Seq<char>,
    pub system: Seq<char>,
    pub distro: Option<Seq<char>>,
    pub cross_system: Option<Seq<char>>,
}

impl View for EvalInputs {
    type V = InputsModel;

    open spec fn view(&self) -> InputsModel {
        InputsModel {
            release_nix_tarball_url: self.release_nix_tarball_url@,
            tarball_url: self.tarball_url@,
            system: self.system@,
            distro: match self.distro {
                Some(distro) => Some(distro@),
                None => None,
            },
            cross_system: match self.cross_system {
                Some(system) => Some(system@),
                None => None,
            },
        }
    }
}

/// The address of the archive of an input.
pub open spec fn input_url(eval: JsonModel, input: Seq<char>) -> Seq<char> {
    archive_url(
        input_in(eval, input).at("uri"@).as_text()->0,
        input_in(eval, input).at("revision"@).as_text()->0,
    )
}

/// The system that an evaluation is for.
pub open spec fn system_in(eval: JsonModel) -> Option<Seq<char>> {
    input_in(eval, "system"@).at("value"@).as_text()
}

/// What an evaluation was made from.
pub open spec fn inputs_of(eval: JsonModel) -> InputsModel {
    InputsModel {
        release_nix_tarball_url: input_url(eval, "nix-ros-hydra"@),
        tarball_url: input_url(eval, "nix-ros-overlay"@),
        system: system_in(eval)->0,
        distro: input_in(eval, "distro"@).at("value"@).as_text(),
        cross_system: input_in(eval, "crossSystem"@).at("value"@).as_text(),
    }
}

/// What keeps from telling what an evaluation was made from.
pub open spec fn inputs_fault(eval: JsonModel) -> Option<FaultModel> {
    either_fault(
        input_fault(eval, "nix-ros-hydra"@),
        either_fault(
            input_fault(eval, "nix-ros-overlay"@),
            if system_in(eval) is None {
                Some(FaultModel::NoSystem)
            } else {
                None
            },
        ),
    )
}

/// A borrowed text as one of its own.
fn owned(s: Option<&str>) -> (r: Option<String>)
    ensures
        match r {
            Some(r) => s matches Some(s) && r@ == s@,
            None => s is None,
        },
{
    match s {
        Some(s) => Some(s.to_owned()),
        None => None,
    }
}

impl EvalInputs {
    /// Reads from the document of an evaluation what it was made from.
    pub fn from_json(eval: &Json) -> (inputs: Result<EvalInputs, InputError>)
        ensures
            match inputs {
                Ok(inputs) => inputs_fault(eval@) is None && inputs@ == inputs_of(eval@),
                Err(error) => inputs_fault(eval@) == Some(error@),
            },
    {
        let release_nix_tarball_url = match get_input_url(eval, "nix-ros-hydra") {
            Ok(url) => url,
            Err(error) => {
                return Err(error);
            },
        };
        let tarball_url = match get_input_url(eval, "nix-ros-overlay") {
            Ok(url) => url,
            Err(error) => {
                return Err(error);
            },
        };
        let system = match input_text(eval, "system", "value") {
            Some(system) => system.to_owned(),
            None => {
                return Err(InputError::NoSystem);
            },
        };
        let distro = owned(input_text(eval, "distro", "value"));
        let cross_system = owned(input_text(eval, "crossSystem", "value"));
        Ok(EvalInputs { release_nix_tarball_url, tarball_url, system, distro, cross_system })
    }
}

/// What has to be fetched for an evaluation, and what it was made from.
pub struct EvalParts {
    pub build_ids: Vec<u64>,
    pub inputs: EvalInputs,
}

/// What is wrong with the document of an evaluation. That the builds are listed is looked at
/// first, their numbers last.
pub open spec fn eval_fault(eval: JsonModel) -> Option<FaultModel> {
    either_fault(
        builds_fault(eval),
        either_fault(inputs_fault(eval), id_fault(builds_in(eval)->0)),
    )
}

/// Reads from the document of an evaluation what has to be fetched for it.
pub fn fetch_hydra_eval(eval: &Json) -> (parts: Result<EvalParts, InputError>)
    ensures
        match parts {
            Ok(parts) => eval_fault(eval@) is None && parts.build_ids@ == ids_of(eval@)
                && parts.inputs@ == inputs_of(eval@),
            Err(error) => eval_fault(eval@) == Some(error@),
        },
{
    let build_ids = build_ids(eval);
    proof {
        lemma_id_fault_kind(builds_in(eval@)->0);
    }
    if let Err(InputError::NoBuilds) = &build_ids {
        return Err(InputError::NoBuilds);
    }
    let inputs = match EvalInputs::from_json(eval) {
        Ok(inputs) => inputs,
        Err(error) => {
            return Err(error);
        },
    };
    match build_ids {
        Ok(build_ids) => Ok(EvalParts { build_ids, inputs }),
        Err(error) => Err(error),
    }
}

} // verus!

//! Hydra builds, the state of an attribute in an evaluation, and what changed between two states.

use crate::json::{Json, JsonModel};
use crate::text;
use crate::text::decimal_text;
use vstd::prelude::*;
use vstd::string::*;

verus! {

/// A build as Hydra reports it.
pub struct HydraBuild {
    pub drvpath: String,
    pub finished: i8,
    pub buildstatus: i8,
    pub id: u64,
}

/// The mathematical content of a [`HydraBuild`].
pub struct BuildModel {
    pub drvpath: Seq<char>,
    pub finished: i8,
    pub buildstatus: i8,
    pub id: u64,
}

impl View for HydraBuild {
    type V = BuildModel;

    open spec fn view(&self) -> BuildModel {
        BuildModel {
            drvpath: self.drvpath@,
            finished: self.finished,
            buildstatus: self.buildstatus,
            id: self.id,
        }
    }
}

impl BuildModel {
    /// The build has finished and produced its outputs.
    pub open spec fn succeeded(self) -> bool {
        self.finished == 1 && self.buildstatus == 0
    }

    /// The build has finished without having been tried to the end.
    pub open spec fn was_aborted(self) -> bool {
        self.finished == 1 && self.buildstatus == 3
    }

    /// The page of the build.
    pub open spec fn page(self) -> Seq<char> {
        "https://hydra.iid.ciirc.cvut.cz/build/"@ + text::decimal(self.id as nat)
    }
}

/// The integer that a document is, if it fits into eight bits.
pub open spec fn small_integer(json: JsonModel) -> Option<i8> {
    match json.as_i64() {
        Some(n) => if -128 <= n <= 127 {
            Some(n as i8)
        } else {
            None
        },
        None => None,
    }
}

/// The build that a JSON object describes; nothing unless it holds all that a build consists of.
pub open spec fn build_in(json: JsonModel) -> Option<BuildModel> {
    match (
        json.at("drvpath"@).as_text(),
        small_integer(json.at("finished"@)),
        small_integer(json.at("buildstatus"@)),
        json.at("id"@).as_u64(),
    ) {
        (Some(drvpath), Some(finished), Some(buildstatus), Some(id)) => Some(
            BuildModel { drvpath, finished, buildstatus, id },
        ),
        _ => None,
    }
}

/// The eight-bit integer held by a field.
fn small_integer_at(json: &Json, key: &str) -> (n: Option<i8>)
    ensures
        n == small_integer(json@.at(key@)),
{
    match json.i64_at(key) {
        Some(n) => if -128 <= n && n <= 127 {
            Some(n as i8)
        } else {
            None
        },
        None => None,
    }
}

impl Clone for HydraBuild {
    fn clone(&self) -> (copy: Self)
        ensures
            copy == *self,
    {
        HydraBuild {
            drvpath: self.drvpath.clone(),
            finished: self.finished,
            buildstatus: self.buildstatus,
            id: self.id,
        }
    }
}

impl HydraBuild {
    /// Reads a build from a JSON object.
    pub fn from_json(json: &Json) -> (build: Option<HydraBuild>)
        ensures
            match build {
                Some(build) => build_in(json@) == Some(build@),
                None => build_in(json@) is None,
            },
    {
        let drvpath = json.text_at("drvpath");
        let finished = small_integer_at(json, "finished");
        let buildstatus = small_integer_at(json, "buildstatus");
        let id = json.u64_at("id");
        match (drvpath, finished, buildstatus, id) {
            (Some(drvpath), Some(finished), Some(buildstatus), Some(id)) => Some(
                HydraBuild { drvpath: drvpath.to_owned(), finished, buildstatus, id },
            ),
            _ => None,
        }
    }

    /// Whether the build has finished and produced its outputs.
    pub fn success(&self) -> (r: bool)
        ensures
            r == self@.succeeded(),
    {
        self.finished == 1 && self.buildstatus == 0
    }

    /// Whether the build has finished without having been tried to the end.
    pub fn aborted(&self) -> (r: bool)
        ensures
            r == self@.was_aborted(),
    {
        self.finished == 1 && self.buildstatus == 3
    }

    /// The address of the page of the build.
    pub fn url(&self) -> (r: String)
        ensures
            r@ == self@.page(),
    {
        let mut r = "https://hydra.iid.ciirc.cvut.cz/build/".to_owned();
        r.append(&decimal_text(self.id));
        r
    }
}

/// How many derivations depend on that of a build, which is counted with them: those that have
/// it among their inputs, and all. Both counts are zero for a build that succeeded.
#[derive(Clone, Copy)]
pub struct EvalInfo {
    pub direct_deps: usize,
    pub all_deps: usize,
}

/// A build together with its dependents.
pub struct BuildInfo {
    pub eval: EvalInfo,
    pub hydra: HydraBuild,
}

impl Clone for BuildInfo {
    fn clone(&self) -> (copy: Self)
        ensures
            copy == *self,
    {
        BuildInfo { eval: self.eval, hydra: self.hydra.clone() }
    }
}

/// The state of an attribute in an evaluation.
pub enum HydraAttrStatus<'a> {
    EvalError(&'a str),
    Build(BuildInfo),
    Unbuilt,
}

/// The mathematical content of a [`HydraAttrStatus`].
pub enum StatusModel {
    EvalError(Seq<char>),
    Build(EvalInfo, BuildModel),
    Unbuilt,
}

impl<'a> View for HydraAttrStatus<'a> {
    type V = StatusModel;

    open spec fn view(&self) -> StatusModel {
        match self {
            HydraAttrStatus::EvalError(error) => StatusModel::EvalError(error@),
            HydraAttrStatus::Build(build) => StatusModel::Build(build.eval, build.hydra@),
            HydraAttrStatus::Unbuilt => StatusModel::Unbuilt,
        }
    }
}

impl<'a> Clone for HydraAttrStatus<'a> {
    fn clone(&self) -> (copy: Self)
        ensures
            copy == *self,
    {
        match self {
            HydraAttrStatus::EvalError(error) => HydraAttrStatus::EvalError(error),
            HydraAttrStatus::Build(build) => HydraAttrStatus::Build(build.clone()),
            HydraAttrStatus::Unbuilt => HydraAttrStatus::Unbuilt,
        }
    }
}

/// What happened to an attribute between two evaluations.
#[derive(Clone, Copy, PartialEq, Eq, Structural, Debug, Hash)]
pub enum CiChange {
    AddedOk,
    Removed,
    FixedEvalError,
    FixedBuildFailure,
    BuildSuccessNoChange,
    UnbuiltNoChange,
    UnbuiltToBuildOk,
    AddedUnbuilt,
    EvalErrrorNoChange,
    BuildFailureNoChange,
    NewUnbuiltAttr,
    AddedEvalError,
    AddedBuildFailure,
    NewEvalError,
    FixedEvalErrorBuildFails,
    NewBuildFailure,
    UnbuiltToEvalError,
    UnbuiltToBuildFailure,
}

/// The ways in which an attribute can stand in an evaluation.
pub enum Standing {
    EvalError,
    BuildFailed,
    BuildOk,
    Unbuilt,
}

impl StatusModel {
    /// How the attribute stands.
    pub open spec fn standing(self) -> Standing {
        match self {
            StatusModel::EvalError(_) => Standing::EvalError,
            StatusModel::Build(_, build) => if build.succeeded() {
                Standing::BuildOk
            } else {
                Standing::BuildFailed
            },
            StatusModel::Unbuilt => Standing::Unbuilt,
        }
    }

    /// The build was aborted.
    pub open spec fn is_aborted(self) -> bool {
        self matches StatusModel::Build(_, build) && build.was_aborted()
    }
}

/// The change of an attribute that both evaluations have.
pub open spec fn change_between(old_status: Standing, new_status: Standing) -> CiChange {
    match (old_status, new_status) {
        (Standing::EvalError, Standing::EvalError) => CiChange::EvalErrrorNoChange,
        (Standing::EvalError, Standing::BuildFailed) => CiChange::FixedEvalErrorBuildFails,
        (Standing::EvalError, Standing::BuildOk) => CiChange::FixedEvalError,
        (Standing::BuildFailed, Standing::EvalError) => CiChange::NewEvalError,
        (Standing::BuildFailed, Standing::BuildFailed) => CiChange::BuildFailureNoChange,
        (Standing::BuildFailed, Standing::BuildOk) => CiChange::FixedBuildFailure,
        (Standing::BuildOk, Standing::EvalError) => CiChange::NewEvalError,
        (Standing::BuildOk, Standing::BuildFailed) => CiChange::NewBuildFailure,
        (Standing::BuildOk, Standing::BuildOk) => CiChange::BuildSuccessNoChange,
        (Standing::Unbuilt, Standing::EvalError) => CiChange::UnbuiltToEvalError,
        (Standing::Unbuilt, Standing::BuildFailed) => CiChange::UnbuiltToBuildFailure,
        (Standing::Unbuilt, Standing::BuildOk) => CiChange::UnbuiltToBuildOk,
        (Standing::Unbuilt, Standing::Unbuilt) => CiChange::UnbuiltNoChange,
        (_, Standing::Unbuilt) => CiChange::NewUnbuiltAttr,
    }
}

/// The change of an attribute that only the new evaluation has.
pub open spec fn change_as_new(new_status: Standing) -> CiChange {
    match new_status {
        Standing::EvalError => CiChange::AddedEvalError,
        Standing::BuildFailed => CiChange::AddedBuildFailure,
        Standing::BuildOk => CiChange::AddedOk,
        Standing::Unbuilt => CiChange::AddedUnbuilt,
    }
}

/// What is said of an attribute whose build was aborted.
pub open spec fn abortion_notice(attr: Seq<char>, build: BuildModel) -> Seq<char> {
    "attribute "@ + attr + " aborted in, see "@ + build.page()
}

impl<'a> HydraAttrStatus<'a> {
    /// What changed between this state and a later one.
    pub fn compare(&self, other: &HydraAttrStatus) -> (change: CiChange)
        ensures
            change == change_between(self@.standing(), other@.standing()),
    {
        match (self, other) {
            (HydraAttrStatus::Build(_), HydraAttrStatus::EvalError(_)) => CiChange::NewEvalError,
            (HydraAttrStatus::EvalError(_), HydraAttrStatus::Build(b)) => if !b.hydra.success() {
                CiChange::FixedEvalErrorBuildFails
            } else {
                CiChange::FixedEvalError
            },
            (HydraAttrStatus::EvalError(_), HydraAttrStatus::EvalError(_)) => {
                CiChange::EvalErrrorNoChange
            },
            (HydraAttrStatus::Build(b1), HydraAttrStatus::Build(b2)) => if b1.hydra.success() {
                if b2.hydra.success() {
                    CiChange::BuildSuccessNoChange
                } else {
                    CiChange::NewBuildFailure
                }
            } else {
                if b2.hydra.success() {
                    CiChange::FixedBuildFailure
                } else {
                    CiChange::BuildFailureNoChange
                }
            },
            (HydraAttrStatus::Unbuilt, HydraAttrStatus::Unbuilt) => CiChange::UnbuiltNoChange,
            (HydraAttrStatus::Unbuilt, HydraAttrStatus::EvalError(_)) => {
                CiChange::UnbuiltToEvalError
            },
            (HydraAttrStatus::Unbuilt, HydraAttrStatus::Build(b)) => if b.hydra.success() {
                CiChange::UnbuiltToBuildOk
            } else {
                CiChange::UnbuiltToBuildFailure
            },
            (_, HydraAttrStatus::Unbuilt) => CiChange::NewUnbuiltAttr,
        }
    }

    /// What changed if the attribute was not there before.
    pub fn ci_chage_as_new(&self) -> (change: CiChange)
        ensures
            change == change_as_new(self@.standing()),
    {
        match self {
            HydraAttrStatus::EvalError(_) => CiChange::AddedEvalError,
            HydraAttrStatus::Build(b) => if b.hydra.success() {
                CiChange::AddedOk
            } else {
                CiChange::AddedBuildFailure
            },
            HydraAttrStatus::Unbuilt => CiChange::AddedUnbuilt,
        }
    }

    /// The message to panic with, if the build was aborted.
    pub fn panic_if_aborted(&self, attr: &str) -> (message: Option<String>)
        ensures
            message is Some <==> self@.is_aborted(),
            message matches Some(message) ==> message@ == abortion_notice(attr@, self@->Build_1),
    {
        match self {
            HydraAttrStatus::Build(b) => if b.hydra.aborted() {
                let mut message = "attribute ".to_owned();
                message.append(attr);
                message.append(" aborted in, see ");
                message.append(&b.hydra.url());
                Some(message)
            } else {
                None
            },
            _ => None,
        }
    }
}

impl CiChange {
    /// The caption of the group of attributes with this change.
    pub open spec fn caption(self) -> Seq<char> {
        match self {
            CiChange::AddedOk => "✅ Added successfully"@,
            CiChange::Removed => "✅ Removed"@,
            CiChange::FixedEvalError => "✅ Fixed eval errors"@,
            CiChange::FixedBuildFailure => "✅ Fixed build failures"@,
            CiChange::BuildSuccessNoChange => "✅ Still succeeding builds"@,
            CiChange::UnbuiltNoChange => "✅ Still unbuilt attributes"@,
            CiChange::UnbuiltToBuildOk => "✅ Starts building previously unbuilt attributes successfully"@,
            CiChange::AddedUnbuilt => "⚠️ Added unbuilt attributes"@,
            CiChange::EvalErrrorNoChange => "⚠️ Still present eval errors"@,
            CiChange::BuildFailureNoChange => "⚠️ Still failing builds"@,
            CiChange::NewUnbuiltAttr => "⚠️ Introduced unbuilt attributes"@,
            CiChange::AddedEvalError => "❌ Added with eval errors"@,
            CiChange::AddedBuildFailure => "❌ Added with build failures"@,
            CiChange::NewEvalError => "❌ Introduced eval errors"@,
            CiChange::FixedEvalErrorBuildFails => "❌ Fixed eval errors but build fails"@,
            CiChange::NewBuildFailure => "❌ Introduced build failures"@,
            CiChange::UnbuiltToEvalError => "❌ Turns unbuilt attributes into eval errors"@,
            CiChange::UnbuiltToBuildFailure => "❌ Starts building previously unbuilt attributes with build failures"@,
        }
    }

    /// The attributes of the group are listed one by one.
    pub open spec fn lists_attributes(self) -> bool {
        !(self is BuildSuccessNoChange || self is UnbuiltNoChange || self is EvalErrrorNoChange || self is BuildFailureNoChange || self is NewEvalError)
    }

    /// The attributes of the group are summed up by the reason of their evaluation errors.
    pub open spec fn sums_up_reasons(self) -> bool {
        self is EvalErrrorNoChange || self is NewEvalError
    }

    /// All changes, in the order in which they are reported.
    pub open spec fn in_order() -> Seq<CiChange> {
        seq![
            CiChange::AddedOk,
            CiChange::Removed,
            CiChange::FixedEvalError,
            CiChange::FixedBuildFailure,
            CiChange::BuildSuccessNoChange,
            CiChange::UnbuiltNoChange,
            CiChange::UnbuiltToBuildOk,
            CiChange::AddedUnbuilt,
            CiChange::EvalErrrorNoChange,
            CiChange::BuildFailureNoChange,
            CiChange::NewUnbuiltAttr,
            CiChange::AddedEvalError,
            CiChange::AddedBuildFailure,
            CiChange::NewEvalError,
            CiChange::FixedEvalErrorBuildFails,
            CiChange::NewBuildFailure,
            CiChange::UnbuiltToEvalError,
            CiChange::UnbuiltToBuildFailure,
        ]
    }

    /// The caption of the group of attributes with this change.
    pub fn label(self) -> (caption: &'static str)
        ensures
            caption@ == self.caption(),
    {
        match self {
            CiChange::AddedOk => "✅ Added successfully",
            CiChange::Removed => "✅ Removed",
            CiChange::FixedEvalError => "✅ Fixed eval errors",
            CiChange::FixedBuildFailure => "✅ Fixed build failures",
            CiChange::BuildSuccessNoChange => "✅ Still succeeding builds",
            CiChange::UnbuiltNoChange => "✅ Still unbuilt attributes",
            CiChange::UnbuiltToBuildOk => "✅ Starts building previously unbuilt attributes successfully",
            CiChange::AddedUnbuilt => "⚠️ Added unbuilt attributes",
            CiChange::EvalErrrorNoChange => "⚠️ Still present eval errors",
            CiChange::BuildFailureNoChange => "⚠️ Still failing builds",
            CiChange::NewUnbuiltAttr => "⚠️ Introduced unbuilt attributes",
            CiChange::AddedEvalError => "❌ Added with eval errors",
            CiChange::AddedBuildFailure => "❌ Added with build failures",
            CiChange::NewEvalError => "❌ Introduced eval errors",
            CiChange::FixedEvalErrorBuildFails => "❌ Fixed eval errors but build fails",
            CiChange::NewBuildFailure => "❌ Introduced build failures",
            CiChange::UnbuiltToEvalError => "❌ Turns unbuilt attributes into eval errors",
            CiChange::UnbuiltToBuildFailure => "❌ Starts building previously unbuilt attributes with build failures",
        }
    }

    /// Whether the attributes of the group are listed one by one.
    pub fn list_attrs(self) -> (r: bool)
        ensures
            r == self.lists_attributes(),
    {
        match self {
            CiChange::BuildSuccessNoChange
            | CiChange::UnbuiltNoChange
            | CiChange::EvalErrrorNoChange
            | CiChange::BuildFailureNoChange
            | CiChange::NewEvalError => false,
            _ => true,
        }
    }

    /// Whether the attributes of the group are summed up by the reason of their errors.
    pub fn summary(self) -> (r: bool)
        ensures
            r == self.sums_up_reasons(),
    {
        match self {
            CiChange::EvalErrrorNoChange | CiChange::NewEvalError => true,
            _ => false,
        }
    }

    /// All changes, in the order in which they are reported.
    pub fn all() -> (changes: Vec<CiChange>)
        ensures
            changes@ == CiChange::in_order(),
    {
        let mut changes: Vec<CiChange> = Vec::new();
        changes.push(CiChange::AddedOk);
        changes.push(CiChange::Removed);
        changes.push(CiChange::FixedEvalError);
        changes.push(CiChange::FixedBuildFailure);
        changes.push(CiChange::BuildSuccessNoChange);
        changes.push(CiChange::UnbuiltNoChange);
        changes.push(CiChange::UnbuiltToBuildOk);
        changes.push(CiChange::AddedUnbuilt);
        changes.push(CiChange::EvalErrrorNoChange);
        changes.push(CiChange::BuildFailureNoChange);
        changes.push(CiChange::NewUnbuiltAttr);
        changes.push(CiChange::AddedEvalError);
        changes.push(CiChange::AddedBuildFailure);
        changes.push(CiChange::NewEvalError);
        changes.push(CiChange::FixedEvalErrorBuildFails);
        changes.push(CiChange::NewBuildFailure);
        changes.push(CiChange::UnbuiltToEvalError);
        changes.push(CiChange::UnbuiltToBuildFailure);
        changes
    }
}

/// Every change is reported at exactly one place.
pub proof fn law_every_change_reported_once(change: CiChange)
    ensures
        CiChange::in_order().contains(change),
        CiChange::in_order().no_duplicates(),
{
    let all = CiChange::in_order();
    assert(all[0] == CiChange::AddedOk);
    assert(all[1] == CiChange::Removed);
    assert(all[2] == CiChange::FixedEvalError);
    assert(all[3] == CiChange::FixedBuildFailure);
    assert(all[4] == CiChange::BuildSuccessNoChange);
    assert(all[5] == CiChange::UnbuiltNoChange);
    assert(all[6] == CiChange::UnbuiltToBuildOk);
    assert(all[7] == CiChange::AddedUnbuilt);
    assert(all[8] == CiChange::EvalErrrorNoChange);
    assert(all[9] == CiChange::BuildFailureNoChange);
    assert(all[10] == CiChange::NewUnbuiltAttr);
    assert(all[11] == CiChange::AddedEvalError);
    assert(all[12] == CiChange::AddedBuildFailure);
    assert(all[13] == CiChange::NewEvalError);
    assert(all[14] == CiChange::FixedEvalErrorBuildFails);
    assert(all[15] == CiChange::NewBuildFailure);
    assert(all[16] == CiChange::UnbuiltToEvalError);
    assert(all[17] == CiChange::UnbuiltToBuildFailure);
}

/// What is shown of an attribute in a group: a build, an evaluation error, or its name alone.
pub enum Row {
    Build,
    EvalError,
    Name,
}

/// What is shown of an attribute with a given state in the new evaluation, if it has one there.
pub open spec fn row_of(new_status: Option<Standing>) -> Row {
    match new_status {
        Some(Standing::BuildOk) | Some(Standing::BuildFailed) => Row::Build,
        Some(Standing::EvalError) => Row::EvalError,
        Some(Standing::Unbuilt) | None => Row::Name,
    }
}

/// The change of an attribute, given its state in either evaluation; nothing if it is in none.
pub open spec fn change_of(old_status: Option<Standing>, new_status: Option<Standing>) -> Option<
    CiChange,
> {
    match (old_status, new_status) {
        (None, None) => None,
        (None, Some(new_status)) => Some(change_as_new(new_status)),
        (Some(_), None) => Some(CiChange::Removed),
        (Some(old_status), Some(new_status)) => Some(change_between(old_status, new_status)),
    }
}

/// Attributes with the same change are shown by the same kind of row, so that one table header
/// serves a whole group.
pub proof fn law_group_has_one_kind_of_row(
    old1: Option<Standing>,
    new1: Option<Standing>,
    old2: Option<Standing>,
    new2: Option<Standing>,
)
    requires
        change_of(old1, new1) is Some,
        change_of(old1, new1) == change_of(old2, new2),
    ensures
        row_of(new1) == row_of(new2),
{
}

/// A change names the state of the attribute in the new evaluation.
pub proof fn law_change_tells_new_state(
    old1: Option<Standing>,
    new1: Option<Standing>,
    old2: Option<Standing>,
    new2: Option<Standing>,
)
    requires
        change_of(old1, new1) is Some,
        change_of(old1, new1) == change_of(old2, new2),
    ensures
        new1 == new2,
{
}

/// An attribute whose state stays the same is reported as unchanged.
pub proof fn law_same_state_is_no_change(status: Standing)
    ensures
        change_between(status, status) == (match status {
            Standing::EvalError => CiChange::EvalErrrorNoChange,
            Standing::BuildFailed => CiChange::BuildFailureNoChange,
            Standing::BuildOk => CiChange::BuildSuccessNoChange,
            Standing::Unbuilt => CiChange::UnbuiltNoChange,
        }),
        !change_between(status, status).lists_attributes(),
{
}

/// What is fixed one way is broken the other way, and what is removed one way is added the other
/// way.
pub proof fn law_reversed_change(old_status: Standing, new_status: Standing)
    ensures
        change_between(old_status, new_status) is FixedBuildFailure <==> change_between(
            new_status,
            old_status,
        ) is NewBuildFailure,
        change_between(old_status, new_status) is FixedEvalError || change_between(
            old_status,
            new_status,
        ) is FixedEvalErrorBuildFails <==> change_between(
            new_status,
            old_status,
        ) is NewEvalError,
        change_of(Some(old_status), None) == Some(CiChange::Removed),
        change_of(None, Some(old_status)) == Some(change_as_new(old_status)),
{
}

/// Only the groups that are summed up hold evaluation errors without listing attributes, and
/// what they hold are evaluation errors of attributes that both evaluations have.
pub proof fn law_summed_up_groups_hold_eval_errors(old_status: Standing, new_status: Option<Standing>)
    requires
        change_of(Some(old_status), new_status)->0.sums_up_reasons(),
    ensures
        new_status == Some(Standing::EvalError),
{
}

} // verus!

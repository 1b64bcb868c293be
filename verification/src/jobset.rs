//! Which evaluations of jobsets to compare.

use crate::eval;
use crate::group;
use crate::json::{Json, JsonModel};
use crate::text;
use crate::text::{decimal_text, join, same_text};
use vstd::prelude::*;
use vstd::string::*;

verus! {

// ---- the evaluations of a jobset ----

/// The path of the evaluations of a jobset on the server.
pub open spec fn evals_path(project: Seq<char>, jobset: Seq<char>) -> Seq<char> {
    "jobset/"@ + project + "/"@ + jobset + "/evals"@
}

/// The projects that may have a jobset, in the order in which they are tried.
pub open spec fn projects() -> Seq<Seq<char>> {
    seq!["nix-ros-experiments"@, "nix-ros-overlay"@]
}

/// What is said if no project has a jobset.
pub open spec fn jobset_notice(jobset: Seq<char>, errors: Seq<Seq<char>>) -> Seq<char> {
    "Cannot fetch "@ + jobset + " jobset because of the following errors:\n  "@ + text::joined(
        errors,
        "\n  "@,
    )
}

/// The search for the project that has a jobset, with the errors met so far.
pub struct JobsetSearch {
    pub jobset: String,
    pub errors: Vec<String>,
}

/// What is to be done next in the search for a jobset.
pub enum SearchStep {
    /// Fetch the document at this path.
    Fetch(String),
    /// Give up with this message.
    Fail(String),
}

/// The path of the evaluations of a jobset on the server.
pub fn jobset_evals_path(project: &str, jobset: &str) -> (path: String)
    ensures
        path@ == evals_path(project@, jobset@),
{
    let mut path = "jobset/".to_owned();
    path.append(project);
    path.append("/");
    path.append(jobset);
    path.append("/evals");
    path
}

impl JobsetSearch {
    /// A search that has not met an error.
    pub fn new(jobset: &str) -> (search: JobsetSearch)
        ensures
            search.jobset@ == jobset@,
            search.errors@ == Seq::<String>::empty(),
    {
        JobsetSearch { jobset: jobset.to_owned(), errors: Vec::new() }
    }

    /// What is to be done next: every error so far was met with another project.
    pub fn get_jobset_evals(&self) -> (step: SearchStep)
        ensures
            match step {
                SearchStep::Fetch(path) => self.errors@.len() < projects().len() && path@
                    == evals_path(projects()[self.errors@.len() as int], self.jobset@),
                SearchStep::Fail(message) => self.errors@.len() >= projects().len() && message@
                    == jobset_notice(self.jobset@, text::views(self.errors@)),
            },
    {
        if self.errors.len() == 0 {
            SearchStep::Fetch(jobset_evals_path("nix-ros-experiments", &self.jobset))
        } else if self.errors.len() == 1 {
            SearchStep::Fetch(jobset_evals_path("nix-ros-overlay", &self.jobset))
        } else {
            let mut message = "Cannot fetch ".to_owned();
            message.append(&self.jobset);
            message.append(" jobset because of the following errors:\n  ");
            message.append(&join(&self.errors, "\n  "));
            SearchStep::Fail(message)
        }
    }

    /// Takes note of an error.
    pub fn note_error(&mut self, error: String)
        ensures
            final(self).jobset == old(self).jobset,
            final(self).errors@ == old(self).errors@.push(error),
    {
        self.errors.push(error);
    }
}

/// The evaluations that the document of a jobset lists.
pub open spec fn evals_in(jobset: JsonModel) -> Option<Seq<JsonModel>> {
    match jobset.at("evals"@) {
        JsonModel::Array(items) => Some(items),
        _ => None,
    }
}

/// The latest evaluation that the document of a jobset lists.
pub open spec fn latest_in(jobset: JsonModel) -> Option<u64> {
    match evals_in(jobset) {
        Some(evals) => if evals.len() > 0 {
            evals[0].at("id"@).as_u64()
        } else {
            None
        },
        None => None,
    }
}

/// The latest evaluation of a jobset; nothing if its document does not tell.
pub fn get_latest_jobset_eval(jobset_evals: &Json) -> (id: Option<u64>)
    ensures
        id == latest_in(jobset_evals@),
{
    match jobset_evals.get("evals") {
        Some(Json::Array(evals)) => if evals.len() > 0 {
            assert(evals_in(jobset_evals@)->0[0] == evals@[0]@);
            evals[0].u64_at("id")
        } else {
            None
        },
        _ => None,
    }
}

// ---- the evaluation of a commit ----

/// What the search for the evaluation of a commit comes to.
#[derive(Clone, Copy, PartialEq, Eq, Structural)]
pub enum Finding {
    /// The evaluation with this number is of the commit.
    Found(u64),
    /// No evaluation is of the commit.
    NotFound,
    /// An evaluation does not tell which commit it is of, or which number it has.
    Malformed,
}

/// The first finding that ends a search.
pub open spec fn first_finding(findings: Seq<Finding>) -> Finding
    decreases findings.len(),
{
    if findings.len() == 0 {
        Finding::NotFound
    } else {
        match first_finding(findings.drop_last()) {
            Finding::NotFound => findings.last(),
            finding => finding,
        }
    }
}

/// A finding ends the search unless an earlier one has ended it.
proof fn lemma_first_finding_at(findings: Seq<Finding>, n: int)
    requires
        0 <= n < findings.len(),
        first_finding(findings.take(n)) == Finding::NotFound,
    ensures
        first_finding(findings.take(n + 1)) == findings[n],
        findings[n] != Finding::NotFound ==> first_finding(findings) == findings[n],
    decreases findings.len(),
{
    assert(findings.take(n + 1).drop_last() =~= findings.take(n));
    if findings[n] != Finding::NotFound {
        if n + 1 == findings.len() {
            assert(findings.take(n + 1) =~= findings);
        } else {
            let rest = findings.drop_last();
            assert(rest.take(n) =~= findings.take(n));
            lemma_first_finding_at(rest, n);
        }
    }
}

/// The commit of nix-ros-overlay that an evaluation is of.
pub open spec fn revision_in(eval: JsonModel) -> Option<Seq<char>> {
    eval.at("jobsetevalinputs"@).at("nix-ros-overlay"@).at("revision"@).as_text()
}

/// Whether an evaluation is of a commit.
pub open spec fn eval_finding(eval: JsonModel, sha: Seq<char>) -> Finding {
    match (revision_in(eval), eval.at("id"@).as_u64()) {
        (Some(revision), Some(id)) => if revision == sha {
            Finding::Found(id)
        } else {
            Finding::NotFound
        },
        _ => Finding::Malformed,
    }
}

/// Which evaluation of a jobset is of a commit.
pub open spec fn jobset_finding(jobset: JsonModel, sha: Seq<char>) -> Finding {
    match evals_in(jobset) {
        Some(evals) => first_finding(evals.map_values(|eval: JsonModel| eval_finding(eval, sha))),
        None => Finding::Malformed,
    }
}

/// Which evaluation of several jobsets is of a commit.
pub open spec fn commit_finding(jobsets: Seq<JsonModel>, sha: Seq<char>) -> Finding {
    first_finding(jobsets.map_values(|jobset: JsonModel| jobset_finding(jobset, sha)))
}

/// The commit of nix-ros-overlay that an evaluation is of.
fn revision_of(eval: &Json) -> (revision: Option<&str>)
    ensures
        group::optional_str(revision) == revision_in(eval@),
{
    match eval.get("jobsetevalinputs") {
        Some(inputs) => match inputs.get("nix-ros-overlay") {
            Some(overlay) => overlay.text_at("revision"),
            None => None,
        },
        None => None,
    }
}

/// Looks for the evaluation of a commit in a jobset.
fn find_in_jobset(jobset: &Json, sha: &str) -> (finding: Finding)
    ensures
        finding == jobset_finding(jobset@, sha@),
{
    match jobset.get("evals") {
        Some(Json::Array(evals)) => {
            let ghost all = evals_in(jobset@)->0;
            let ghost findings = all.map_values(|eval: JsonModel| eval_finding(eval, sha@));
            let mut i: usize = 0;
            while i < evals.len()
                invariant
                    i <= evals@.len(),
                    evals_in(jobset@) == Some(all),
                    all.len() == evals@.len(),
                    forall|j: int| 0 <= j < all.len() ==> #[trigger] all[j] == evals@[j]@,
                    findings == all.map_values(|eval: JsonModel| eval_finding(eval, sha@)),
                    first_finding(findings.take(i as int)) == Finding::NotFound,
                decreases evals.len() - i,
            {
                let eval = &evals[i];
                proof {
                    assert(all[i as int] == eval@);
                    lemma_first_finding_at(findings, i as int);
                }
                match (revision_of(eval), eval.u64_at("id")) {
                    (Some(revision), Some(id)) => {
                        if same_text(revision, sha) {
                            return Finding::Found(id);
                        }
                    },
                    _ => {
                        return Finding::Malformed;
                    },
                }
                i += 1;
            }
            assert(findings.take(i as int) =~= findings);
            Finding::NotFound
        },
        _ => Finding::Malformed,
    }
}

/// Looks for the evaluation of a commit in several jobsets, one after the other.
pub fn find_eval_id_of_commit(jobsets: &Vec<Json>, sha: &str) -> (finding: Finding)
    ensures
        finding == commit_finding(eval::json_views(jobsets@), sha@),
{
    let ghost all = eval::json_views(jobsets@);
    let ghost findings = all.map_values(|jobset: JsonModel| jobset_finding(jobset, sha@));
    let mut i: usize = 0;
    while i < jobsets.len()
        invariant
            i <= jobsets@.len(),
            all == eval::json_views(jobsets@),
            findings == all.map_values(|jobset: JsonModel| jobset_finding(jobset, sha@)),
            first_finding(findings.take(i as int)) == Finding::NotFound,
        decreases jobsets.len() - i,
    {
        proof {
            assert(all[i as int] == jobsets@[i as int]@);
            lemma_first_finding_at(findings, i as int);
        }
        let finding = find_in_jobset(&jobsets[i], sha);
        match finding {
            Finding::NotFound => {},
            _ => {
                return finding;
            },
        }
        i += 1;
    }
    assert(findings.take(i as int) =~= findings);
    Finding::NotFound
}

// ---- pull requests ----

/// The commits of a pull request, and whether it goes into the development branch.
pub struct PullRequest {
    pub base_sha: String,
    pub head_sha: String,
    pub into_develop: bool,
}

/// The mathematical content of a [`PullRequest`].
pub struct PullRequestModel {
    pub base_sha: Seq<char>,
    pub head_sha: Seq<char>,
    pub into_develop: bool,
}

impl View for PullRequest {
    type V = PullRequestModel;

    open spec fn view(&self) -> PullRequestModel {
        PullRequestModel {
            base_sha: self.base_sha@,
            head_sha: self.head_sha@,
            into_develop: self.into_develop,
        }
    }
}

/// The pull request that a document describes; nothing unless it names both commits.
pub open spec fn pull_request_in(pr: JsonModel) -> Option<PullRequestModel> {
    match (pr.at("base"@).at("sha"@).as_text(), pr.at("head"@).at("sha"@).as_text()) {
        (Some(base_sha), Some(head_sha)) => Some(
            PullRequestModel {
                base_sha,
                head_sha,
                into_develop: pr.at("base"@).at("repo"@).at("full_name"@).as_text() == Some(
                    "lopsided98/nix-ros-overlay"@,
                ) && pr.at("base"@).at("ref"@).as_text() == Some("develop"@),
            },
        ),
        _ => None,
    }
}

/// The path of a pull request for the GitHub API.
pub open spec fn pull_request_api(number: usize) -> Seq<char> {
    "repos/lopsided98/nix-ros-overlay/pulls/"@ + text::decimal(number as nat)
}

/// The path of a pull request for the GitHub API.
pub fn pull_request_path(number: usize) -> (path: String)
    ensures
        path@ == pull_request_api(number),
{
    let mut path = "repos/lopsided98/nix-ros-overlay/pulls/".to_owned();
    path.append(&decimal_text(number as u64));
    path
}

/// The jobsets in which the commits of a pull request are looked for, in this order.
pub open spec fn pull_request_jobsets() -> Seq<Seq<char>> {
    seq![
        "jobset/nix-ros-experiments/wentasah-rosdistro-sync/evals"@,
        "jobset/nix-ros-experiments/wentasah-test/evals"@,
        "jobset/nix-ros-experiments/lopsided98-develop/evals"@,
    ]
}

/// The paths of the jobsets in which the commits of a pull request are looked for.
pub fn pull_request_jobset_paths() -> (paths: Vec<String>)
    ensures
        text::views(paths@) == pull_request_jobsets(),
{
    let mut paths: Vec<String> = Vec::new();
    paths.push("jobset/nix-ros-experiments/wentasah-rosdistro-sync/evals".to_owned());
    paths.push("jobset/nix-ros-experiments/wentasah-test/evals".to_owned());
    paths.push("jobset/nix-ros-experiments/lopsided98-develop/evals".to_owned());
    assert(text::views(paths@) =~= pull_request_jobsets());
    paths
}

/// What is to be done for a pull request, given what was found of its commits.
pub enum PrStep {
    /// Compare these evaluations.
    Compare(u64, u64),
    /// Look again without the cache.
    LookAgain,
    /// Compare the latest evaluation of the development branch with this one.
    CompareLatest(u64),
    /// Give up with this message.
    Fail(String),
}

/// The mathematical content of a [`PrStep`].
pub enum PrStepModel {
    Compare(u64, u64),
    LookAgain,
    CompareLatest(u64),
    Fail(Seq<char>),
}

impl View for PrStep {
    type V = PrStepModel;

    open spec fn view(&self) -> PrStepModel {
        match self {
            PrStep::Compare(base, head) => PrStepModel::Compare(*base, *head),
            PrStep::LookAgain => PrStepModel::LookAgain,
            PrStep::CompareLatest(head) => PrStepModel::CompareLatest(*head),
            PrStep::Fail(message) => PrStepModel::Fail(message@),
        }
    }
}

/// The number of an evaluation, or that it is unknown.
pub open spec fn number_or_unknown(id: Option<u64>) -> Seq<char> {
    match id {
        Some(id) => text::decimal(id as nat),
        None => "???"@,
    }
}

/// Writes the number of an evaluation, or that it is unknown.
fn write_number(id: Option<u64>) -> (r: String)
    ensures
        r@ == number_or_unknown(id),
{
    match id {
        Some(id) => decimal_text(id),
        None => "???".to_owned(),
    }
}

impl PullRequestModel {
    /// What is said if the evaluations of the commits are not found.
    pub open spec fn missing_notice(self, base_eval: Option<u64>, head_eval: Option<u64>) -> Seq<
        char,
    > {
        "Cannot find needed Hydra evaluations for both commits: base="@ + self.base_sha + "->"@
            + number_or_unknown(base_eval) + " head="@ + self.head_sha + "->"@ + number_or_unknown(
            head_eval,
        )
    }

    /// What is said if the latest evaluation stands in for that of the base commit.
    pub open spec fn stand_in_notice(self, latest: u64) -> Seq<char> {
        "Cannot find Hydra evaluation for base commit "@ + self.base_sha
            + ". Using latest evaluation "@ + text::decimal(latest as nat)
            + " of the develop branch instead."@
    }

    /// What is to be done, given the evaluations found for the base and the head.
    pub open spec fn step(
        self,
        base_eval: Option<u64>,
        head_eval: Option<u64>,
        use_cache: bool,
    ) -> PrStepModel {
        match (base_eval, head_eval) {
            (Some(base), Some(head)) => PrStepModel::Compare(base, head),
            _ => if use_cache {
                PrStepModel::LookAgain
            } else if base_eval is None && head_eval is Some && self.into_develop {
                PrStepModel::CompareLatest(head_eval->0)
            } else {
                PrStepModel::Fail(self.missing_notice(base_eval, head_eval))
            },
        }
    }
}

impl Finding {
    /// The number of the evaluation, if one was found.
    pub open spec fn found(self) -> Option<u64> {
        match self {
            Finding::Found(id) => Some(id),
            _ => None,
        }
    }
}

impl PullRequestModel {
    /// What is to be done, given the evaluations of the jobsets; nothing if they do not tell
    /// which commits they are of.
    pub open spec fn decision(self, jobsets: Seq<JsonModel>, use_cache: bool) -> Option<
        PrStepModel,
    > {
        let base = commit_finding(jobsets, self.base_sha);
        let head = commit_finding(jobsets, self.head_sha);
        if base is Malformed || head is Malformed {
            None
        } else {
            Some(self.step(base.found(), head.found(), use_cache))
        }
    }
}

/// An optional step, as its content.
pub open spec fn optional_step(step: Option<PrStep>) -> Option<PrStepModel> {
    match step {
        Some(step) => Some(step@),
        None => None,
    }
}

impl PullRequest {
    /// Looks for the commits in the jobsets and says what is to be done; nothing if an evaluation
    /// does not tell which commit it is of.
    pub fn decide(&self, jobsets: &Vec<Json>, use_cache: bool) -> (step: Option<PrStep>)
        ensures
            optional_step(step) == self@.decision(eval::json_views(jobsets@), use_cache),
    {
        let base_eval = match find_eval_id_of_commit(jobsets, &self.base_sha) {
            Finding::Found(id) => Some(id),
            Finding::NotFound => None,
            Finding::Malformed => {
                return None;
            },
        };
        let head_eval = match find_eval_id_of_commit(jobsets, &self.head_sha) {
            Finding::Found(id) => Some(id),
            Finding::NotFound => None,
            Finding::Malformed => {
                return None;
            },
        };
        Some(self.handle_pr(base_eval, head_eval, use_cache))
    }

    /// Reads a pull request from its document.
    pub fn from_json(pr: &Json) -> (request: Option<PullRequest>)
        ensures
            match request {
                Some(request) => pull_request_in(pr@) == Some(request@),
                None => pull_request_in(pr@) is None,
            },
    {
        let base = match pr.get("base") {
            Some(base) => base,
            None => {
                return None;
            },
        };
        let head_sha = match pr.get("head") {
            Some(head) => match head.text_at("sha") {
                Some(sha) => sha,
                None => {
                    return None;
                },
            },
            None => {
                return None;
            },
        };
        let base_sha = match base.text_at("sha") {
            Some(sha) => sha,
            None => {
                return None;
            },
        };
        let in_repo = match base.get("repo") {
            Some(repo) => match repo.text_at("full_name") {
                Some(name) => same_text(name, "lopsided98/nix-ros-overlay"),
                None => false,
            },
            None => false,
        };
        let on_branch = match base.text_at("ref") {
            Some(name) => same_text(name, "develop"),
            None => false,
        };
        Some(
            PullRequest {
                base_sha: base_sha.to_owned(),
                head_sha: head_sha.to_owned(),
                into_develop: in_repo && on_branch,
            },
        )
    }

    /// What is to be done, given the evaluations found for the base and the head.
    pub fn handle_pr(
        &self,
        base_eval: Option<u64>,
        head_eval: Option<u64>,
        use_cache: bool,
    ) -> (step: PrStep)
        ensures
            step@ == self@.step(base_eval, head_eval, use_cache),
    {
        match (base_eval, head_eval) {
            (Some(base), Some(head)) => {
                return PrStep::Compare(base, head);
            },
            (None, Some(head)) => {
                if !use_cache && self.into_develop {
                    return PrStep::CompareLatest(head);
                }
            },
            _ => {},
        }
        if use_cache {
            return PrStep::LookAgain;
        }
        let mut message = "Cannot find needed Hydra evaluations for both commits: base=".to_owned();
        message.append(&self.base_sha);
        message.append("->");
        message.append(&write_number(base_eval));
        message.append(" head=");
        message.append(&self.head_sha);
        message.append("->");
        message.append(&write_number(head_eval));
        PrStep::Fail(message)
    }

    /// The warning that the latest evaluation stands in for that of the base commit.
    pub fn stand_in_warning(&self, latest: u64) -> (r: String)
        ensures
            r@ == self@.stand_in_notice(latest),
    {
        let mut r = "Cannot find Hydra evaluation for base commit ".to_owned();
        r.append(&self.base_sha);
        r.append(". Using latest evaluation ");
        r.append(&decimal_text(latest));
        r.append(" of the develop branch instead.");
        r
    }
}

/// The search for the evaluations of a pull request, first through the cache, then without it.
pub struct PrSearch {
    request: PullRequest,
    use_cache: bool,
}

/// The mathematical content of a [`PrSearch`].
pub struct PrSearchModel {
    pub request: PullRequestModel,
    pub use_cache: bool,
}

impl View for PrSearch {
    type V = PrSearchModel;

    closed spec fn view(&self) -> PrSearchModel {
        PrSearchModel { request: self.request@, use_cache: self.use_cache }
    }
}

impl PrSearchModel {
    /// What is to be done, given the evaluations of the jobsets.
    pub open spec fn decision(self, jobsets: Seq<JsonModel>) -> Option<PrStepModel> {
        self.request.decision(jobsets, self.use_cache)
    }

    /// The search after a look at the evaluations of the jobsets. The cache is left once the
    /// commits have to be looked for again.
    pub open spec fn after(self, jobsets: Seq<JsonModel>) -> PrSearchModel {
        PrSearchModel {
            request: self.request,
            use_cache: self.use_cache && self.decision(jobsets) != Some(PrStepModel::LookAgain),
        }
    }
}

impl PrSearch {
    /// A search that begins with the cache.
    pub fn new(request: PullRequest) -> (search: PrSearch)
        ensures
            search@ == (PrSearchModel { request: request@, use_cache: true }),
    {
        PrSearch { request, use_cache: true }
    }

    /// Whether the evaluations of the jobsets may come from the cache.
    pub fn uses_cache(&self) -> (r: bool)
        ensures
            r == self@.use_cache,
    {
        self.use_cache
    }

    /// Looks at the evaluations of the jobsets and says what is to be done; nothing if they do not
    /// tell which commits they are of.
    pub fn look(&mut self, jobsets: &Vec<Json>) -> (step: Option<PrStep>)
        ensures
            optional_step(step) == old(self)@.decision(eval::json_views(jobsets@)),
            final(self)@ == old(self)@.after(eval::json_views(jobsets@)),
    {
        let step = self.request.decide(jobsets, self.use_cache);
        if let Some(PrStep::LookAgain) = &step {
            self.use_cache = false;
        }
        step
    }

    /// The warning that the latest evaluation stands in for that of the base commit.
    pub fn stand_in_warning(&self, latest: u64) -> (r: String)
        ensures
            r@ == self@.request.stand_in_notice(latest),
    {
        self.request.stand_in_warning(latest)
    }
}

/// A search looks at most twice: through the cache, and, if that does not find both commits,
/// without it. Whatever the second look shows, it is the last.
pub proof fn law_search_looks_twice_at_most(
    request: PullRequestModel,
    first: Seq<JsonModel>,
    second: Seq<JsonModel>,
)
    ensures
        ({
            let start = PrSearchModel { request, use_cache: true };
            let again = start.after(first);
            &&& start.decision(first) == Some(PrStepModel::LookAgain) <==> !again.use_cache
            &&& !again.use_cache ==> again.decision(second) != Some(PrStepModel::LookAgain)
        }),
{
}

/// The commits of a pull request are looked for twice at most: without the cache, what was found
/// decides.
pub proof fn law_second_look_decides(
    pr: PullRequestModel,
    base_eval: Option<u64>,
    head_eval: Option<u64>,
)
    ensures
        pr.step(base_eval, head_eval, false) !is LookAgain,
{
}

/// If both commits are found, their evaluations are compared, whether the cache was used or not.
pub proof fn law_found_commits_are_compared(
    pr: PullRequestModel,
    base: u64,
    head: u64,
    use_cache: bool,
)
    ensures
        pr.step(Some(base), Some(head), use_cache) == PrStepModel::Compare(base, head),
{
}

/// Without an evaluation of the head commit nothing is compared.
pub proof fn law_head_is_needed(
    pr: PullRequestModel,
    base_eval: Option<u64>,
    use_cache: bool,
)
    ensures
        pr.step(base_eval, None, use_cache) is LookAgain || pr.step(
            base_eval,
            None,
            use_cache,
        ) is Fail,
{
}

/// What is found for a commit is the number of an evaluation of that commit.
pub proof fn law_found_evaluation_is_of_commit(jobsets: Seq<JsonModel>, sha: Seq<char>, id: u64)
    requires
        commit_finding(jobsets, sha) == Finding::Found(id),
    ensures
        exists|i: int, j: int|
            0 <= i < jobsets.len() && evals_in(jobsets[i]) is Some && 0 <= j < evals_in(
                jobsets[i],
            )->0.len() && revision_in(#[trigger] evals_in(jobsets[i])->0[j]) == Some(sha)
                && evals_in(jobsets[i])->0[j].at("id"@).as_u64() == Some(id),
{
    let findings = jobsets.map_values(|jobset: JsonModel| jobset_finding(jobset, sha));
    let i = lemma_found_somewhere(findings);
    let evals = evals_in(jobsets[i])->0;
    let inner = evals.map_values(|eval: JsonModel| eval_finding(eval, sha));
    let j = lemma_found_somewhere(inner);
    assert(eval_finding(evals[j], sha) == Finding::Found(id));
    assert(revision_in(evals_in(jobsets[i])->0[j]) == Some(sha));
}

/// A search that finds something finds one of the findings.
proof fn lemma_found_somewhere(findings: Seq<Finding>) -> (i: int)
    requires
        first_finding(findings) is Found,
    ensures
        0 <= i < findings.len(),
        findings[i] == first_finding(findings),
    decreases findings.len(),
{
    if first_finding(findings.drop_last()) == Finding::NotFound {
        findings.len() - 1
    } else {
        lemma_found_somewhere(findings.drop_last())
    }
}

/// If every document is well formed and some evaluation is of the commit, one is found.
pub proof fn law_evaluated_commit_is_found(
    jobsets: Seq<JsonModel>,
    sha: Seq<char>,
    i: int,
    j: int,
)
    requires
        forall|k: int| 0 <= k < jobsets.len() ==> jobset_finding(#[trigger] jobsets[k], sha) !is Malformed,
        0 <= i < jobsets.len(),
        evals_in(jobsets[i]) is Some,
        0 <= j < evals_in(jobsets[i])->0.len(),
        revision_in(evals_in(jobsets[i])->0[j]) == Some(sha),
        evals_in(jobsets[i])->0[j].at("id"@).as_u64() is Some,
    ensures
        commit_finding(jobsets, sha) is Found,
{
    let evals = evals_in(jobsets[i])->0;
    let inner = evals.map_values(|eval: JsonModel| eval_finding(eval, sha));
    assert(inner[j] is Found);
    lemma_not_missed(inner, j);
    let findings = jobsets.map_values(|jobset: JsonModel| jobset_finding(jobset, sha));
    assert(jobset_finding(jobsets[i], sha) !is Malformed);
    assert(findings[i] is Found);
    lemma_not_missed(findings, i);
    assert forall|k: int| 0 <= k < findings.len() implies #[trigger] findings[k] !is Malformed by {
        assert(jobset_finding(jobsets[k], sha) !is Malformed);
    }
    lemma_never_malformed(findings);
}

proof fn lemma_not_missed(findings: Seq<Finding>, i: int)
    requires
        0 <= i < findings.len(),
        findings[i] != Finding::NotFound,
    ensures
        first_finding(findings) != Finding::NotFound,
    decreases findings.len(),
{
    if i < findings.len() - 1 {
        lemma_not_missed(findings.drop_last(), i);
    }
}

proof fn lemma_never_malformed(findings: Seq<Finding>)
    requires
        forall|k: int| 0 <= k < findings.len() ==> #[trigger] findings[k] !is Malformed,
    ensures
        first_finding(findings) !is Malformed,
    decreases findings.len(),
{
    if findings.len() > 0 {
        assert forall|k: int| 0 <= k < findings.drop_last().len() implies
            #[trigger] findings.drop_last()[k] !is Malformed by {
            assert(findings[k] !is Malformed);
        }
        lemma_never_malformed(findings.drop_last());
        assert(findings[findings.len() - 1] !is Malformed);
    }
}

} // verus!

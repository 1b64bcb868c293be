//! The evaluation of all jobs by Nix: how it is asked for, and how its outcome is kept.

use crate::eval;
use crate::group;
use crate::inputs::EvalInputs;
use crate::json;
use crate::json::{Json, JsonError, JsonModel};
use crate::text;
use crate::text::{lines_of, replace_char};
use vstd::prelude::*;
use vstd::string::*;

verus! {

/// The literal that the `Debug` of `str` writes for a text.
pub uninterp spec fn debug_quoted(s: Seq<char>) -> Seq<char>;

/// Writes a text with the `Debug` of `str`. The claim is that the literal depends on the text
/// alone.
#[verifier::external_body]
fn debug_quote(s: &str) -> (literal: String)
    ensures
        literal@ == debug_quoted(s@),
{
    format!("{:?}", s)
}

/// An optional text as `Debug` writes it, given how it writes texts.
pub open spec fn debug_optional(s: Option<Seq<char>>) -> Seq<char> {
    match s {
        Some(s) => "Some("@ + debug_quoted(s) + ")"@,
        None => "None"@,
    }
}

/// Writes an optional text as `Debug` does.
fn debug_text(s: Option<&str>) -> (r: String)
    ensures
        r@ == debug_optional(group::optional_str(s)),
{
    match s {
        Some(s) => {
            let mut r = "Some(".to_owned();
            r.append(&debug_quote(s));
            r.append(")");
            r
        },
        None => "None".to_owned(),
    }
}

/// The name of the file that keeps the jobs, given how the optional parts are written.
pub open spec fn jobs_file(
    release_nix_tarball_url: Seq<char>,
    tarball_url: Seq<char>,
    system: Seq<char>,
    distro: Seq<char>,
    cross_system: Seq<char>,
) -> Seq<char> {
    text::with_char_replaced(release_nix_tarball_url, '/', '_') + "_"@ + text::with_char_replaced(
        tarball_url,
        '/',
        '_',
    ) + "_"@ + system + "_"@ + distro + "_"@ + cross_system + ".jsonl"@
}

/// Composes the name of the file that keeps the jobs.
pub fn jobs_file_name(
    release_nix_tarball_url: &str,
    tarball_url: &str,
    system: &str,
    distro: &str,
    cross_system: &str,
) -> (name: String)
    ensures
        name@ == jobs_file(
            release_nix_tarball_url@,
            tarball_url@,
            system@,
            distro@,
            cross_system@,
        ),
{
    let mut name = replace_char(release_nix_tarball_url, '/', '_');
    name.append("_");
    name.append(&replace_char(tarball_url, '/', '_'));
    name.append("_");
    name.append(system);
    name.append("_");
    name.append(distro);
    name.append("_");
    name.append(cross_system);
    name.append(".jsonl");
    name
}

/// The name of the file that keeps the jobs of an evaluation.
pub fn cache_file_name(
    release_nix_tarball_url: &str,
    tarball_url: &str,
    system: &str,
    distro: Option<&str>,
    cross_system: Option<&str>,
) -> (name: String)
    ensures
        name@ == jobs_file(
            release_nix_tarball_url@,
            tarball_url@,
            system@,
            debug_optional(group::optional_str(distro)),
            debug_optional(group::optional_str(cross_system)),
        ),
{
    jobs_file_name(
        release_nix_tarball_url,
        tarball_url,
        system,
        &debug_text(distro),
        &debug_text(cross_system),
    )
}

/// The part of the expression on the system that is built for, if it is another one.
pub open spec fn cross_setting(cross_system: Option<Seq<char>>) -> Seq<char> {
    match cross_system {
        Some(system) => " crossSystem = "@ + system + ";"@,
        None => ""@,
    }
}

/// The Nix expression whose jobs are evaluated.
pub open spec fn release_expression(
    release_nix_tarball_url: Seq<char>,
    tarball_url: Seq<char>,
    system: Seq<char>,
    cross_system: Option<Seq<char>>,
) -> Seq<char> {
    "\nimport ''${fetchTarball \""@ + release_nix_tarball_url
        + "\"}/release.nix'' {\n  nix-ros-overlay = (fetchTarball \""@ + tarball_url
        + "\");\n  system = \""@ + system + "\";\n  "@ + cross_setting(cross_system) + "\n}"@
}

/// The arguments for `nix-eval-jobs`.
pub open spec fn evaluator_args(
    release_nix_tarball_url: Seq<char>,
    tarball_url: Seq<char>,
    system: Seq<char>,
    cross_system: Option<Seq<char>>,
) -> Seq<Seq<char>> {
    seq![
        "--force-recurse"@,
        "--show-input-drvs"@,
        "--expr"@,
        release_expression(release_nix_tarball_url, tarball_url, system, cross_system),
    ]
}

/// The arguments for `nix-eval-jobs`.
pub fn nix_eval_args(
    release_nix_tarball_url: &str,
    tarball_url: &str,
    system: &str,
    cross_system: Option<&str>,
) -> (args: Vec<String>)
    ensures
        text::views(args@) == evaluator_args(
            release_nix_tarball_url@,
            tarball_url@,
            system@,
            group::optional_str(cross_system),
        ),
{
    let mut expression = "\nimport ''${fetchTarball \"".to_owned();
    expression.append(release_nix_tarball_url);
    expression.append("\"}/release.nix'' {\n  nix-ros-overlay = (fetchTarball \"");
    expression.append(tarball_url);
    expression.append("\");\n  system = \"");
    expression.append(system);
    expression.append("\";\n  ");
    let cross = match cross_system {
        Some(system) => {
            let mut cross = " crossSystem = ".to_owned();
            cross.append(system);
            cross.append(";");
            cross
        },
        None => "".to_owned(),
    };
    expression.append(&cross);
    expression.append("\n}");
    let mut args: Vec<String> = Vec::new();
    args.push("--force-recurse".to_owned());
    args.push("--show-input-drvs".to_owned());
    args.push("--expr".to_owned());
    args.push(expression);
    args
}

// ---- the jobs ----

/// Why a line is no job.
pub enum JobLineError {
    /// The line is no JSON.
    NotJson(JsonError),
    /// The job does not say which attribute it is for.
    NoAttr,
}

/// The jobs that were read so far, and the text by which they are kept.
pub struct JobLog {
    pub jobs: Vec<Json>,
    pub to_cache: String,
}

impl JobLog {
    /// The log has taken in exactly these lines.
    pub open spec fn records(self, lines: Seq<Seq<char>>) -> bool {
        &&& jobs_on(lines) == jobs_read(self.jobs@)
        &&& jobs_on(lines.map_values(|line: Seq<char>| text::without_return(line))) == jobs_on(
            lines,
        )
        &&& self.to_cache@ == cache_text(lines)
    }

    /// A log that has taken in nothing.
    pub fn new() -> (log: JobLog)
        ensures
            log.jobs@ == Seq::<Json>::empty(),
            log.to_cache@ == Seq::<char>::empty(),
            log.records(Seq::empty()),
    {
        let log = JobLog { jobs: Vec::new(), to_cache: String::new() };
        assert(eval::json_views(log.jobs@) =~= Seq::empty());
        assert(Seq::<Seq<char>>::empty().map_values(|line: Seq<char>| text::without_return(line))
            =~= Seq::empty());
        log
    }

    /// Takes in a job and the line that it was read from, and says which attribute it is about.
    /// A job that does not say so is not taken in.
    pub fn push_job(&mut self, line: &str, job: Json) -> (attr: Option<String>)
        ensures
            match attr {
                Some(attr) => {
                    &&& job@.at("attr"@).as_text() == Some(attr@)
                    &&& final(self).jobs@ == old(self).jobs@.push(job)
                    &&& eval::json_views(final(self).jobs@) == eval::json_views(
                        old(self).jobs@,
                    ).push(job@)
                    &&& final(self).to_cache@ == old(self).to_cache@ + line@ + "\n"@
                },
                None => job@.at("attr"@).as_text() is None && *final(self) == *old(self),
            },
    {
        let attr = match job.text_at("attr") {
            Some(attr) => attr.to_owned(),
            None => {
                return None;
            },
        };
        self.to_cache.append(line);
        self.to_cache.append("\n");
        self.jobs.push(job);
        assert(eval::json_views(self.jobs@) =~= eval::json_views(old(self).jobs@).push(job@));
        Some(attr)
    }

    /// Takes in one line of the output of `nix-eval-jobs` and says which attribute it is about.
    pub fn push_line(&mut self, line: &str) -> (attr: Result<String, JobLineError>)
        ensures
            match attr {
                Ok(attr) => {
                    &&& json::parsed_json(line@) matches Ok(job)
                    &&& job.at("attr"@).as_text() == Some(attr@)
                    &&& eval::json_views(final(self).jobs@) == eval::json_views(
                        old(self).jobs@,
                    ).push(job)
                    &&& final(self).to_cache@ == old(self).to_cache@ + line@ + "\n"@
                    &&& forall|lines: Seq<Seq<char>>| #[trigger]
                        old(self).records(lines) ==> final(self).records(lines.push(line@))
                },
                Err(JobLineError::NotJson(error)) => json::parsed_json(line@) == Err::<
                    JsonModel,
                    serde_json::Error,
                >(error.source) && *final(self) == *old(self),
                Err(JobLineError::NoAttr) => {
                    &&& json::parsed_json(line@) matches Ok(job)
                    &&& job.at("attr"@).as_text() is None
                    &&& *final(self) == *old(self)
                },
            },
    {
        let job = match Json::parse(line) {
            Ok(job) => job,
            Err(error) => {
                return Err(JobLineError::NotJson(error));
            },
        };
        let attr = match self.push_job(line, job) {
            Some(attr) => attr,
            None => {
                return Err(JobLineError::NoAttr);
            },
        };
        assert forall|lines: Seq<Seq<char>>| #[trigger] old(self).records(lines) implies self.records(
            lines.push(line@),
        ) by {
            let strip = |line: Seq<char>| text::without_return(line);
            assert(lines.push(line@).drop_last() =~= lines);
            assert(lines.push(line@).map_values(strip).drop_last() =~= lines.map_values(strip));
        }
        Ok(attr)
    }

    /// Ends the log when the evaluator ends: the jobs and the text by which they are kept if it
    /// succeeded, else nothing.
    pub fn finish(self, succeeded: bool) -> (outcome: Option<(Vec<Json>, String)>)
        ensures
            outcome == (if succeeded {
                Some((self.jobs, self.to_cache))
            } else {
                None
            }),
    {
        if succeeded {
            Some((self.jobs, self.to_cache))
        } else {
            None
        }
    }
}

/// The text by which the jobs on the given lines are kept.
pub open spec fn cache_text(lines: Seq<Seq<char>>) -> Seq<char>
    decreases lines.len(),
{
    if lines.len() == 0 {
        Seq::empty()
    } else {
        cache_text(lines.drop_last()) + lines.last() + "\n"@
    }
}

/// The jobs on lines, or the error of the first line that is no JSON.
pub open spec fn jobs_on(lines: Seq<Seq<char>>) -> Result<Seq<JsonModel>, serde_json::Error>
    decreases lines.len(),
{
    if lines.len() == 0 {
        Ok(Seq::empty())
    } else {
        match jobs_on(lines.drop_last()) {
            Ok(jobs) => match json::parsed_json(lines.last()) {
                Ok(job) => Ok(jobs.push(job)),
                Err(error) => Err(error),
            },
            Err(error) => Err(error),
        }
    }
}

/// Jobs that were read.
pub open spec fn jobs_read(jobs: Seq<Json>) -> Result<Seq<JsonModel>, serde_json::Error> {
    Ok(eval::json_views(jobs))
}

/// Jobs that were refused.
pub open spec fn refused(error: JsonError) -> Result<Seq<JsonModel>, serde_json::Error> {
    Err(error.source)
}

/// The first line that is no JSON spoils all.
proof fn lemma_spoiled(lines: Seq<Seq<char>>, n: int)
    requires
        0 <= n < lines.len(),
        jobs_on(lines.take(n)) is Ok,
        json::parsed_json(lines[n]) is Err,
    ensures
        jobs_on(lines) is Err,
        jobs_on(lines)->Err_0 == json::parsed_json(lines[n])->Err_0,
    decreases lines.len(),
{
    let fewer = lines.drop_last();
    if n < lines.len() - 1 {
        assert(fewer.take(n) =~= lines.take(n));
        lemma_spoiled(fewer, n);
    } else {
        assert(fewer =~= lines.take(n));
    }
}

/// Reads jobs from the text by which they are kept.
pub fn read_jobs(cached: &str) -> (jobs: Result<Vec<Json>, JsonError>)
    ensures
        match jobs {
            Ok(jobs) => jobs_on(text::lines(cached@)) == jobs_read(jobs@),
            Err(error) => jobs_on(text::lines(cached@)) == refused(error),
        },
{
    let lines = lines_of(cached);
    let ghost all = text::views(lines@);
    let mut jobs: Vec<Json> = Vec::new();
    let mut i: usize = 0;
    assert(eval::json_views(jobs@) =~= Seq::empty());
    while i < lines.len()
        invariant
            i <= lines@.len(),
            all == text::views(lines@),
            all == text::lines(cached@),
            jobs_on(all.take(i as int)) == jobs_read(jobs@),
        decreases lines.len() - i,
    {
        assert(all[i as int] == lines@[i as int]@);
        assert(all.take(i + 1).drop_last() =~= all.take(i as int));
        match Json::parse(&lines[i]) {
            Ok(job) => {
                let ghost before = eval::json_views(jobs@);
                jobs.push(job);
                assert(eval::json_views(jobs@) =~= before.push(job@));
            },
            Err(error) => {
                proof {
                    lemma_spoiled(all, i as int);
                }
                return Err(error);
            },
        }
        i += 1;
    }
    assert(all.take(i as int) =~= all);
    Ok(jobs)
}

/// How the jobs of an evaluation are come by.
pub enum JobsPlan {
    /// They are kept.
    Kept(Vec<Json>),
    /// The text by which they are kept cannot be read.
    Unreadable(JsonError),
    /// They are evaluated by `nix-eval-jobs` with these arguments.
    Evaluate(Vec<String>),
}

/// How the jobs of an evaluation are come by, given the text by which they are kept, if any.
pub fn nix_eval_jobs(inputs: &EvalInputs, cached: Option<&str>) -> (plan: JobsPlan)
    ensures
        match (cached, plan) {
            (Some(cached), JobsPlan::Kept(jobs)) => jobs_on(text::lines(cached@)) == jobs_read(
                jobs@,
            ),
            (Some(cached), JobsPlan::Unreadable(error)) => jobs_on(text::lines(cached@)) == refused(
                error,
            ),
            (None, JobsPlan::Evaluate(args)) => text::views(args@) == evaluator_args(
                inputs@.release_nix_tarball_url,
                inputs@.tarball_url,
                inputs@.system,
                inputs@.cross_system,
            ),
            _ => false,
        },
{
    match cached {
        Some(cached) => match read_jobs(cached) {
            Ok(jobs) => JobsPlan::Kept(jobs),
            Err(error) => JobsPlan::Unreadable(error),
        },
        None => {
            let cross_system: Option<&str> = match &inputs.cross_system {
                Some(system) => Some(system.as_str()),
                None => None,
            };
            JobsPlan::Evaluate(
                nix_eval_args(
                    &inputs.release_nix_tarball_url,
                    &inputs.tarball_url,
                    &inputs.system,
                    cross_system,
                ),
            )
        },
    }
}

/// A line feed begins a new piece.
proof fn lemma_pieces_after_line(s: Seq<char>, line: Seq<char>)
    requires
        !line.contains('\n'),
        text::pieces(s, '\n').len() >= 1,
        text::pieces(s, '\n').last().len() == 0,
    ensures
        text::pieces(s + line, '\n') == text::pieces(s, '\n').drop_last().push(line),
    decreases line.len(),
{
    if line.len() == 0 {
        assert(s + line =~= s);
        assert(text::pieces(s, '\n').last() =~= line);
        assert(text::pieces(s, '\n') =~= text::pieces(s, '\n').drop_last().push(line));
    } else {
        let shorter = line.drop_last();
        assert forall|i: int| 0 <= i < shorter.len() implies shorter[i] != '\n' by {
            assert(line.contains(line[i]));
        }
        lemma_pieces_after_line(s, shorter);
        assert((s + line).drop_last() =~= s + shorter);
        assert((s + line).last() == line.last());
        assert(line.contains(line.last()));
        let before = text::pieces(s + shorter, '\n');
        assert(before.drop_last() =~= text::pieces(s, '\n').drop_last());
        assert(shorter.push(line.last()) =~= line);
    }
}

/// The text by which lines are kept falls into these lines.
proof fn lemma_cache_pieces(lines: Seq<Seq<char>>)
    requires
        forall|i: int| 0 <= i < lines.len() ==> !(#[trigger] lines[i]).contains('\n'),
    ensures
        text::pieces(cache_text(lines), '\n') == lines.push(Seq::empty()),
    decreases lines.len(),
{
    if lines.len() == 0 {
        assert(text::pieces(cache_text(lines), '\n') =~= lines.push(Seq::empty()));
    } else {
        let fewer = lines.drop_last();
        assert forall|i: int| 0 <= i < fewer.len() implies !(#[trigger] fewer[i]).contains('\n') by {
            assert(!lines[i].contains('\n'));
        }
        lemma_cache_pieces(fewer);
        let s = cache_text(fewer);
        let line = lines.last();
        assert(!lines[lines.len() - 1].contains('\n'));
        lemma_pieces_after_line(s, line);
        reveal_strlit("\n");
        let whole = cache_text(lines);
        assert(whole =~= (s + line).push('\n'));
        assert(whole.drop_last() =~= s + line);
        assert(text::pieces(whole, '\n') =~= fewer.push(line).push(Seq::empty()));
        assert(fewer.push(line) =~= lines);
    }
}

/// The lines by which jobs are kept are read back as they were written, but for a carriage return
/// at the end of a line.
pub proof fn law_kept_lines_read_back(lines: Seq<Seq<char>>)
    requires
        forall|i: int| 0 <= i < lines.len() ==> !(#[trigger] lines[i]).contains('\n'),
    ensures
        text::lines(cache_text(lines)) == lines.map_values(
            |line: Seq<char>| text::without_return(line),
        ),
{
    lemma_cache_pieces(lines);
    let parts = text::pieces(cache_text(lines), '\n');
    assert(parts.drop_last() =~= lines);
    assert(parts.last().len() == 0);
}

/// The jobs that are read from what a log keeps are the jobs of the log, whatever lines it has
/// taken in. So a second run that finds the kept text comes by the jobs that the first run
/// evaluated.
pub proof fn law_kept_jobs_read_back(log: JobLog, lines: Seq<Seq<char>>)
    requires
        log.records(lines),
        forall|i: int| 0 <= i < lines.len() ==> !(#[trigger] lines[i]).contains('\n'),
    ensures
        jobs_on(text::lines(log.to_cache@)) == jobs_read(log.jobs@),
{
    law_kept_lines_read_back(lines);
}

} // verus!

//! What holds of the statistics of an evaluation.

use crate::analyzer;
use crate::json::JsonModel;
use crate::laws::documents;
use crate::laws::states;
use crate::laws::texts;
use crate::stats;
use crate::stats::{FailureModel, JobModel};
use crate::table;
use crate::text;
use vstd::prelude::*;
use vstd::seq_lib::*;
use vstd::string::*;

verus! {

// ---- the order of failed builds ----

/// What passes a test is as often in a list as in what passes the test of it.
proof fn lemma_kept_as_often<A>(s: Seq<A>, kept: spec_fn(A) -> bool, x: A)
    requires
        kept(x),
    ensures
        s.filter(kept).to_multiset().count(x) == s.to_multiset().count(x),
    decreases s.len(),
{
    reveal(Seq::filter);
    broadcast use group_to_multiset_ensures;

    if s.len() > 0 {
        let fewer = s.drop_last();
        lemma_kept_as_often(fewer, kept, x);
        assert(s =~= fewer.push(s.last()));
        if kept(s.last()) {
            assert(s.filter(kept) == fewer.filter(kept).push(s.last()));
        }
    } else {
        assert(s.filter(kept) =~= s);
    }
}

/// Sorting keeps every entry, puts those with more dependents last, and leaves those with the same
/// number of dependents in their order.
pub proof fn law_sorted_by_number_of_dependents(
    sorted: Seq<JobModel>,
    jobs: Seq<JobModel>,
    i: int,
    j: int,
    n: usize,
)
    requires
        stats::is_stable_sort(sorted, jobs),
        0 <= i < j < sorted.len(),
    ensures
        sorted[i].all_deps <= sorted[j].all_deps,
        sorted.to_multiset() == jobs.to_multiset(),
        sorted.filter(|job: JobModel| job.all_deps == n) == jobs.filter(
            |job: JobModel| job.all_deps == n,
        ),
{
    assert forall|x: JobModel| #[trigger]
        sorted.to_multiset().count(x) == jobs.to_multiset().count(x) by {
        let m = x.all_deps;
        let kept = |job: JobModel| job.all_deps == m;
        assert(stats::with_dependents(sorted, m) == stats::with_dependents(jobs, m));
        lemma_kept_as_often(sorted, kept, x);
        lemma_kept_as_often(jobs, kept, x);
    }
    assert(sorted.to_multiset() =~= jobs.to_multiset());
    assert(stats::with_dependents(sorted, n) == stats::with_dependents(jobs, n));
}

// ---- indentation ----

/// A text is moved to the right line by line: every line that is not empty gets so many spaces
/// before it.
pub proof fn law_indented_line_by_line(n: nat, first: Seq<char>, rest: Seq<char>, margin: Seq<char>)
    requires
        !first.contains('\n'),
        first.len() > 0 ==> first.last() != '\r',
        margin.len() == n,
        forall|i: int| 0 <= i < n ==> #[trigger] margin[i] == ' ',
    ensures
        first.len() > 0 ==> stats::indented(n, first) == margin + first,
        first.len() == 0 ==> stats::indented(n, first) == Seq::<char>::empty(),
        stats::indented(n, first.push('\n') + rest) == (if first.len() > 0 {
            margin + first
        } else {
            Seq::empty()
        }).push('\n') + stats::indented(n, rest),
{
    assert(stats::spaces(n) =~= margin);
    let moved = |line: Seq<char>|
        if line.len() == 0 {
            line
        } else {
            stats::spaces(n) + line
        };
    let feed = seq!['\n'];
    texts::law_first_line(first, rest);
    let head = seq![moved(first)];
    if first.len() > 0 {
        let one = text::lines(first).map_values(moved);
        assert(one =~= head);
        texts::law_joined_in_parts(head, head, feed);
        assert(first.last() != '\n') by {
            if first.last() == '\n' {
                assert(first.contains(first[first.len() - 1]));
            }
        }
        assert(stats::indented(n, first) =~= margin + first);
    } else {
        assert(text::lines(first).map_values(moved) =~= Seq::empty());
        assert(text::joined(Seq::<Seq<char>>::empty(), feed) =~= Seq::empty());
        assert(stats::indented(n, first) =~= Seq::empty());
    }
    let whole = first.push('\n') + rest;
    let tail = text::lines(rest).map_values(moved);
    assert(text::lines(whole).map_values(moved) =~= head + tail);
    texts::law_joined_in_parts(head, tail, feed);
    texts::law_joined_in_parts(head, head, feed);
    if rest.len() == 0 {
        assert(!rest.contains('\n'));
        texts::law_first_line(rest, rest);
        assert(tail =~= Seq::empty());
        assert(head + tail =~= head);
        assert(text::joined(tail, feed) =~= Seq::empty());
        assert(whole.last() == '\n');
        assert(stats::indented(n, rest) =~= Seq::empty());
        assert(stats::indented(n, whole) =~= moved(first).push('\n') + stats::indented(n, rest));
    } else {
        lemma_some_line(rest);
        assert(whole.last() == rest.last());
        assert(stats::indented(n, whole) =~= moved(first).push('\n') + stats::indented(n, rest));
    }
    assert(moved(first) =~= if first.len() > 0 {
        margin + first
    } else {
        Seq::empty()
    });
}

/// A text that is not empty has a line.
proof fn lemma_some_line(s: Seq<char>)
    requires
        s.len() > 0,
    ensures
        text::lines(s).len() > 0,
{
    if s.contains('\n') {
        let p = s.index_of_first('\n')->0;
        s.index_of_first_ensures('\n');
        let first = s.take(p);
        assert(!first.contains('\n')) by {
            if first.contains('\n') {
                let i = choose|i: int| 0 <= i < first.len() && first[i] == '\n';
                assert(s[i] == '\n');
            }
        }
        assert(s =~= first.push('\n') + s.skip(p + 1));
        texts::law_first_line(first, s.skip(p + 1));
    } else {
        texts::law_first_line(s, s);
    }
}

// ---- evaluation failures ----

/// A job has failed to evaluate exactly if it has an error. It then stands among the failures, in
/// order, with its attribute, its error and the reason found in it.
pub proof fn law_every_error_is_a_failure(
    a: Seq<JsonModel>,
    b: Seq<JsonModel>,
    job: JsonModel,
    attr: Seq<char>,
    error: Seq<char>,
)
    ensures
        stats::failures_among(a + b) == stats::failures_among(a) + stats::failures_among(b),
        stats::failures_among(Seq::empty()).len() == 0,
        documents::holds(job, "attr"@, JsonModel::Text(attr)) && documents::holds(
            job,
            "error"@,
            JsonModel::Text(error),
        ) ==> stats::failures_among(seq![job]) == seq![
            FailureModel { attr, error, reason: analyzer::reason_of(error) },
        ],
        (forall|e: Seq<char>| !#[trigger] documents::holds(job, "error"@, JsonModel::Text(e)))
            ==> stats::failures_among(seq![job]).len() == 0,
{
    let kept = |job: JsonModel| job.at("error"@).as_text() is Some;
    let failure = |job: JsonModel| stats::failure_of(job);
    states::lemma_filter_map_in_parts(a, b, kept, failure);
    states::lemma_filter_map_in_parts(Seq::<JsonModel>::empty(), b, kept, failure);
    states::lemma_filter_map_in_parts(seq![job], b, kept, failure);
    states::lemma_is_for(job, "attr"@, attr);
    states::lemma_is_for(job, "error"@, error);
    if let Some(e) = job.at("error"@).as_text() {
        states::lemma_is_for(job, "error"@, e);
    }
}

/// What is said of the failures without a recognized reason is put together in their order: the
/// attribute, and on the next line the error, moved to the right by four spaces.
pub proof fn law_unrecognized_failures_are_told(
    a: Seq<FailureModel>,
    b: Seq<FailureModel>,
    failure: FailureModel,
)
    ensures
        stats::unrecognized_text(a + b) == stats::unrecognized_text(a) + stats::unrecognized_text(b),
        stats::unrecognized_text(Seq::empty()) == Seq::<char>::empty(),
        failure.reason is None ==> stats::unrecognized_text(seq![failure]) == failure.attr + seq![
            ':',
            ' ',
            '\n',
        ] + stats::indented(4, failure.error) + seq!['\n'],
        failure.reason is Some ==> stats::unrecognized_text(seq![failure]) == Seq::<char>::empty(),
    decreases b.len(),
{
    let one = seq![failure];
    assert(one.drop_last() =~= Seq::empty());
    assert(stats::unrecognized_text(one.drop_last()) =~= Seq::empty());
    reveal_strlit(": \n");
    reveal_strlit("\n");
    assert(": \n"@ =~= seq![':', ' ', '\n']);
    assert("\n"@ =~= seq!['\n']);
    if failure.reason is None {
        assert(stats::unrecognized_text(one) =~= failure.attr + seq![':', ' ', '\n']
            + stats::indented(4, failure.error) + seq!['\n']);
    } else {
        assert(stats::unrecognized_text(one) =~= Seq::empty());
    }
    if b.len() == 0 {
        assert(a + b =~= a);
        assert(stats::unrecognized_text(a) + stats::unrecognized_text(b)
            =~= stats::unrecognized_text(a));
    } else {
        law_unrecognized_failures_are_told(a, b.drop_last(), failure);
        assert((a + b).drop_last() =~= a + b.drop_last());
        assert(stats::unrecognized_text(a + b) =~= stats::unrecognized_text(a)
            + stats::unrecognized_text(b));
    }
}

/// A reason is reported exactly if it is that of some failure, and under it stand the attributes
/// that failed for it, in order.
pub proof fn law_failures_stand_under_their_reason(
    a: Seq<FailureModel>,
    b: Seq<FailureModel>,
    failure: FailureModel,
    reason: Seq<char>,
)
    ensures
        stats::failure_reasons(a).contains(reason) <==> exists|i: int|
            0 <= i < a.len() && (#[trigger] a[i]).reason == Some(reason),
        stats::failed_for(a + b, reason) == stats::failed_for(a, reason) + stats::failed_for(
            b,
            reason,
        ),
        stats::failed_for(Seq::empty(), reason).len() == 0,
        failure.reason == Some(reason) ==> stats::failed_for(seq![failure], reason) == seq![
            failure.attr,
        ],
        failure.reason != Some(reason) ==> stats::failed_for(seq![failure], reason).len() == 0,
{
    let kept = |failure: FailureModel| failure.reason == Some(reason);
    let attr = |failure: FailureModel| failure.attr;
    states::lemma_filter_map_in_parts(a, b, kept, attr);
    states::lemma_filter_map_in_parts(Seq::<FailureModel>::empty(), b, kept, attr);
    states::lemma_filter_map_in_parts(seq![failure], b, kept, attr);
}

/// What is said of a reason: the reason, the number of attributes that failed for it, and each of
/// them on a line of its own.
pub proof fn law_reason_with_its_attributes(
    reason: Seq<char>,
    attrs: Seq<Seq<char>>,
    lines: Seq<Seq<char>>,
    count: Seq<char>,
)
    requires
        lines.len() == attrs.len(),
        forall|i: int|
            0 <= i < lines.len() ==> #[trigger] lines[i] == seq![' ', ' ', ' ', ' '] + attrs[i]
                + seq!['\n'],
        count == text::decimal(attrs.len()),
    ensures
        stats::reason_block(reason, attrs) == reason + seq![':', ' '] + count + seq!['\n']
            + text::concat(lines),
        texts::number_of(count) == attrs.len(),
{
    texts::law_decimal_reads_back(attrs.len());
    reveal_strlit("    ");
    reveal_strlit(": ");
    reveal_strlit("\n");
    assert("    "@ =~= seq![' ', ' ', ' ', ' ']);
    assert(": "@ =~= seq![':', ' ']);
    assert("\n"@ =~= seq!['\n']);
    assert(attrs.map_values(|attr: Seq<char>| "    "@ + attr + "\n"@) =~= lines);
}

/// The report on failures tells those without a recognized reason first, and then the reasons in
/// their order, each once.
pub proof fn law_report_on_failures(
    failures: Seq<FailureModel>,
    sorted: Seq<Seq<char>>,
    blocks: Seq<Seq<char>>,
)
    requires
        table::strictly_sorted(sorted),
        forall|reason: Seq<char>| #[trigger]
            sorted.contains(reason) <==> exists|i: int|
                0 <= i < failures.len() && (#[trigger] failures[i]).reason == Some(reason),
        blocks.len() == sorted.len(),
        forall|i: int|
            0 <= i < blocks.len() ==> #[trigger] blocks[i] == stats::reason_block(
                sorted[i],
                stats::failed_for(failures, sorted[i]),
            ),
    ensures
        stats::failure_report(failures) == stats::unrecognized_text(failures) + text::concat(blocks),
{
    assert forall|reason: Seq<char>|
        sorted.to_set().contains(reason) == stats::failure_reasons(failures).contains(reason) by {
        assert(sorted.to_set().contains(reason) == sorted.contains(reason));
    }
    assert(sorted.to_set() =~= stats::failure_reasons(failures));
    table::lemma_sorted_keys(sorted);
    assert(sorted.map_values(
        |reason: Seq<char>| stats::reason_block(reason, stats::failed_for(failures, reason)),
    ) =~= blocks);
}

} // verus!

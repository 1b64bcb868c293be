//! What holds of evaluations and of reports as a whole.

use crate::deps;
use crate::deps::Graph;
use crate::eval;
use crate::eval::{Edge, EvalModel};
use crate::group::ListedModel;
use crate::json::JsonModel;
use crate::status;
use crate::status::{BuildModel, CiChange, StatusModel};
use crate::summary;
use crate::summary::SummaryModel;
use crate::table;
use vstd::prelude::*;
use vstd::set_lib::*;

pub mod documents;
pub mod fetches;
pub mod flaws;
pub mod models;
pub mod reasons;
pub mod reports;
pub mod states;
pub mod statistics;
pub mod texts;

verus! {

// ---- the sections of a report ----

/// An evaluation has finitely many attributes.
pub open spec fn is_finite(eval: SummaryModel) -> bool {
    eval.attrs.dom().finite()
}

/// How many attributes the sections for some changes hold.
pub open spec fn items_in(
    old_eval: SummaryModel,
    new_eval: SummaryModel,
    changes: Seq<CiChange>,
) -> nat
    decreases changes.len(),
{
    if changes.len() == 0 {
        0
    } else {
        items_in(old_eval, new_eval, changes.drop_last()) + summary::group_items(
            old_eval,
            new_eval,
            changes.last(),
        ).len()
    }
}

/// The attributes with one of some changes.
spec fn changed_among(
    old_eval: SummaryModel,
    new_eval: SummaryModel,
    changes: Seq<CiChange>,
) -> Set<Seq<char>> {
    Set::new(
        |attr: Seq<char>|
            summary::change_in(old_eval, new_eval, attr) matches Some(change) && changes.contains(
                change,
            ),
    )
}

/// The attributes with a change are finitely many, and are those in its section.
proof fn lemma_section_size(old_eval: SummaryModel, new_eval: SummaryModel, change: CiChange)
    requires
        is_finite(old_eval),
        is_finite(new_eval),
    ensures
        summary::changed(old_eval, new_eval, change).finite(),
        summary::group_items(old_eval, new_eval, change).len() == summary::changed(
            old_eval,
            new_eval,
            change,
        ).len(),
{
    let all = summary::all_attrs(old_eval, new_eval);
    let own = summary::changed(old_eval, new_eval, change);
    assert(own.subset_of(all));
    lemma_set_subset_finite(all, own);
    table::law_sorted_keys(own);
}

/// The sections for distinct changes hold each attribute with one of these changes once.
proof fn lemma_sections_add_up(
    old_eval: SummaryModel,
    new_eval: SummaryModel,
    changes: Seq<CiChange>,
)
    requires
        is_finite(old_eval),
        is_finite(new_eval),
        changes.no_duplicates(),
    ensures
        changed_among(old_eval, new_eval, changes).finite(),
        changed_among(old_eval, new_eval, changes).len() == items_in(old_eval, new_eval, changes),
    decreases changes.len(),
{
    let union = changed_among(old_eval, new_eval, changes);
    if changes.len() == 0 {
        assert(union =~= Set::empty());
    } else {
        let fewer = changes.drop_last();
        let last = changes.last();
        lemma_sections_add_up(old_eval, new_eval, fewer);
        lemma_section_size(old_eval, new_eval, last);
        let a = changed_among(old_eval, new_eval, fewer);
        let b = summary::changed(old_eval, new_eval, last);
        assert forall|change: CiChange| changes.contains(change) == (fewer.contains(change) || change
            == last) by {
            if fewer.contains(change) {
                let i = choose|i: int| 0 <= i < fewer.len() && fewer[i] == change;
                assert(changes[i] == change);
            }
            if changes.contains(change) && change != last {
                let i = choose|i: int| 0 <= i < changes.len() && changes[i] == change;
                assert(fewer[i] == change);
            }
            assert(changes[changes.len() - 1] == last);
        }
        assert(!fewer.contains(last)) by {
            if fewer.contains(last) {
                let i = choose|i: int| 0 <= i < fewer.len() && fewer[i] == last;
                assert(changes[i] == changes[changes.len() - 1]);
            }
        }
        assert(union =~= a.union(b));
        assert(a.disjoint(b));
        lemma_set_disjoint_lens(a, b);
    }
}

/// The counts in the captions of all sections add up to the number of attributes that one
/// evaluation or the other has.
pub proof fn law_section_counts_add_up(old_eval: SummaryModel, new_eval: SummaryModel)
    requires
        is_finite(old_eval),
        is_finite(new_eval),
    ensures
        items_in(old_eval, new_eval, CiChange::in_order()) == summary::all_attrs(
            old_eval,
            new_eval,
        ).len(),
{
    status::law_every_change_reported_once(CiChange::Removed);
    lemma_sections_add_up(old_eval, new_eval, CiChange::in_order());
    assert forall|attr: Seq<char>|
        changed_among(old_eval, new_eval, CiChange::in_order()).contains(attr)
            == summary::all_attrs(old_eval, new_eval).contains(attr) by {
        if summary::all_attrs(old_eval, new_eval).contains(attr) {
            status::law_every_change_reported_once(
                summary::change_in(old_eval, new_eval, attr)->0,
            );
        }
    }
    assert(changed_among(old_eval, new_eval, CiChange::in_order()) =~= summary::all_attrs(
        old_eval,
        new_eval,
    ));
}

/// Every attribute of either evaluation stands in the section for its change, at one place, and
/// in no other section.
pub proof fn law_attribute_in_one_section(
    old_eval: SummaryModel,
    new_eval: SummaryModel,
    attr: Seq<char>,
    change: CiChange,
)
    requires
        is_finite(old_eval),
        is_finite(new_eval),
        summary::all_attrs(old_eval, new_eval).contains(attr),
    ensures
        ({
            let items = summary::group_items(old_eval, new_eval, change);
            let here = |i: int| 0 <= i < items.len() && items[i].attr == attr;
            if summary::change_in(old_eval, new_eval, attr) == Some(change) {
                &&& exists|i: int| #[trigger] here(i)
                &&& forall|i: int, j: int| #[trigger] here(i) && #[trigger] here(j) ==> i == j
            } else {
                forall|i: int| !#[trigger] here(i)
            }
        }),
{
    lemma_section_size(old_eval, new_eval, change);
    let own = summary::changed(old_eval, new_eval, change);
    table::law_sorted_keys(own);
    let keys = table::sorted_keys(own);
    let items = summary::group_items(old_eval, new_eval, change);
    let here = |i: int| 0 <= i < items.len() && items[i].attr == attr;
    assert forall|i: int| 0 <= i < items.len() implies (#[trigger] items[i]).attr == keys[i] by {}
    if own.contains(attr) {
        assert(keys.to_set().contains(attr));
        let i = choose|i: int| 0 <= i < keys.len() && keys[i] == attr;
        assert(items[i].attr == attr);
        assert(here(i));
        assert forall|i: int, j: int| #[trigger] here(i) && #[trigger] here(j) implies i == j by {
            assert(items[i].attr == keys[i]);
            assert(items[j].attr == keys[j]);
        }
    } else {
        assert forall|i: int| !#[trigger] here(i) by {
            if here(i) {
                assert(items[i].attr == keys[i]);
                assert(keys.contains(keys[i]));
                assert(keys.to_set().contains(attr));
            }
        }
    }
}

/// A section lists its attributes in order.
pub proof fn law_sections_are_sorted(
    old_eval: SummaryModel,
    new_eval: SummaryModel,
    change: CiChange,
)
    requires
        is_finite(old_eval),
        is_finite(new_eval),
    ensures
        table::strictly_sorted(
            summary::group_items(old_eval, new_eval, change).map_values(
                |item: ListedModel| item.attr,
            ),
        ),
{
    lemma_section_size(old_eval, new_eval, change);
    let keys = table::sorted_keys(summary::changed(old_eval, new_eval, change));
    table::law_sorted_keys(summary::changed(old_eval, new_eval, change));
    assert(summary::group_items(old_eval, new_eval, change).map_values(
        |item: ListedModel| item.attr,
    ) =~= keys);
}

/// An evaluation compared with itself has no section that lists attributes.
pub proof fn law_nothing_changes_by_itself(eval: SummaryModel, change: CiChange)
    requires
        is_finite(eval),
        change.lists_attributes(),
    ensures
        summary::section(eval, eval, change) == Seq::<char>::empty(),
{
    lemma_section_size(eval, eval, change);
    let own = summary::changed(eval, eval, change);
    assert forall|attr: Seq<char>| !own.contains(attr) by {
        if eval.attrs.contains_key(attr) {
            status::law_same_state_is_no_change(eval.attrs[attr].standing());
        }
    }
    assert(own =~= Set::empty());
}

// ---- what an evaluation comes to ----

/// The inputs of all jobs are the inputs of each.
proof fn lemma_edges_of_jobs(jobs: Seq<JsonModel>, edge: Edge)
    ensures
        eval::edges(jobs).contains(edge) <==> exists|i: int|
            0 <= i < jobs.len() && (#[trigger] eval::job_edges(jobs[i])).contains(edge),
    decreases jobs.len(),
{
    if jobs.len() > 0 {
        let fewer = jobs.drop_last();
        lemma_edges_of_jobs(fewer, edge);
        let (a, b) = (eval::edges(fewer), eval::job_edges(jobs.last()));
        assert((a + b).contains(edge) <==> a.contains(edge) || b.contains(edge)) by {
            if a.contains(edge) {
                let i = choose|i: int| 0 <= i < a.len() && a[i] == edge;
                assert((a + b)[i] == edge);
            }
            if b.contains(edge) {
                let i = choose|i: int| 0 <= i < b.len() && b[i] == edge;
                assert((a + b)[a.len() + i] == edge);
            }
        }
        if a.contains(edge) {
            let i = choose|i: int|
                0 <= i < fewer.len() && (#[trigger] eval::job_edges(fewer[i])).contains(edge);
            assert(eval::job_edges(jobs[i]).contains(edge));
        }
        if b.contains(edge) {
            assert(eval::job_edges(jobs[jobs.len() - 1]).contains(edge));
        }
        if exists|i: int|
            0 <= i < jobs.len() && (#[trigger] eval::job_edges(jobs[i])).contains(edge) {
            let i = choose|i: int|
                0 <= i < jobs.len() && (#[trigger] eval::job_edges(jobs[i])).contains(edge);
            if i < fewer.len() {
                assert(eval::job_edges(fewer[i]).contains(edge));
            }
        }
    }
}

/// The users of an input are those on an edge with it.
proof fn lemma_users_on_edges(edges: Seq<Edge>, input: Seq<char>, user: Seq<char>)
    ensures
        eval::users_of(edges, input).contains(user) <==> edges.contains(Edge { input, user }),
{
    let same = |e: Edge| e.input == input;
    let kept = edges.filter(same);
    let users = eval::users_of(edges, input);
    if users.contains(user) {
        let i = choose|i: int| 0 <= i < users.len() && users[i] == user;
        assert(kept.contains(kept[i]));
        edges.lemma_filter_contains_rev(same, kept[i]);
        assert(same(kept[i]));
    }
    if edges.contains(Edge { input, user }) {
        let j = choose|j: int| 0 <= j < edges.len() && edges[j] == Edge { input, user };
        assert(same(edges[j]));
        assert(kept.contains(edges[j]));
        let i = choose|i: int| 0 <= i < kept.len() && kept[i] == edges[j];
        assert(users[i] == user);
    }
}

/// A derivation has another among its inputs exactly if some job says so.
pub proof fn law_graph_tells_inputs_of_jobs(
    jobs: Seq<JsonModel>,
    input: Seq<char>,
    user: Seq<char>,
)
    ensures
        deps::depends(eval::graph_with(eval::edges(jobs)), input, user) <==> exists|i: int|
            0 <= i < jobs.len() && (#[trigger] eval::job_edges(jobs[i])).contains(
                Edge { input, user },
            ),
{
    let edge = Edge { input, user };
    let all = eval::edges(jobs);
    lemma_edges_of_jobs(jobs, edge);
    lemma_users_on_edges(all, input, user);
    if all.contains(edge) {
        let i = choose|i: int| 0 <= i < all.len() && all[i] == edge;
        assert(all[i].input == input);
    }
}

/// What the last build for a job says counts. A job that no build is for has none.
pub proof fn law_last_build_counts(builds: Seq<JsonModel>, job: Seq<char>)
    ensures
        ({
            let by_job = eval::builds_by_job(builds);
            let is_for = |i: int| 0 <= i < builds.len() && builds[i].at("job"@).as_text()->0 == job;
            &&& by_job.contains_key(job) <==> exists|i: int| #[trigger] is_for(i)
            &&& forall|i: int|
                #[trigger] is_for(i) && (forall|j: int| i < j ==> !#[trigger] is_for(j))
                    ==> by_job[job] == status::build_in(builds[i])->0
        }),
    decreases builds.len(),
{
    let by_job = eval::builds_by_job(builds);
    let is_for = |i: int| 0 <= i < builds.len() && builds[i].at("job"@).as_text()->0 == job;
    if builds.len() > 0 {
        let fewer = builds.drop_last();
        let was_for = |i: int| 0 <= i < fewer.len() && fewer[i].at("job"@).as_text()->0 == job;
        law_last_build_counts(fewer, job);
        let n = builds.len() - 1;
        assert(is_for(n) == (builds.last().at("job"@).as_text()->0 == job));
        assert forall|i: int| i != n implies #[trigger] is_for(i) == was_for(i) by {}
        if eval::builds_by_job(fewer).contains_key(job) {
            let i = choose|i: int| #[trigger] was_for(i);
            assert(is_for(i));
        }
        if exists|i: int| #[trigger] is_for(i) {
            let i = choose|i: int| #[trigger] is_for(i);
            if i != n {
                assert(was_for(i));
            }
        }
        assert forall|i: int|
            #[trigger] is_for(i) && (forall|j: int| i < j ==> !#[trigger] is_for(j)) implies
            by_job[job] == status::build_in(builds[i])->0 by {
            if i != n {
                assert(!is_for(n));
                assert(was_for(i));
                assert forall|j: int| i < j implies !#[trigger] was_for(j) by {
                    assert(!is_for(j) || j == n);
                }
            }
        }
    } else {
        assert forall|i: int| !#[trigger] is_for(i) by {}
    }
}

/// What the job for an attribute says decides the state of the attribute, unless a later job is
/// for the same attribute. An attribute without a job has no state.
pub proof fn law_last_job_decides(
    jobs: Seq<JsonModel>,
    builds: Map<Seq<char>, BuildModel>,
    graph: Graph,
    attr: Seq<char>,
)
    ensures
        ({
            let states = eval::job_statuses(jobs, builds, graph);
            let is_for = |i: int| 0 <= i < jobs.len() && jobs[i].at("attr"@).as_text()->0 == attr;
            &&& states.dom().finite()
            &&& states.contains_key(attr) <==> exists|i: int| #[trigger] is_for(i)
            &&& forall|i: int|
                #[trigger] is_for(i) && (forall|j: int| i < j ==> !#[trigger] is_for(j))
                    ==> states[attr] == eval::job_status(jobs[i], builds, graph)
        }),
    decreases jobs.len(),
{
    let states = eval::job_statuses(jobs, builds, graph);
    let is_for = |i: int| 0 <= i < jobs.len() && jobs[i].at("attr"@).as_text()->0 == attr;
    if jobs.len() > 0 {
        let fewer = jobs.drop_last();
        let was_for = |i: int| 0 <= i < fewer.len() && fewer[i].at("attr"@).as_text()->0 == attr;
        law_last_job_decides(fewer, builds, graph, attr);
        let n = jobs.len() - 1;
        let before = eval::job_statuses(fewer, builds, graph);
        assert(is_for(n) == (jobs.last().at("attr"@).as_text()->0 == attr));
        assert forall|i: int| i != n implies #[trigger] is_for(i) == was_for(i) by {}
        if before.contains_key(attr) {
            let i = choose|i: int| #[trigger] was_for(i);
            assert(is_for(i));
        }
        if exists|i: int| #[trigger] is_for(i) {
            let i = choose|i: int| #[trigger] is_for(i);
            if i != n {
                assert(was_for(i));
            }
        }
        assert forall|i: int|
            #[trigger] is_for(i) && (forall|j: int| i < j ==> !#[trigger] is_for(j)) implies
            states[attr] == eval::job_status(jobs[i], builds, graph) by {
            if i != n {
                assert(!is_for(n));
                assert(was_for(i));
                assert forall|j: int| i < j implies !#[trigger] was_for(j) by {
                    assert(!is_for(j) || j == n);
                }
            }
        }
    } else {
        assert forall|i: int| !#[trigger] is_for(i) by {}
    }
}

/// What an evaluation comes to has finitely many attributes, so that every law on sections holds
/// of it.
pub proof fn law_summary_is_finite(eval: EvalModel)
    ensures
        is_finite(eval.summed_up()),
{
    law_last_job_decides(
        eval.jobs,
        eval::builds_by_job(eval.builds),
        eval.graph(),
        Seq::empty(),
    );
}

/// An attribute with an evaluation error is reported with that error, whatever builds there are.
pub proof fn law_eval_error_wins(
    job: JsonModel,
    builds: Map<Seq<char>, BuildModel>,
    graph: Graph,
)
    requires
        job.at("error"@).as_text() is Some,
    ensures
        eval::job_status(job, builds, graph) == StatusModel::EvalError(
            job.at("error"@).as_text()->0,
        ),
{
}

} // verus!

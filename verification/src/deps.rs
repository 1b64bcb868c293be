//! The jobs that depend on a derivation, directly or through other jobs.

use crate::table;
use crate::table::Table;
use vstd::prelude::*;
use vstd::set_lib::*;

verus! {

/// The store path of a derivation.
pub type DrvPath = str;

/// For every derivation, those that have it among their inputs.
pub type JobDeps<'a> = Table<'a, Vec<&'a DrvPath>>;

/// A list of borrowed texts, as character sequences.
pub open spec fn paths(texts: Seq<&str>) -> Seq<Seq<char>> {
    texts.map_values(|t: &str| t@)
}

/// For every derivation, those that have it among their inputs.
pub type Graph = Map<Seq<char>, Seq<Seq<char>>>;

/// The graph that a table of dependents stands for.
pub open spec fn graph_of(jobs: JobDeps) -> Graph {
    jobs@.map_values(|dependents: Vec<&str>| paths(dependents@))
}

/// `user` has `drv` among its inputs.
pub open spec fn depends(graph: Graph, drv: Seq<char>, user: Seq<char>) -> bool {
    graph.contains_key(drv) && graph[drv].contains(user)
}

/// Everything that has one of `drvs` among its inputs.
pub open spec fn dependents(graph: Graph, drvs: Set<Seq<char>>) -> Set<Seq<char>> {
    Set::new(|user: Seq<char>| exists|drv: Seq<char>| drvs.contains(drv) && depends(graph, drv, user))
}

/// The derivation and everything that depends on it through at most `steps` edges.
pub open spec fn within(graph: Graph, drv: Seq<char>, steps: nat) -> Set<Seq<char>>
    decreases steps,
{
    if steps == 0 {
        set![drv]
    } else {
        let nearer = within(graph, drv, (steps - 1) as nat);
        nearer.union(dependents(graph, nearer))
    }
}

/// The derivation and everything that depends on it through any number of edges.
pub open spec fn closure(graph: Graph, drv: Seq<char>) -> Set<Seq<char>> {
    Set::new(|user: Seq<char>| exists|steps: nat| #[trigger] within(graph, drv, steps).contains(user))
}

/// The sizes of the neighbourhoods of a derivation, from the one of its direct dependents on,
/// for as long as they grow.
pub open spec fn counts_neighbourhoods(graph: Graph, drv: Seq<char>, counts: Seq<usize>) -> bool {
    &&& counts.len() >= 1
    &&& forall|i: int|
        0 <= i < counts.len() ==> #[trigger] counts[i] == within(graph, drv, (i + 1) as nat).len()
    &&& forall|i: int, j: int| 0 <= i < j < counts.len() ==> counts[i] < counts[j]
    &&& within(graph, drv, counts.len() + 1) == within(graph, drv, counts.len())
}

/// Everything that has some input.
spec fn users(graph: Graph) -> Set<Seq<char>> {
    Set::new(|user: Seq<char>| exists|drv: Seq<char>| depends(graph, drv, user))
}

proof fn lemma_users_finite(graph: Graph)
    requires
        graph.dom().finite(),
    ensures
        users(graph).finite(),
    decreases graph.dom().len(),
{
    if graph.dom().len() == 0 {
        assert(graph.dom() =~= Set::empty());
        assert(users(graph) =~= Set::empty());
    } else {
        let drv = graph.dom().choose();
        assert(graph.dom().contains(drv));
        let rest = graph.remove(drv);
        lemma_users_finite(rest);
        let own = graph[drv].to_set();
        assert(users(graph) =~= users(rest).union(own)) by {
            assert forall|user: Seq<char>| users(graph).contains(user) implies users(rest).union(
                own,
            ).contains(user) by {
                let d = choose|d: Seq<char>| depends(graph, d, user);
                if d != drv {
                    assert(depends(rest, d, user));
                }
            }
            assert forall|user: Seq<char>| users(rest).union(own).contains(user) implies users(
                graph,
            ).contains(user) by {
                if users(rest).contains(user) {
                    let d = choose|d: Seq<char>| depends(rest, d, user);
                    assert(depends(graph, d, user));
                } else {
                    assert(depends(graph, drv, user));
                }
            }
        }
    }
}

/// Neighbourhoods only hold the derivation itself and things that have some input.
proof fn lemma_within_bounded(graph: Graph, drv: Seq<char>, steps: nat)
    requires
        graph.dom().finite(),
    ensures
        within(graph, drv, steps).subset_of(users(graph).insert(drv)),
        within(graph, drv, steps).finite(),
        within(graph, drv, steps).len() <= users(graph).insert(drv).len(),
    decreases steps,
{
    lemma_users_finite(graph);
    let bound = users(graph).insert(drv);
    if steps > 0 {
        let nearer = within(graph, drv, (steps - 1) as nat);
        lemma_within_bounded(graph, drv, (steps - 1) as nat);
        assert forall|user: Seq<char>| within(graph, drv, steps).contains(user) implies bound.contains(
            user,
        ) by {
            if !nearer.contains(user) {
                let d = choose|d: Seq<char>| nearer.contains(d) && depends(graph, d, user);
                assert(depends(graph, d, user));
            }
        }
    }
    lemma_set_subset_finite(bound, within(graph, drv, steps));
    lemma_len_subset(within(graph, drv, steps), bound);
}

/// A neighbourhood that one more step does not widen is the closure.
proof fn lemma_fixpoint_is_closure(graph: Graph, drv: Seq<char>, steps: nat)
    requires
        within(graph, drv, steps + 1) == within(graph, drv, steps),
    ensures
        closure(graph, drv) == within(graph, drv, steps),
{
    assert forall|more: nat| #[trigger] within(graph, drv, more).subset_of(
        within(graph, drv, steps),
    ) by {
        lemma_within_saturated(graph, drv, steps, more);
    }
    assert forall|user: Seq<char>| closure(graph, drv).contains(user) implies within(
        graph,
        drv,
        steps,
    ).contains(user) by {
        let more = choose|more: nat| #[trigger] within(graph, drv, more).contains(user);
        assert(within(graph, drv, more).subset_of(within(graph, drv, steps)));
    }
    assert(closure(graph, drv) =~= within(graph, drv, steps));
}

pub proof fn lemma_within_saturated(graph: Graph, drv: Seq<char>, steps: nat, more: nat)
    requires
        within(graph, drv, steps + 1) == within(graph, drv, steps),
    ensures
        within(graph, drv, more).subset_of(within(graph, drv, steps)),
    decreases more,
{
    if more == 0 {
        lemma_within_has_start(graph, drv, steps);
    } else {
        lemma_within_saturated(graph, drv, steps, (more - 1) as nat);
        let full = within(graph, drv, steps);
        let nearer = within(graph, drv, (more - 1) as nat);
        assert forall|user: Seq<char>| within(graph, drv, more).contains(user) implies full.contains(
            user,
        ) by {
            if !nearer.contains(user) {
                let d = choose|d: Seq<char>| nearer.contains(d) && depends(graph, d, user);
                assert(full.contains(d) && depends(graph, d, user));
                assert(dependents(graph, full).contains(user));
                assert(within(graph, drv, steps + 1).contains(user));
            }
        }
    }
}

proof fn lemma_within_has_start(graph: Graph, drv: Seq<char>, steps: nat)
    ensures
        within(graph, drv, steps).contains(drv),
    decreases steps,
{
    if steps > 0 {
        lemma_within_has_start(graph, drv, (steps - 1) as nat);
    }
}

/// A chain of derivations, each having the one before it among its inputs.
pub open spec fn is_chain(graph: Graph, chain: Seq<Seq<char>>) -> bool {
    &&& chain.len() >= 1
    &&& forall|i: int|
        0 <= i < chain.len() - 1 ==> depends(graph, #[trigger] chain[i], chain[i + 1])
}

/// A chain that leads from `drv` to `user` through at most `steps` edges.
pub open spec fn leads(
    graph: Graph,
    chain: Seq<Seq<char>>,
    drv: Seq<char>,
    user: Seq<char>,
    steps: nat,
) -> bool {
    &&& is_chain(graph, chain)
    &&& chain.first() == drv
    &&& chain.last() == user
    &&& chain.len() <= steps + 1
}

/// Something is within a number of steps of a derivation exactly if a chain of at most that
/// many edges leads to it.
pub proof fn law_within_means_chain(graph: Graph, drv: Seq<char>, user: Seq<char>, steps: nat)
    ensures
        within(graph, drv, steps).contains(user) <==> exists|chain: Seq<Seq<char>>|
            leads(graph, chain, drv, user, steps),
    decreases steps,
{
    if steps == 0 {
        if user == drv {
            assert(leads(graph, seq![drv], drv, user, steps));
        }
        if exists|chain: Seq<Seq<char>>| leads(graph, chain, drv, user, steps) {
            let chain = choose|chain: Seq<Seq<char>>| leads(graph, chain, drv, user, steps);
            assert(chain.len() == 1);
        }
    } else {
        let fewer = (steps - 1) as nat;
        let nearer = within(graph, drv, fewer);
        if within(graph, drv, steps).contains(user) {
            if nearer.contains(user) {
                law_within_means_chain(graph, drv, user, fewer);
                let chain = choose|chain: Seq<Seq<char>>| leads(graph, chain, drv, user, fewer);
                assert(leads(graph, chain, drv, user, steps));
            } else {
                let d = choose|d: Seq<char>| nearer.contains(d) && depends(graph, d, user);
                law_within_means_chain(graph, drv, d, fewer);
                let chain = choose|chain: Seq<Seq<char>>| leads(graph, chain, drv, d, fewer);
                let longer = chain.push(user);
                assert forall|i: int| 0 <= i < longer.len() - 1 implies depends(
                    graph,
                    #[trigger] longer[i],
                    longer[i + 1],
                ) by {
                    if i < chain.len() - 1 {
                        assert(depends(graph, chain[i], chain[i + 1]));
                    }
                }
                assert(leads(graph, longer, drv, user, steps));
            }
        }
        if exists|chain: Seq<Seq<char>>| leads(graph, chain, drv, user, steps) {
            let chain = choose|chain: Seq<Seq<char>>| leads(graph, chain, drv, user, steps);
            if chain.len() == 1 {
                lemma_within_has_start(graph, drv, steps);
            } else {
                let shorter = chain.drop_last();
                assert forall|i: int| 0 <= i < shorter.len() - 1 implies depends(
                    graph,
                    #[trigger] shorter[i],
                    shorter[i + 1],
                ) by {
                    assert(depends(graph, chain[i], chain[i + 1]));
                }
                let d = shorter.last();
                assert(leads(graph, shorter, drv, d, fewer));
                law_within_means_chain(graph, drv, d, fewer);
                assert(depends(graph, chain[chain.len() - 2], chain[chain.len() - 1]));
                assert(nearer.contains(d) && depends(graph, d, user));
                assert(dependents(graph, nearer).contains(user));
            }
        }
    }
}

/// The closure of a derivation holds exactly what some chain leads to.
pub proof fn law_closure_means_chain(graph: Graph, drv: Seq<char>, user: Seq<char>)
    ensures
        closure(graph, drv).contains(user) <==> exists|chain: Seq<Seq<char>>|
            is_chain(graph, chain) && chain.first() == drv && chain.last() == user,
{
    if closure(graph, drv).contains(user) {
        let steps = choose|steps: nat| #[trigger] within(graph, drv, steps).contains(user);
        law_within_means_chain(graph, drv, user, steps);
        let chain = choose|chain: Seq<Seq<char>>| leads(graph, chain, drv, user, steps);
        assert(is_chain(graph, chain) && chain.first() == drv && chain.last() == user);
    }
    if exists|chain: Seq<Seq<char>>|
        is_chain(graph, chain) && chain.first() == drv && chain.last() == user {
        let chain = choose|chain: Seq<Seq<char>>|
            is_chain(graph, chain) && chain.first() == drv && chain.last() == user;
        let steps = (chain.len() - 1) as nat;
        assert(leads(graph, chain, drv, user, steps));
        law_within_means_chain(graph, drv, user, steps);
        assert(within(graph, drv, steps).contains(user));
    }
}

/// The direct dependents of a derivation are among all of its dependents, and so is the
/// derivation itself.
pub proof fn law_direct_among_all(graph: Graph, drv: Seq<char>)
    requires
        graph.dom().finite(),
    ensures
        within(graph, drv, 1).subset_of(closure(graph, drv)),
        closure(graph, drv).contains(drv),
        closure(graph, drv).finite(),
        1 <= within(graph, drv, 1).len() <= closure(graph, drv).len(),
{
    lemma_users_finite(graph);
    lemma_within_bounded(graph, drv, 1);
    lemma_within_has_start(graph, drv, 1);
    let bound = users(graph).insert(drv);
    assert forall|user: Seq<char>| closure(graph, drv).contains(user) implies bound.contains(
        user,
    ) by {
        let steps = choose|steps: nat| #[trigger] within(graph, drv, steps).contains(user);
        lemma_within_bounded(graph, drv, steps);
    }
    lemma_set_subset_finite(bound, closure(graph, drv));
    lemma_len_subset(within(graph, drv, 1), closure(graph, drv));
    if within(graph, drv, 1).len() == 0 {
        assert(within(graph, drv, 1) =~= Set::empty());
    }
}

/// Everything that has one of the first `n` of `drvs` among its inputs.
spec fn dependents_of_first(graph: Graph, drvs: Seq<Seq<char>>, n: int) -> Set<Seq<char>> {
    dependents(graph, drvs.take(n).to_set())
}

/// One more derivation adds its own dependents.
proof fn lemma_dependents_step(graph: Graph, drvs: Seq<Seq<char>>, n: int, own: Seq<Seq<char>>)
    requires
        0 <= n < drvs.len(),
        own == (if graph.contains_key(drvs[n]) {
            graph[drvs[n]]
        } else {
            Seq::empty()
        }),
    ensures
        dependents_of_first(graph, drvs, n + 1) == dependents_of_first(graph, drvs, n).union(
            own.to_set(),
        ),
{
    let (a, b) = (drvs.take(n).to_set(), drvs.take(n + 1).to_set());
    table::lemma_take_set(drvs, n);
    assert forall|user: Seq<char>| dependents(graph, b).contains(user) == dependents(
        graph,
        a,
    ).union(own.to_set()).contains(user) by {
        if dependents(graph, b).contains(user) {
            let d = choose|d: Seq<char>| b.contains(d) && depends(graph, d, user);
            if a.contains(d) {
                assert(a.contains(d) && depends(graph, d, user));
            }
        }
        if dependents(graph, a).contains(user) {
            let d = choose|d: Seq<char>| a.contains(d) && depends(graph, d, user);
            assert(b.contains(d) && depends(graph, d, user));
        }
        if own.to_set().contains(user) {
            assert(b.contains(drvs[n]) && depends(graph, drvs[n], user));
        }
    }
    assert(dependents(graph, b) =~= dependents(graph, a).union(own.to_set()));
}

/// The jobs that have one of `drvs` among their inputs.
fn collect_dependents<'a>(drvs: &Table<'a, ()>, jobs: &JobDeps<'a>) -> (found: Table<'a, ()>)
    ensures
        found@.dom() == dependents(graph_of(*jobs), drvs@.dom()),
{
    let ghost graph = graph_of(*jobs);
    let mut found: Table<'a, ()> = Table::new();
    let n = drvs.len();
    let mut i: usize = 0;
    assert(found@.dom() =~= dependents_of_first(graph, drvs.keys(), 0));
    while i < n
        invariant
            i <= n,
            n == drvs.keys().len(),
            graph == graph_of(*jobs),
            found@.dom() == dependents_of_first(graph, drvs.keys(), i as int),
        decreases n - i,
    {
        let (drv, _) = drvs.entry(i);
        let ghost base = found@.dom();
        match jobs.get(drv) {
            Some(users) => {
                let mut j: usize = 0;
                assert(found@.dom() =~= base.union(paths(users@).take(0).to_set()));
                while j < users.len()
                    invariant
                        j <= users@.len(),
                        found@.dom() == base.union(paths(users@).take(j as int).to_set()),
                    decreases users.len() - j,
                {
                    found.insert(users[j], ());
                    proof {
                        let all = paths(users@);
                        table::lemma_take_set(all, j as int);
                        assert(found@.dom() =~= base.union(all.take(j + 1).to_set()));
                    }
                    j += 1;
                }
                proof {
                    assert(paths(users@).take(j as int) =~= paths(users@));
                    lemma_dependents_step(graph, drvs.keys(), i as int, paths(users@));
                }
            },
            None => {
                proof {
                    lemma_dependents_step(graph, drvs.keys(), i as int, Seq::empty());
                    assert(base.union(Seq::<Seq<char>>::empty().to_set()) =~= base);
                }
            },
        }
        i += 1;
    }
    assert(drvs.keys().take(i as int) =~= drvs.keys());
    found
}

/// The sizes of the growing neighbourhoods of a derivation. The first is that of its direct
/// dependents together with itself, the last that of everything that depends on it.
pub fn dependent_job_counts<'a>(drv: &'a DrvPath, jobs: &JobDeps<'a>) -> (counts: Vec<usize>)
    ensures
        counts_neighbourhoods(graph_of(*jobs), drv@, counts@),
        counts@.last() == closure(graph_of(*jobs), drv@).len(),
{
    let ghost graph = graph_of(*jobs);
    let mut deps: Table<'a, ()> = Table::new();
    deps.insert(drv, ());
    let mut counts: Vec<usize> = Vec::new();
    // The length of the table comes with the fact that its keys are finitely many.
    let _ = jobs.len();
    assert(graph.dom() =~= jobs@.dom());
    let ghost bound = users(graph).insert(drv@).len();
    assert(deps@.dom() =~= within(graph, drv@, 0));
    loop
        invariant
            graph == graph_of(*jobs),
            graph.dom().finite(),
            bound == users(graph).insert(drv@).len(),
            deps@.dom() == within(graph, drv@, counts@.len()),
            forall|i: int|
                0 <= i < counts@.len() ==> #[trigger] counts@[i] == within(
                    graph,
                    drv@,
                    (i + 1) as nat,
                ).len(),
            forall|i: int, j: int| 0 <= i < j < counts@.len() ==> counts@[i] < counts@[j],
            forall|i: int| 0 <= i < counts@.len() ==> i < #[trigger] counts@[i],
        ensures
            counts_neighbourhoods(graph, drv@, counts@),
        decreases bound + 1 - counts@.len(),
    {
        let ghost steps = counts@.len();
        let found = collect_dependents(&deps, jobs);
        let n = found.len();
        let mut i: usize = 0;
        let ghost nearer = deps@.dom();
        assert(nearer =~= nearer.union(found.keys().take(0).to_set()));
        while i < n
            invariant
                i <= n,
                n == found.keys().len(),
                deps@.dom() == nearer.union(found.keys().take(i as int).to_set()),
            decreases n - i,
        {
            let (user, _) = found.entry(i);
            deps.insert(user, ());
            proof {
                let all = found.keys();
                table::lemma_take_set(all, i as int);
                assert(deps@.dom() =~= nearer.union(all.take(i + 1).to_set()));
            }
            i += 1;
        }
        proof {
            assert(found.keys().take(i as int) =~= found.keys());
            assert(deps@.dom() == within(graph, drv@, steps + 1));
            lemma_within_bounded(graph, drv@, steps);
            lemma_within_bounded(graph, drv@, steps + 1);
        }
        let last: usize = if counts.len() > 0 {
            counts[counts.len() - 1]
        } else {
            0
        };
        let size = deps.len();
        if last == size {
            proof {
                lemma_within_has_start(graph, drv@, steps + 1);
                if steps == 0 {
                    assert(within(graph, drv@, 1).len() == 0);
                }
                lemma_subset_equality(within(graph, drv@, steps), within(graph, drv@, steps + 1));
            }
            break;
        }
        proof {
            if steps > 0 {
                lemma_len_subset(within(graph, drv@, steps), within(graph, drv@, steps + 1));
            }
        }
        counts.push(size);
    }
    proof {
        lemma_fixpoint_is_closure(graph, drv@, counts@.len());
    }
    counts
}

} // verus!

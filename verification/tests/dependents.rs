use ros_hydra_stats::deps::{dependent_job_counts, JobDeps};
use ros_hydra_stats::eval::{EvalDataError, HydraEval};
use ros_hydra_stats::json::Json;
use ros_hydra_stats::table::Table;

fn parse(text: &str) -> Json {
    match Json::parse(text) {
        Ok(json) => json,
        Err(_) => panic!("{} is no JSON", text),
    }
}

fn eval_of(jobs: Vec<&str>) -> HydraEval {
    HydraEval {
        eval_id: 1,
        distro: None,
        hydra_builds: Vec::new(),
        eval_jobs: jobs.into_iter().map(parse).collect(),
    }
}

fn deps_of(edges: &[(&'static str, &'static str)]) -> JobDeps<'static> {
    let mut deps: JobDeps<'static> = Table::new();
    for (input, user) in edges {
        deps.add(input, user);
    }
    deps
}

#[test]
fn nothing_depends_on_a_lone_derivation() {
    let deps = deps_of(&[]);
    assert_eq!(dependent_job_counts("a", &deps), vec![1]);
    let deps = deps_of(&[("x", "y")]);
    assert_eq!(dependent_job_counts("a", &deps), vec![1]);
}

#[test]
fn counts_grow_along_a_chain() {
    let deps = deps_of(&[("a", "b"), ("b", "c"), ("c", "d")]);
    assert_eq!(dependent_job_counts("a", &deps), vec![2, 3, 4]);
    assert_eq!(dependent_job_counts("c", &deps), vec![2]);
    assert_eq!(dependent_job_counts("d", &deps), vec![1]);
}

#[test]
fn each_dependent_is_counted_once() {
    let deps = deps_of(&[("a", "b"), ("a", "c"), ("b", "d"), ("c", "d"), ("a", "b")]);
    assert_eq!(dependent_job_counts("a", &deps), vec![3, 4]);
}

#[test]
fn cycles_end() {
    let deps = deps_of(&[("a", "b"), ("b", "a")]);
    assert_eq!(dependent_job_counts("a", &deps), vec![2]);
    let deps = deps_of(&[("a", "a")]);
    assert_eq!(dependent_job_counts("a", &deps), vec![1]);
}

#[test]
fn direct_dependents_are_among_all() {
    let deps = deps_of(&[("a", "b"), ("b", "c"), ("a", "d"), ("d", "e"), ("e", "f")]);
    let counts = dependent_job_counts("a", &deps);
    assert_eq!(counts, vec![3, 5, 6]);
    assert!(counts[0] <= counts[counts.len() - 1]);
}

#[test]
fn dependencies_are_read_from_jobs() {
    let eval = eval_of(vec![
        r#"{"attr": "b", "drvPath": "/b.drv", "inputDrvs": {"/a.drv": ["out"], "/x.drv": ["out"]}}"#,
        r#"{"attr": "broken", "error": "no"}"#,
        r#"{"attr": "c", "drvPath": "/c.drv", "inputDrvs": {"/a.drv": ["out"]}}"#,
        r#"{"attr": "d", "drvPath": "/d.drv", "inputDrvs": {"/b.drv": ["out"]}}"#,
        r#"{"attr": "e", "inputDrvs": {}}"#,
    ]);
    let deps = match eval.get_eval_job_deps() {
        Ok(deps) => deps,
        Err(_) => panic!("no dependencies"),
    };
    assert_eq!(deps.len(), 3);
    assert_eq!(deps.get("/a.drv"), Some(&vec!["/b.drv", "/c.drv"]));
    assert_eq!(deps.get("/x.drv"), Some(&vec!["/b.drv"]));
    assert_eq!(deps.get("/b.drv"), Some(&vec!["/d.drv"]));
    assert_eq!(deps.get("/c.drv"), None);
    assert_eq!(dependent_job_counts("/a.drv", &deps), vec![3, 4]);
}

#[test]
fn inputs_that_are_no_object_are_refused() {
    let eval = eval_of(vec![
        r#"{"attr": "a", "drvPath": "/a.drv", "inputDrvs": {}}"#,
        r#"{"attr": "b", "drvPath": "/b.drv", "inputDrvs": ["/a.drv"]}"#,
    ]);
    assert!(matches!(eval.get_eval_job_deps(), Err(EvalDataError::NoInputs(1))));
    let eval = eval_of(vec![r#"{"attr": "b", "drvPath": "/b.drv", "inputDrvs": null}"#]);
    assert!(matches!(eval.get_eval_job_deps(), Err(EvalDataError::NoInputs(0))));
}

#[test]
fn inputs_without_a_user_are_refused() {
    let eval = eval_of(vec![r#"{"attr": "b", "inputDrvs": {"/a.drv": ["out"]}}"#]);
    assert!(matches!(eval.get_eval_job_deps(), Err(EvalDataError::NoDrvPath(0))));
}

use ros_hydra_stats::analyzer::EvalErrorAnalyzer;
use ros_hydra_stats::cli::EvalArgs;
use ros_hydra_stats::eval::{EvalDataError, HydraEval};
use ros_hydra_stats::json::Json;
use ros_hydra_stats::stats::{
    eval_failures, print_eval_failure_summary, process_and_print_eval_stats, sort_by_dependents,
    write_failures, Failure, Job,
};

fn analyzer() -> EvalErrorAnalyzer {
    match EvalErrorAnalyzer::new() {
        Ok(analyzer) => analyzer,
        Err(_) => panic!("the patterns are refused"),
    }
}

fn parse_all(texts: Vec<&str>) -> Vec<Json> {
    let mut all = Vec::new();
    for text in texts {
        match Json::parse(text) {
            Ok(json) => all.push(json),
            Err(_) => panic!("{} is no JSON", text),
        }
    }
    all
}

fn eval_of(builds: Vec<&str>, jobs: Vec<&str>) -> HydraEval {
    HydraEval {
        eval_id: 1,
        distro: None,
        hydra_builds: parse_all(builds),
        eval_jobs: parse_all(jobs),
    }
}

fn job(name: &'static str, all_deps: usize) -> Job<'static> {
    Job { job: name, direct_deps: 1, all_deps, build_url: "u".to_string() }
}

fn args(eval_failures: bool) -> EvalArgs {
    EvalArgs { eval_id: 1, eval_failures, list_successful: false }
}

#[test]
fn failed_builds_are_listed() {
    let eval = eval_of(
        vec![
            r#"{"job": "a", "drvpath": "/a.drv", "buildstatus": 1, "id": 10}"#,
            r#"{"job": "b", "drvpath": "/b.drv", "buildstatus": 0, "id": 11}"#,
            r#"{"job": "c", "drvpath": "/c.drv", "buildstatus": null, "id": 12}"#,
            r#"{"job": "d", "drvpath": "/d.drv", "buildstatus": 2}"#,
            r#"{"job": "e", "drvpath": "/e.drv", "buildstatus": -1, "id": "x"}"#,
        ],
        vec![
            r#"{"attr": "b", "drvPath": "/b.drv", "inputDrvs": {"/a.drv": ["out"]}}"#,
            r#"{"attr": "c", "drvPath": "/c.drv", "inputDrvs": {"/b.drv": ["out"]}}"#,
        ],
    );
    let failed = match eval.get_failed_build_stats() {
        Ok(failed) => failed,
        Err(_) => panic!("not listed"),
    };
    let told: Vec<(&str, usize, usize, &str)> = failed
        .iter()
        .map(|job| (job.job, job.direct_deps, job.all_deps, job.build_url.as_str()))
        .collect();
    assert_eq!(
        told,
        vec![
            ("a", 2, 3, "http://10.35.95.5:3000/build/10"),
            ("d", 1, 1, "http://10.35.95.5:3000/build/null"),
            ("e", 1, 1, "http://10.35.95.5:3000/build/\"x\""),
        ]
    );
}

#[test]
fn unsound_failed_builds_are_told() {
    let eval = eval_of(vec![r#"{"job": "a", "buildstatus": 1}"#], Vec::new());
    assert!(matches!(eval.get_failed_build_stats(), Err(EvalDataError::NoBuildDrvPath(0))));
    let eval = eval_of(vec![r#"{"drvpath": "/a", "buildstatus": 1}"#], Vec::new());
    assert!(matches!(eval.get_failed_build_stats(), Err(EvalDataError::NoJobName(0))));
    let eval = eval_of(Vec::new(), vec![r#"{"inputDrvs": 1}"#]);
    assert!(matches!(eval.get_failed_build_stats(), Err(EvalDataError::NoInputs(0))));
    // What is wrong with a build that did not fail does not matter.
    let eval = eval_of(vec![r#"{"buildstatus": 0}"#], Vec::new());
    assert!(matches!(eval.get_failed_build_stats(), Ok(failed) if failed.is_empty()));
}

#[test]
fn sorting_by_dependents_is_stable() {
    let sorted = sort_by_dependents(vec![
        job("a", 5),
        job("b", 1),
        job("c", 5),
        job("d", 3),
        job("e", 1),
    ]);
    let names: Vec<&str> = sorted.iter().map(|job| job.job).collect();
    assert_eq!(names, vec!["b", "e", "d", "a", "c"]);
    assert!(sort_by_dependents(Vec::new()).is_empty());
}

#[test]
fn failures_are_written() {
    let failures = vec![
        Failure { attr: "a", error: "x\n\n  y\n", reason: None },
        Failure { attr: "b", error: "", reason: Some("z".to_string()) },
        Failure { attr: "c", error: "", reason: Some("y".to_string()) },
        Failure { attr: "d", error: "", reason: Some("z".to_string()) },
        Failure { attr: "e", error: "one\r\ntwo", reason: None },
    ];
    assert_eq!(
        write_failures(&failures),
        "a: \n    x\n\n      y\n\ne: \n    one\n    two\ny: 1\n    c\nz: 2\n    b\n    d\n"
    );
    assert_eq!(write_failures(&Vec::new()), "");
}

#[test]
fn failures_are_summed_up() {
    let jobs = parse_all(vec![
        r#"{"attr": "a", "error": "error: attribute 'foo' missing"}"#,
        r#"{"attr": "b", "error": "strange"}"#,
        r#"{"attr": "c"}"#,
        r#"{"attr": "d", "error": "x error: attribute 'foo' missing y"}"#,
        r#"{"error": 5}"#,
    ]);
    match print_eval_failure_summary(&jobs, &analyzer()) {
        Ok(report) => assert_eq!(
            report,
            "b: \n    strange\nerror: attribute 'foo' missing: 2\n    a\n    d\n"
        ),
        Err(_) => panic!("not summed up"),
    }
    match eval_failures(&jobs, &analyzer()) {
        Ok(failures) => {
            let attrs: Vec<&str> = failures.iter().map(|failure| failure.attr).collect();
            assert_eq!(attrs, vec!["a", "b", "d"]);
        }
        Err(_) => panic!("not found"),
    }
}

#[test]
fn failures_without_an_attribute_are_told() {
    let jobs = parse_all(vec![r#"{"attr": "a"}"#, r#"{"error": "e"}"#]);
    assert!(matches!(
        print_eval_failure_summary(&jobs, &analyzer()),
        Err(EvalDataError::NoAttr(1))
    ));
}

#[test]
fn statistics_of_an_evaluation() {
    let eval = eval_of(
        vec![
            r#"{"job": "a", "drvpath": "/a.drv", "buildstatus": 1, "id": 10}"#,
            r#"{"job": "b", "drvpath": "/b.drv", "buildstatus": 2, "id": 11}"#,
        ],
        vec![
            r#"{"attr": "b", "drvPath": "/b.drv", "inputDrvs": {"/a.drv": ["out"]}}"#,
            r#"{"attr": "c", "error": "strange"}"#,
        ],
    );
    match process_and_print_eval_stats(&eval, &args(true), &analyzer()) {
        Ok(stats) => {
            let names: Vec<&str> = stats.failed_jobs.iter().map(|job| job.job).collect();
            assert_eq!(names, vec!["b", "a"]);
            match stats.eval_failures {
                Some(Ok(report)) => assert_eq!(report, "c: \n    strange\n"),
                _ => panic!("no report"),
            }
        }
        Err(_) => panic!("no statistics"),
    }
    match process_and_print_eval_stats(&eval, &args(false), &analyzer()) {
        Ok(stats) => assert!(stats.eval_failures.is_none()),
        Err(_) => panic!("no statistics"),
    }
}

#[test]
fn statistics_of_unsound_evaluations() {
    let eval = eval_of(Vec::new(), vec![r#"{"error": "e"}"#]);
    match process_and_print_eval_stats(&eval, &args(true), &analyzer()) {
        Ok(stats) => {
            assert!(matches!(stats.eval_failures, Some(Err(EvalDataError::NoAttr(0)))))
        }
        Err(_) => panic!("no statistics"),
    }
    let eval = eval_of(vec![r#"{"buildstatus": 1}"#], Vec::new());
    assert!(matches!(
        process_and_print_eval_stats(&eval, &args(false), &analyzer()),
        Err(EvalDataError::NoBuildDrvPath(0))
    ));
}

#[test]
fn successful_builds_are_listed_if_asked_for() {
    let eval = eval_of(
        vec![
            r#"{"job": "a", "drvpath": "/a.drv", "finished": 1, "buildstatus": 0, "id": 10}"#,
            r#"{"job": "b", "drvpath": "/b.drv", "finished": 1, "buildstatus": 1, "id": 11}"#,
            r#"{"job": "c", "drvpath": "/c.drv", "finished": 0, "buildstatus": 0, "id": 12}"#,
            r#"{"job": "d", "drvpath": "/d.drv", "finished": 0, "buildstatus": null, "id": 13}"#,
            r#"{"job": "e", "drvpath": "/e.drv", "finished": 1, "buildstatus": 0, "id": 14}"#,
            r#"{"job": "f", "finished": 1, "buildstatus": 0, "id": 15}"#,
        ],
        Vec::new(),
    );
    assert_eq!(eval.get_successful_builds(), vec!["/a.drv", "/e.drv"]);
    for list_successful in [true, false] {
        let args = EvalArgs { eval_id: 1, eval_failures: false, list_successful };
        match process_and_print_eval_stats(&eval, &args, &analyzer()) {
            Ok(stats) => {
                let names: Vec<&str> = stats.failed_jobs.iter().map(|job| job.job).collect();
                assert_eq!(names, vec!["b"]);
                assert!(stats.eval_failures.is_none());
                let expected =
                    if list_successful { Some(vec!["/a.drv", "/e.drv"]) } else { None };
                assert_eq!(stats.successful, expected);
            }
            Err(_) => panic!("no statistics"),
        }
    }
}

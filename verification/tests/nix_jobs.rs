use ros_hydra_stats::inputs::{
    build_ids, build_path, eval_path, fetch_hydra_eval, EvalInputs, InputError,
};
use ros_hydra_stats::json::Json;
use ros_hydra_stats::nix::{
    cache_file_name, jobs_file_name, nix_eval_args, nix_eval_jobs, read_jobs, JobLineError, JobLog,
    JobsPlan,
};

fn parse(text: &str) -> Json {
    match Json::parse(text) {
        Ok(json) => json,
        Err(_) => panic!("{} is no JSON", text),
    }
}

#[test]
fn file_of_the_jobs() {
    assert_eq!(
        cache_file_name("https://a/b.tar.gz", "https://c/d", "x86_64-linux", None, None),
        "https:__a_b.tar.gz_https:__c_d_x86_64-linux_None_None.jsonl"
    );
    assert_eq!(
        cache_file_name("a", "b", "s", Some("humble"), Some("{ config = \"x\"; }")),
        "a_b_s_Some(\"humble\")_Some(\"{ config = \\\"x\\\"; }\").jsonl"
    );
    for distro in [None, Some("humble"), Some("a\"b\\c\n")] {
        assert_eq!(
            cache_file_name("a/b", "c/d", "s", distro, None),
            format!("a_b_c_d_s_{:?}_None.jsonl", distro)
        );
    }
    assert_eq!(jobs_file_name("a/", "/b", "c/", "d/", "e/"), "a___b_c/_d/_e/.jsonl");
}

#[test]
fn arguments_of_the_evaluator() {
    let args = nix_eval_args("http://r", "http://t", "x86_64-linux", None);
    assert_eq!(args.len(), 4);
    assert_eq!(args[0], "--force-recurse");
    assert_eq!(args[1], "--show-input-drvs");
    assert_eq!(args[2], "--expr");
    assert_eq!(
        args[3],
        "\nimport ''${fetchTarball \"http://r\"}/release.nix'' {\n  nix-ros-overlay = (fetchTarball \"http://t\");\n  system = \"x86_64-linux\";\n  \n}"
    );
    let args = nix_eval_args("r", "t", "s", Some("c"));
    assert_eq!(
        args[3],
        "\nimport ''${fetchTarball \"r\"}/release.nix'' {\n  nix-ros-overlay = (fetchTarball \"t\");\n  system = \"s\";\n   crossSystem = c;\n}"
    );
}

#[test]
fn lines_are_logged_and_read_back() {
    let mut log = JobLog::new();
    let lines = ["{\"attr\": \"a\", \"x\": 1}", "{\"attr\":\"b\"}"];
    for (line, attr) in lines.iter().zip(["a", "b"]) {
        match log.push_line(line) {
            Ok(told) => assert_eq!(told, attr),
            Err(_) => panic!("refused"),
        }
    }
    assert_eq!(log.to_cache, "{\"attr\": \"a\", \"x\": 1}\n{\"attr\":\"b\"}\n");
    let kept = match read_jobs(&log.to_cache) {
        Ok(kept) => kept,
        Err(_) => panic!("not read"),
    };
    assert_eq!(kept.len(), 2);
    for (read, logged) in kept.iter().zip(&log.jobs) {
        assert_eq!(read.write(), logged.write());
    }
}

#[test]
fn lines_that_are_no_jobs_are_refused() {
    let mut log = JobLog::new();
    assert!(matches!(log.push_line("oops"), Err(JobLineError::NotJson(_))));
    assert!(matches!(log.push_line("{}"), Err(JobLineError::NoAttr)));
    assert!(matches!(log.push_line("{\"attr\": 1}"), Err(JobLineError::NoAttr)));
    assert!(log.jobs.is_empty());
    assert_eq!(log.to_cache, "");
}

#[test]
fn kept_jobs_are_read() {
    assert!(matches!(read_jobs(""), Ok(jobs) if jobs.is_empty()));
    assert!(matches!(read_jobs("{}\n[1]"), Ok(jobs) if jobs.len() == 2));
    assert!(read_jobs("{}\noops\n{}\n").is_err());
    assert!(read_jobs("{}\n\n").is_err());
}

#[test]
fn paths_on_the_server() {
    assert_eq!(eval_path(12), "eval/12");
    assert_eq!(build_path(0), "build/0");
}

#[test]
fn builds_of_an_evaluation() {
    assert!(matches!(build_ids(&parse("{\"builds\": [3, 1, 2]}")), Ok(ids) if ids == vec![3, 1, 2]));
    assert!(matches!(build_ids(&parse("{\"builds\": []}")), Ok(ids) if ids.is_empty()));
    assert!(matches!(build_ids(&parse("{}")), Err(InputError::NoBuilds)));
    assert!(matches!(build_ids(&parse("{\"builds\": 5}")), Err(InputError::NoBuilds)));
    assert!(matches!(
        build_ids(&parse("{\"builds\": [1, -2, null]}")),
        Err(InputError::NoBuildId(1))
    ));
}

#[test]
fn inputs_of_an_evaluation() {
    let eval = parse(
        r#"{"jobsetevalinputs": {
            "nix-ros-hydra": {"uri": "https://h", "revision": "1"},
            "nix-ros-overlay": {"uri": "https://o", "revision": "2"},
            "system": {"value": "x86_64-linux"},
            "distro": {"value": "humble"}
        }}"#,
    );
    match EvalInputs::from_json(&eval) {
        Ok(inputs) => {
            assert_eq!(inputs.release_nix_tarball_url, "https://h/archive/1.tar.gz");
            assert_eq!(inputs.tarball_url, "https://o/archive/2.tar.gz");
            assert_eq!(inputs.system, "x86_64-linux");
            assert_eq!(inputs.distro, Some("humble".to_string()));
            assert_eq!(inputs.cross_system, None);
        }
        Err(_) => panic!("refused"),
    }
}

#[test]
fn incomplete_inputs_are_refused() {
    assert!(matches!(
        EvalInputs::from_json(&parse("{}")),
        Err(InputError::NoUri("nix-ros-hydra"))
    ));
    let hydra = "\"nix-ros-hydra\": {\"uri\": \"h\", \"revision\": \"1\"}";
    let overlay = "\"nix-ros-overlay\": {\"uri\": \"o\", \"revision\": \"2\"}";
    let with = |inputs: String| parse(&format!("{{\"jobsetevalinputs\": {{{}}}}}", inputs));
    assert!(matches!(
        EvalInputs::from_json(&with("\"nix-ros-hydra\": {\"uri\": \"h\"}".to_string())),
        Err(InputError::NoRevision("nix-ros-hydra"))
    ));
    assert!(matches!(
        EvalInputs::from_json(&with(hydra.to_string())),
        Err(InputError::NoUri("nix-ros-overlay"))
    ));
    assert!(matches!(
        EvalInputs::from_json(&with(format!("{}, {}", hydra, overlay))),
        Err(InputError::NoSystem)
    ));
}

#[test]
fn jobs_are_logged_with_their_lines() {
    let mut log = JobLog::new();
    assert_eq!(log.push_job("line", parse("{\"attr\": \"a\"}")), Some("a".to_string()));
    assert_eq!(log.push_job("other", parse("{\"attr\": null}")), None);
    assert_eq!(log.to_cache, "line\n");
    assert_eq!(log.jobs.len(), 1);
}

fn some_inputs() -> EvalInputs {
    EvalInputs {
        release_nix_tarball_url: "r".to_string(),
        tarball_url: "t".to_string(),
        system: "s".to_string(),
        distro: Some("humble".to_string()),
        cross_system: Some("c".to_string()),
    }
}

#[test]
fn second_run_comes_by_the_jobs_of_the_first() {
    match nix_eval_jobs(&some_inputs(), None) {
        JobsPlan::Evaluate(args) => assert_eq!(args, nix_eval_args("r", "t", "s", Some("c"))),
        _ => panic!("not evaluated"),
    }
    let mut log = JobLog::new();
    for line in ["{\"attr\": \"a\"}", "{\"attr\": \"b\", \"n\": [1]}\r", "{\"attr\": \"c\"}\r\r"] {
        assert!(log.push_line(line).is_ok());
    }
    let (jobs, to_cache) = match log.finish(true) {
        Some(outcome) => outcome,
        None => panic!("no outcome"),
    };
    match nix_eval_jobs(&some_inputs(), Some(&to_cache)) {
        JobsPlan::Kept(kept) => {
            assert_eq!(kept.len(), 3);
            for (first, second) in jobs.iter().zip(&kept) {
                assert_eq!(first.write(), second.write());
            }
        }
        _ => panic!("not kept"),
    }
    assert!(matches!(
        nix_eval_jobs(&some_inputs(), Some("oops\n")),
        JobsPlan::Unreadable(_)
    ));
}

#[test]
fn failed_evaluator_leaves_nothing() {
    let mut log = JobLog::new();
    assert!(log.push_line("{\"attr\": \"a\"}").is_ok());
    assert!(log.finish(false).is_none());
}

#[test]
fn faults_of_an_evaluation_come_in_order() {
    let inputs = "\"jobsetevalinputs\": {\"nix-ros-hydra\": {\"uri\": \"h\", \"revision\": \"1\"}, \"nix-ros-overlay\": {\"uri\": \"o\", \"revision\": \"2\"}, \"system\": {\"value\": \"s\"}}";
    let with = |builds: &str| parse(&format!("{{{}, {}}}", builds, inputs));
    match fetch_hydra_eval(&with("\"builds\": [4, 2]")) {
        Ok(parts) => {
            assert_eq!(parts.build_ids, vec![4, 2]);
            assert_eq!(parts.inputs.tarball_url, "o/archive/2.tar.gz");
        }
        Err(_) => panic!("refused"),
    }
    assert!(matches!(
        fetch_hydra_eval(&with("\"builds\": [4, \"x\", null]")),
        Err(InputError::NoBuildId(1))
    ));
    assert!(matches!(
        fetch_hydra_eval(&parse("{\"builds\": [\"x\"]}")),
        Err(InputError::NoUri("nix-ros-hydra"))
    ));
    assert!(matches!(fetch_hydra_eval(&parse("{}")), Err(InputError::NoBuilds)));
}

#[test]
fn error_of_the_first_bad_line_is_told() {
    let told = |text: &str| match read_jobs(text) {
        Ok(_) => panic!("read"),
        Err(error) => error.source.to_string(),
    };
    let alone = |text: &str| match Json::parse(text) {
        Ok(_) => panic!("read"),
        Err(error) => error.source.to_string(),
    };
    assert_ne!(alone("{"), alone("oops"));
    assert_eq!(told("{}\n{\noops\n"), alone("{"));
    assert_eq!(told("{}\noops\n{\n"), alone("oops"));
}

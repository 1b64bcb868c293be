use ros_hydra_stats::analyzer::EvalErrorAnalyzer;
use ros_hydra_stats::eval::{EvalDataError, HydraEval};
use ros_hydra_stats::group::{attr_url, is_addressable, write_group, Listed, Shown};
use ros_hydra_stats::json::Json;
use ros_hydra_stats::status::{BuildInfo, CiChange, EvalInfo, HydraAttrStatus, HydraBuild};
use ros_hydra_stats::summary::{
    describe, AttrInfo, CompareError, EvalCompareError, HydraEvalSummary, _escape_markdown,
};
use ros_hydra_stats::table::Table;

fn analyzer() -> EvalErrorAnalyzer {
    match EvalErrorAnalyzer::new() {
        Ok(analyzer) => analyzer,
        Err(_) => panic!("the patterns are refused"),
    }
}

fn parse(text: &str) -> Json {
    match Json::parse(text) {
        Ok(json) => json,
        Err(_) => panic!("{} is no JSON", text),
    }
}

fn attr(name: &str) -> AttrInfo<'static> {
    AttrInfo { attr: name.to_string(), status: None }
}

fn built(id: u64, buildstatus: i8, direct_deps: usize, all_deps: usize) -> HydraAttrStatus<'static> {
    HydraAttrStatus::Build(BuildInfo {
        eval: EvalInfo { direct_deps, all_deps },
        hydra: HydraBuild { drvpath: "/x.drv".to_string(), finished: 1, buildstatus, id },
    })
}

fn summary(
    eval_id: u64,
    distro: Option<&'static str>,
    states: Vec<(&'static str, HydraAttrStatus<'static>)>,
) -> HydraEvalSummary<'static> {
    let mut attrs = Table::new();
    for (name, state) in states {
        attrs.insert(name, state);
    }
    HydraEvalSummary { eval_id, distro, attrs }
}

fn compare(old: &HydraEvalSummary<'static>, new: &HydraEvalSummary<'static>) -> String {
    match old.compare(new, &analyzer()) {
        Ok(text) => text,
        Err(_) => panic!("not compared"),
    }
}

const MISSING: &str = "error: attribute 'foo' missing";

#[test]
fn markdown_is_escaped() {
    assert_eq!(_escape_markdown("a_b-c"), r"a\_b\-c");
    assert_eq!(_escape_markdown(r"\`*_{}[]()#+-.!"), r"\\\`\*\_\{\}\[\]\(\)\#\+\-\.\!");
    assert_eq!(_escape_markdown("plain text é"), "plain text é");
    assert_eq!(_escape_markdown(""), "");
}

#[test]
fn pages_in_the_ros_index() {
    assert_eq!(
        attr("nav2-core").ros_index_url(Some("humble")),
        Some("https://index.ros.org/p/nav2_core/#humble".to_string())
    );
    assert_eq!(
        attr("rosPackages.jazzy.nav2-core").ros_index_url(None),
        Some("https://index.ros.org/p/nav2_core/#jazzy".to_string())
    );
    assert_eq!(
        attr("rosPackages.jazzy.a.b").ros_index_url(None),
        Some("https://index.ros.org/p/a/#jazzy".to_string())
    );
    assert_eq!(attr("gazebo.x.y").ros_index_url(None), None);
    assert_eq!(
        attr("rosPackages.x").ros_index_url(Some("rolling")),
        Some("https://index.ros.org/p/rosPackages.x/#rolling".to_string())
    );
    assert_eq!(attr_url("x", None), None);
}

#[test]
fn attributes_without_a_package() {
    assert!(!is_addressable("rosPackages", None));
    assert!(!is_addressable("rosPackages.jazzy", None));
    assert!(is_addressable("rosPackages.jazzy.", None));
    assert!(is_addressable("rosPackages", Some("jazzy")));
    assert!(is_addressable("other", None));
}

#[test]
fn links_to_the_ros_index() {
    assert_eq!(
        attr("a-b").ros_index_link("index", Some("humble")),
        "[index](https://index.ros.org/p/a_b/#humble)"
    );
    assert_eq!(attr("a-b").ros_index_link("index", None), "");
    assert_eq!(
        attr("a-b").markdown_link(Some("humble")),
        "[a-b](https://index.ros.org/p/a_b/#humble)"
    );
    assert_eq!(attr("a-b").markdown_link(None), "a-b");
}

#[test]
fn eval_errors_are_described() {
    assert_eq!(describe(Some("error: x".to_string())), "``` error: x ```");
    assert_eq!(describe(None), "Unrecognized eval error");
}

#[test]
fn group_of_builds() {
    let items = vec![
        Listed {
            attr: "a-b".to_string(),
            shown: Shown::Build("http://page".to_string(), EvalInfo { direct_deps: 2, all_deps: 10 }),
        },
        Listed {
            attr: "c".to_string(),
            shown: Shown::Build("http://other".to_string(), EvalInfo { direct_deps: 1, all_deps: 1 }),
        },
    ];
    assert_eq!(
        write_group(CiChange::NewBuildFailure, &items, Some("humble"), 1, 2),
        "<details>\n\
         <summary>❌ Introduced build failures: 2</summary>\n\
         \n\
         \n  | Attribute | ROS | deps. | all |\n  |-----------|-----|-------|-----|\n\
         \u{20} | [a-b](http://page) | [index](https://index.ros.org/p/a_b/#humble) | 2 | 10 |\n\
         \u{20} | [c](http://other) | [index](https://index.ros.org/p/c/#humble) | 1 | 1 |\n\
         </details>\n\n"
    );
}

#[test]
fn group_of_names() {
    let items = vec![
        Listed { attr: "a".to_string(), shown: Shown::Name },
        Listed { attr: "b".to_string(), shown: Shown::Name },
    ];
    assert_eq!(
        write_group(CiChange::Removed, &items, None, 1, 2),
        "<details>\n<summary>✅ Removed: 2</summary>\n\n\n  - a\n  - b\n</details>\n\n"
    );
}

#[test]
fn group_of_listed_errors() {
    let items = vec![Listed {
        attr: "rosPackages.jazzy.a-b".to_string(),
        shown: Shown::EvalError("``` r ```".to_string()),
    }];
    assert_eq!(
        write_group(CiChange::AddedEvalError, &items, None, 1, 2),
        "<details>\n<summary>❌ Added with eval errors: 1</summary>\n\n\n  | Attribute | Reason |\n  |-----------|--------|\n  | [rosPackages.jazzy.a-b](https://index.ros.org/p/a_b/#jazzy) | ``` r ``` |\n</details>\n\n"
    );
}

#[test]
fn group_of_errors_by_reason() {
    let error = |attr: &str, reason: &str| Listed {
        attr: attr.to_string(),
        shown: Shown::EvalError(reason.to_string()),
    };
    let items = vec![error("a", "z"), error("b", "y"), error("c", "z")];
    assert_eq!(
        write_group(CiChange::NewEvalError, &items, None, 1, 2),
        "<details>\n<summary>❌ Introduced eval errors: 3</summary>\n\n\n  | Reason | Attributes |\n  |--------|------------|\n  | y | b |\n  | z | a, c |\n</details>\n\n"
    );
}

#[test]
fn group_without_a_list() {
    let items = vec![Listed { attr: "a".to_string(), shown: Shown::Name }];
    assert_eq!(
        write_group(CiChange::UnbuiltNoChange, &items, None, 11, 22),
        "<details>\n<summary>✅ Still unbuilt attributes: 1</summary>\n\n\n[Hydra comparison](https://hydra.iid.ciirc.cvut.cz/eval/22?compare=11)\n</details>\n\n"
    );
}

#[test]
fn one_header_serves_names_and_builds() {
    let build = |attr: &str| Listed {
        attr: attr.to_string(),
        shown: Shown::Build("u".to_string(), EvalInfo { direct_deps: 0, all_deps: 0 }),
    };
    let items =
        vec![Listed { attr: "a".to_string(), shown: Shown::Name }, build("b"), build("c")];
    assert_eq!(
        write_group(CiChange::AddedOk, &items, None, 1, 2),
        "<details>\n<summary>✅ Added successfully: 3</summary>\n\n\n  - a\n  | Attribute | ROS | deps. | all |\n  |-----------|-----|-------|-----|\n  | [b](u) |  | 0 | 0 |\n  | [c](u) |  | 0 | 0 |\n</details>\n\n"
    );
}

#[test]
fn report_on_two_evaluations() {
    let old = summary(
        1,
        Some("humble"),
        vec![
            ("gone", built(5, 0, 0, 0)),
            ("worse", built(6, 0, 0, 0)),
            ("same", built(7, 0, 0, 0)),
            ("erring", built(8, 0, 0, 0)),
        ],
    );
    let new = summary(
        2,
        Some("jazzy"),
        vec![
            ("worse", built(16, 1, 2, 3)),
            ("same", built(17, 0, 0, 0)),
            ("erring", HydraAttrStatus::EvalError(MISSING)),
            ("fresh", HydraAttrStatus::Unbuilt),
        ],
    );
    assert_eq!(
        compare(&old, &new),
        "### Hydra build and evaluation statistics\n\
         <details>\n<summary>✅ Removed: 1</summary>\n\n\n  - gone\n</details>\n\n\
         <details>\n<summary>✅ Still succeeding builds: 1</summary>\n\n\n[Hydra comparison](https://hydra.iid.ciirc.cvut.cz/eval/2?compare=1)\n</details>\n\n\
         <details>\n<summary>⚠️ Added unbuilt attributes: 1</summary>\n\n\n  - fresh\n</details>\n\n\
         <details>\n<summary>❌ Introduced eval errors: 1</summary>\n\n\n  | Reason | Attributes |\n  |--------|------------|\n  | ``` error: attribute 'foo' missing ``` | [erring](https://index.ros.org/p/erring/#humble) |\n</details>\n\n\
         <details>\n<summary>❌ Introduced build failures: 1</summary>\n\n\n  | Attribute | ROS | deps. | all |\n  |-----------|-----|-------|-----|\n  | [worse](https://hydra.iid.ciirc.cvut.cz/build/16) | [index](https://index.ros.org/p/worse/#humble) | 2 | 3 |\n</details>\n\n"
    );
}

#[test]
fn nothing_to_report() {
    let empty = summary(1, None, Vec::new());
    assert_eq!(compare(&empty, &empty), "### Hydra build and evaluation statistics\n");
}

#[test]
fn attributes_of_a_section_are_sorted() {
    let old = summary(1, None, Vec::new());
    let new = summary(
        2,
        None,
        vec![
            ("b", HydraAttrStatus::Unbuilt),
            ("c", HydraAttrStatus::Unbuilt),
            ("a", HydraAttrStatus::Unbuilt),
        ],
    );
    assert_eq!(
        compare(&old, &new),
        "### Hydra build and evaluation statistics\n<details>\n<summary>⚠️ Added unbuilt attributes: 3</summary>\n\n\n  - a\n  - b\n  - c\n</details>\n\n"
    );
}

#[test]
fn evaluation_compared_with_itself_lists_nothing() {
    let eval = summary(
        3,
        None,
        vec![
            ("a", built(1, 0, 0, 0)),
            ("b", built(2, 1, 4, 5)),
            ("c", HydraAttrStatus::Unbuilt),
            ("d", HydraAttrStatus::EvalError("strange")),
        ],
    );
    let report = compare(&eval, &eval);
    assert!(!report.contains("| Attribute |"));
    assert!(!report.contains("  - "));
    assert!(report.contains("<summary>✅ Still succeeding builds: 1</summary>"));
    assert!(report.contains("<summary>✅ Still unbuilt attributes: 1</summary>"));
    assert!(report.contains("<summary>⚠️ Still failing builds: 1</summary>"));
    assert!(report.contains("  | Unrecognized eval error | d |\n"));
}

#[test]
fn every_attribute_has_one_change() {
    let old = summary(
        1,
        None,
        vec![("a", built(1, 0, 0, 0)), ("b", HydraAttrStatus::Unbuilt)],
    );
    let new = summary(
        2,
        None,
        vec![("c", HydraAttrStatus::Unbuilt), ("b", HydraAttrStatus::EvalError("e"))],
    );
    let changes = old.changes(&new);
    let told: Vec<(&str, CiChange)> =
        changes.iter().map(|entry| (entry.info.attr.as_str(), entry.change)).collect();
    assert_eq!(
        told,
        vec![
            ("a", CiChange::Removed),
            ("b", CiChange::UnbuiltToEvalError),
            ("c", CiChange::AddedUnbuilt),
        ]
    );
    assert!(changes[0].info.status.is_none());
    assert!(matches!(changes[1].info.status, Some(HydraAttrStatus::EvalError("e"))));
}

#[test]
fn aborted_builds_stop_the_comparison() {
    let sound = summary(1, None, vec![("a", built(1, 0, 0, 0))]);
    let aborted = summary(2, None, vec![("a", built(9, 3, 0, 0))]);
    let expected = "attribute a aborted in, see https://hydra.iid.ciirc.cvut.cz/build/9";
    match aborted.compare(&sound, &analyzer()) {
        Err(CompareError::Aborted(message)) => assert_eq!(message, expected),
        _ => panic!("compared"),
    }
    match sound.compare(&aborted, &analyzer()) {
        Err(CompareError::Aborted(message)) => assert_eq!(message, expected),
        _ => panic!("compared"),
    }
}

#[test]
fn attributes_without_a_package_stop_the_comparison() {
    let old = summary(1, None, Vec::new());
    let new = summary(2, None, vec![("rosPackages.jazzy", built(1, 1, 1, 1))]);
    match old.compare(&new, &analyzer()) {
        Err(CompareError::NoPackage(attr)) => assert_eq!(attr, "rosPackages.jazzy"),
        _ => panic!("compared"),
    }
    // Nothing links to an attribute that is shown by its name alone.
    let new = summary(2, None, vec![("rosPackages.jazzy", HydraAttrStatus::Unbuilt)]);
    assert!(old.compare(&new, &analyzer()).is_ok());
}

fn eval_of(eval_id: u64, builds: Vec<&str>, jobs: Vec<&str>) -> HydraEval {
    HydraEval {
        eval_id,
        distro: Some("humble".to_string()),
        hydra_builds: builds.into_iter().map(parse).collect(),
        eval_jobs: jobs.into_iter().map(parse).collect(),
    }
}

#[test]
fn evaluations_are_compared() {
    let jobs = vec![
        r#"{"attr": "a", "drvPath": "/a.drv", "inputDrvs": {"/z.drv": ["out"]}}"#,
        r#"{"attr": "b", "drvPath": "/b.drv", "inputDrvs": {"/a.drv": ["out"]}}"#,
    ];
    let old = eval_of(
        1,
        vec![r#"{"job": "a", "drvpath": "/a.drv", "finished": 1, "buildstatus": 0, "id": 4}"#],
        jobs.clone(),
    );
    let new = eval_of(
        2,
        vec![r#"{"job": "a", "drvpath": "/a.drv", "finished": 1, "buildstatus": 1, "id": 5}"#],
        jobs,
    );
    match old.compare(&new, &analyzer()) {
        Ok(text) => assert_eq!(
            text,
            "### Hydra build and evaluation statistics\n\
             <details>\n<summary>✅ Still unbuilt attributes: 1</summary>\n\n\n[Hydra comparison](https://hydra.iid.ciirc.cvut.cz/eval/2?compare=1)\n</details>\n\n\
             <details>\n<summary>❌ Introduced build failures: 1</summary>\n\n\n  | Attribute | ROS | deps. | all |\n  |-----------|-----|-------|-----|\n  | [a](https://hydra.iid.ciirc.cvut.cz/build/5) | [index](https://index.ros.org/p/a/#humble) | 2 | 2 |\n</details>\n\n"
        ),
        Err(_) => panic!("not compared"),
    }
}

#[test]
fn evaluations_that_cannot_be_summed_up_are_not_compared() {
    let sound = eval_of(1, Vec::new(), Vec::new());
    let unsound = eval_of(2, vec!["{}"], Vec::new());
    assert!(matches!(
        unsound.compare(&sound, &analyzer()),
        Err(EvalCompareError::OldData(EvalDataError::NoJobName(0)))
    ));
    assert!(matches!(
        sound.compare(&unsound, &analyzer()),
        Err(EvalCompareError::NewData(EvalDataError::NoJobName(0)))
    ));
    let aborted = eval_of(
        3,
        vec![r#"{"job": "a", "drvpath": "/a.drv", "finished": 1, "buildstatus": 3, "id": 5}"#],
        vec![r#"{"attr": "a"}"#],
    );
    assert!(matches!(
        sound.compare(&aborted, &analyzer()),
        Err(EvalCompareError::Compare(CompareError::Aborted(_)))
    ));
}

#[test]
fn evaluation_is_summed_up() {
    let eval = eval_of(
        9,
        vec![
            r#"{"job": "ok", "drvpath": "/ok.drv", "finished": 1, "buildstatus": 0, "id": 1}"#,
            r#"{"job": "bad", "drvpath": "/old.drv", "finished": 1, "buildstatus": 0, "id": 2}"#,
            r#"{"job": "bad", "drvpath": "/bad.drv", "finished": 1, "buildstatus": 1, "id": 3}"#,
            r#"{"job": "erring", "drvpath": "/e.drv", "finished": 1, "buildstatus": 0, "id": 4}"#,
        ],
        vec![
            r#"{"attr": "ok", "drvPath": "/ok.drv", "inputDrvs": {"/bad.drv": ["out"]}}"#,
            r#"{"attr": "bad", "drvPath": "/bad.drv", "inputDrvs": {}}"#,
            r#"{"attr": "user", "drvPath": "/user.drv", "inputDrvs": {"/ok.drv": ["out"]}}"#,
            r#"{"attr": "erring", "error": "first"}"#,
            r#"{"attr": "erring", "error": "second"}"#,
        ],
    );
    let sum = match eval.summary() {
        Ok(sum) => sum,
        Err(_) => panic!("not summed up"),
    };
    assert_eq!(sum.eval_id, 9);
    assert_eq!(sum.distro, Some("humble"));
    assert_eq!(sum.attrs.len(), 4);
    match sum.attrs.get("ok") {
        Some(HydraAttrStatus::Build(info)) => {
            assert_eq!(info.hydra.id, 1);
            assert_eq!((info.eval.direct_deps, info.eval.all_deps), (0, 0));
        }
        _ => panic!("no build"),
    }
    match sum.attrs.get("bad") {
        Some(HydraAttrStatus::Build(info)) => {
            assert_eq!(info.hydra.id, 3);
            assert_eq!((info.eval.direct_deps, info.eval.all_deps), (2, 3));
        }
        _ => panic!("no build"),
    }
    assert!(matches!(sum.attrs.get("user"), Some(HydraAttrStatus::Unbuilt)));
    assert!(matches!(sum.attrs.get("erring"), Some(HydraAttrStatus::EvalError("second"))));
}

#[test]
fn unsound_evaluations_are_not_summed_up() {
    let good = r#"{"job": "a", "drvpath": "/a.drv", "finished": 1, "buildstatus": 0, "id": 1}"#;
    assert!(matches!(
        eval_of(1, vec![good, r#"{"job": 5}"#], Vec::new()).summary(),
        Err(EvalDataError::NoJobName(1))
    ));
    assert!(matches!(
        eval_of(1, vec![good, r#"{"job": "b", "finished": 0}"#], Vec::new()).summary(),
        Err(EvalDataError::NoBuild(1))
    ));
    assert!(matches!(
        eval_of(1, vec![good], vec![r#"{"inputDrvs": 1}"#]).summary(),
        Err(EvalDataError::NoInputs(0))
    ));
    assert!(matches!(
        eval_of(1, vec![good], vec![r#"{"error": "e"}"#]).summary(),
        Err(EvalDataError::NoAttr(0))
    ));
}

#[test]
fn counts_of_the_sections_add_up() {
    let old = summary(
        1,
        None,
        vec![
            ("a", built(1, 0, 0, 0)),
            ("b", built(2, 1, 1, 1)),
            ("c", HydraAttrStatus::Unbuilt),
            ("d", HydraAttrStatus::EvalError("e")),
        ],
    );
    let new = summary(
        2,
        None,
        vec![
            ("b", built(3, 0, 0, 0)),
            ("c", built(4, 1, 1, 1)),
            ("d", HydraAttrStatus::EvalError("e")),
            ("e", built(5, 0, 0, 0)),
            ("f", built(6, 0, 0, 0)),
        ],
    );
    let report = compare(&old, &new);
    let mut total = 0;
    for line in report.lines() {
        if let Some(caption) = line.strip_prefix("<summary>") {
            let caption = caption.strip_suffix("</summary>").unwrap();
            let (_, count) = caption.rsplit_once(": ").unwrap();
            total += count.parse::<usize>().unwrap();
        }
    }
    assert_eq!(total, 6);
    assert_eq!(old.changes(&new).len(), 6);
}

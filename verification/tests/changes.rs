use ros_hydra_stats::json::Json;
use ros_hydra_stats::status::{BuildInfo, CiChange, EvalInfo, HydraAttrStatus, HydraBuild};

fn build(finished: i8, buildstatus: i8) -> HydraBuild {
    HydraBuild { drvpath: "/d.drv".to_string(), finished, buildstatus, id: 7 }
}

fn built(buildstatus: i8) -> HydraAttrStatus<'static> {
    HydraAttrStatus::Build(BuildInfo {
        eval: EvalInfo { direct_deps: 0, all_deps: 0 },
        hydra: build(1, buildstatus),
    })
}

fn parse(text: &str) -> Json {
    match Json::parse(text) {
        Ok(json) => json,
        Err(_) => panic!("{} is no JSON", text),
    }
}

#[test]
fn outcome_of_a_build() {
    assert!(build(1, 0).success());
    assert!(!build(0, 0).success());
    assert!(!build(1, 1).success());
    assert!(build(1, 3).aborted());
    assert!(!build(0, 3).aborted());
    assert!(!build(1, 0).aborted());
    assert_eq!(build(1, 0).url(), "https://hydra.iid.ciirc.cvut.cz/build/7");
}

#[test]
fn builds_are_read() {
    let json = parse(
        r#"{"drvpath": "/x.drv", "finished": 1, "buildstatus": -2, "id": 18446744073709551615, "job": "j"}"#,
    );
    let build = match HydraBuild::from_json(&json) {
        Some(build) => build,
        None => panic!("no build"),
    };
    assert_eq!(build.drvpath, "/x.drv");
    assert_eq!(build.finished, 1);
    assert_eq!(build.buildstatus, -2);
    assert_eq!(build.id, u64::MAX);
}

#[test]
fn incomplete_builds_are_refused() {
    for text in [
        r#"{"finished": 1, "buildstatus": 0, "id": 1}"#,
        r#"{"drvpath": "/x", "buildstatus": 0, "id": 1}"#,
        r#"{"drvpath": "/x", "finished": 1, "id": 1}"#,
        r#"{"drvpath": "/x", "finished": 0, "buildstatus": null, "id": 1}"#,
        r#"{"drvpath": "/x", "finished": 1, "buildstatus": 0}"#,
        r#"{"drvpath": "/x", "finished": 1, "buildstatus": 128, "id": 1}"#,
        r#"{"drvpath": "/x", "finished": 1, "buildstatus": 0, "id": -1}"#,
        r#"{"drvpath": "/x", "finished": 1, "buildstatus": 1.0, "id": 1}"#,
        r#"[]"#,
    ] {
        assert!(HydraBuild::from_json(&parse(text)).is_none());
    }
}

#[test]
fn changes_between_states() {
    let error = HydraAttrStatus::EvalError("e");
    let ok = built(0);
    let failed = built(1);
    let unbuilt = HydraAttrStatus::Unbuilt;
    let expected = [
        (&error, &error, CiChange::EvalErrrorNoChange),
        (&error, &failed, CiChange::FixedEvalErrorBuildFails),
        (&error, &ok, CiChange::FixedEvalError),
        (&error, &unbuilt, CiChange::NewUnbuiltAttr),
        (&failed, &error, CiChange::NewEvalError),
        (&failed, &failed, CiChange::BuildFailureNoChange),
        (&failed, &ok, CiChange::FixedBuildFailure),
        (&failed, &unbuilt, CiChange::NewUnbuiltAttr),
        (&ok, &error, CiChange::NewEvalError),
        (&ok, &failed, CiChange::NewBuildFailure),
        (&ok, &ok, CiChange::BuildSuccessNoChange),
        (&ok, &unbuilt, CiChange::NewUnbuiltAttr),
        (&unbuilt, &error, CiChange::UnbuiltToEvalError),
        (&unbuilt, &failed, CiChange::UnbuiltToBuildFailure),
        (&unbuilt, &ok, CiChange::UnbuiltToBuildOk),
        (&unbuilt, &unbuilt, CiChange::UnbuiltNoChange),
    ];
    for (old, new, change) in expected {
        assert_eq!(old.compare(new), change);
    }
}

#[test]
fn changes_of_new_attributes() {
    assert_eq!(HydraAttrStatus::EvalError("e").ci_chage_as_new(), CiChange::AddedEvalError);
    assert_eq!(built(0).ci_chage_as_new(), CiChange::AddedOk);
    assert_eq!(built(2).ci_chage_as_new(), CiChange::AddedBuildFailure);
    assert_eq!(HydraAttrStatus::Unbuilt.ci_chage_as_new(), CiChange::AddedUnbuilt);
}

#[test]
fn fixes_are_breakages_the_other_way_round() {
    let (ok, failed, error) = (built(0), built(1), HydraAttrStatus::EvalError("e"));
    assert_eq!(failed.compare(&ok), CiChange::FixedBuildFailure);
    assert_eq!(ok.compare(&failed), CiChange::NewBuildFailure);
    assert_eq!(error.compare(&ok), CiChange::FixedEvalError);
    assert_eq!(ok.compare(&error), CiChange::NewEvalError);
}

#[test]
fn aborted_builds_are_told() {
    assert_eq!(
        built(3).panic_if_aborted("ros.x"),
        Some(
            "attribute ros.x aborted in, see https://hydra.iid.ciirc.cvut.cz/build/7".to_string()
        )
    );
    assert_eq!(built(0).panic_if_aborted("x"), None);
    assert_eq!(HydraAttrStatus::Unbuilt.panic_if_aborted("x"), None);
    assert_eq!(HydraAttrStatus::EvalError("e").panic_if_aborted("x"), None);
}

#[test]
fn every_change_has_one_place_in_the_report() {
    let all = CiChange::all();
    assert_eq!(all.len(), 18);
    for (i, a) in all.iter().enumerate() {
        for b in &all[i + 1..] {
            assert_ne!(a, b);
            assert_ne!(a.label(), b.label());
        }
    }
    assert_eq!(all[0].label(), "✅ Added successfully");
    assert_eq!(all[7].label(), "⚠️ Added unbuilt attributes");
    assert_eq!(all[17].label(), "❌ Starts building previously unbuilt attributes with build failures");
}

#[test]
fn groups_that_do_not_list_attributes() {
    let unlisted: Vec<CiChange> =
        CiChange::all().into_iter().filter(|change| !change.list_attrs()).collect();
    assert_eq!(
        unlisted,
        vec![
            CiChange::BuildSuccessNoChange,
            CiChange::UnbuiltNoChange,
            CiChange::EvalErrrorNoChange,
            CiChange::BuildFailureNoChange,
            CiChange::NewEvalError,
        ]
    );
    let summed_up: Vec<CiChange> =
        CiChange::all().into_iter().filter(|change| change.summary()).collect();
    assert_eq!(summed_up, vec![CiChange::EvalErrrorNoChange, CiChange::NewEvalError]);
}

#[test]
fn copies_of_states_are_the_same() {
    match built(1).clone() {
        HydraAttrStatus::Build(info) => {
            assert_eq!(info.hydra.drvpath, "/d.drv");
            assert_eq!(info.hydra.buildstatus, 1);
            assert_eq!(info.hydra.id, 7);
        }
        _ => panic!("no build"),
    }
    assert!(matches!(HydraAttrStatus::EvalError("e").clone(), HydraAttrStatus::EvalError("e")));
}

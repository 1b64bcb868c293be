use ros_hydra_stats::analyzer::{choose_reason, EvalErrorAnalyzer, Located};

fn analyzer() -> EvalErrorAnalyzer {
    match EvalErrorAnalyzer::new() {
        Ok(analyzer) => analyzer,
        Err(_) => panic!("the patterns are refused"),
    }
}

fn located(whole: &str, group: &str) -> Option<Located> {
    Some(Located { whole: whole.to_string(), group: group.to_string() })
}

#[test]
fn missing_attribute_is_recognized() {
    assert_eq!(
        analyzer().analyze("at x:\n       error: attribute 'foo-bar' missing\n at y"),
        Some("error: attribute 'foo-bar' missing".to_string())
    );
}

#[test]
fn broken_package_is_recognized_without_store_path() {
    assert_eq!(
        analyzer().analyze(
            "error:\n  error: Package ‘gazebo-11’ in /nix/store/abc-source/pkgs/gz.nix:20 is marked as broken, refusing to evaluate.\n"
        ),
        Some(
            "error: Package ‘gazebo-11’ is marked as broken, refusing to evaluate".to_string()
        )
    );
    assert_eq!(
        analyzer().analyze(
            "error: Package ‘freeimage’ in /nix/store/abc is marked as insecure, refusing to evaluate"
        ),
        Some("error: Package ‘freeimage’ is marked as insecure, refusing to evaluate".to_string())
    );
}

#[test]
fn unfree_package_is_recognized_without_store_path() {
    assert_eq!(
        analyzer().analyze(
            "error: Package ‘x’ in /nix/store/abc/d.nix:1 has an unfree license (‘unfree’), refusing to evaluate."
        ),
        Some(
            "error: Package ‘x’ has an unfree license (‘unfree’), refusing to evaluate".to_string()
        )
    );
}

#[test]
fn missing_argument_is_recognized() {
    assert_eq!(
        analyzer().analyze(
            "error: evaluation aborted: lib.customisation.callPackageWith: Function called without required argument \"ros-core\" at /nix/store/x:3"
        ),
        Some(
            "callPackageWith: Function called without required argument \"ros-core\"".to_string()
        )
    );
}

#[test]
fn other_errors_are_recognized_by_their_line() {
    assert_eq!(
        analyzer().analyze("error:\n       … while calling\n\n       error: infinite recursion\n       at z"),
        Some("error: infinite recursion".to_string())
    );
}

#[test]
fn errors_without_indentation_are_not_recognized() {
    assert_eq!(analyzer().analyze("error: infinite recursion"), None);
    assert_eq!(analyzer().analyze(""), None);
}

#[test]
fn missing_attribute_comes_before_all_others() {
    let error = "    error: something\nerror: Package ‘x’ in /nix/store/a is marked as broken, refusing to evaluate\nerror: attribute 'y' missing";
    assert_eq!(analyzer().analyze(error), Some("error: attribute 'y' missing".to_string()));
    let error = "    error: something\nerror: Package ‘x’ in /nix/store/a is marked as broken, refusing to evaluate";
    assert_eq!(
        analyzer().analyze(error),
        Some("error: Package ‘x’ is marked as broken, refusing to evaluate".to_string())
    );
}

#[test]
fn reasons_are_chosen_in_order() {
    let some = |s: &str| Some(s.to_string());
    assert_eq!(
        choose_reason(some("m"), located("b", "b"), located("u", "u"), some("a"), located("o", "p")),
        some("m")
    );
    assert_eq!(
        choose_reason(None, located("b in x.", " in x"), located("u", ""), some("a"), None),
        some("b.")
    );
    assert_eq!(
        choose_reason(None, None, located("u in x in x", " in x"), some("a"), located("o", "p")),
        some("u")
    );
    assert_eq!(choose_reason(None, None, None, some("a"), located("o", "p")), some("a"));
    assert_eq!(choose_reason(None, None, None, None, located("o", "p")), some("p"));
    assert_eq!(choose_reason(None, None, None, None, None), None);
}

use ros_hydra_stats::eval::HydraEval;
use ros_hydra_stats::json::Json;
use ros_hydra_stats::outcomes::{all_or_first_error, both_or_first_error};

#[test]
fn first_failure_comes_out() {
    let all: Vec<Result<u32, &str>> = vec![Ok(1), Ok(2), Ok(3)];
    assert_eq!(all_or_first_error(all), Ok(vec![1, 2, 3]));
    let some: Vec<Result<u32, &str>> = vec![Ok(1), Err("a"), Ok(3), Err("b")];
    assert_eq!(all_or_first_error(some), Err("a"));
    let none: Vec<Result<u32, &str>> = Vec::new();
    assert_eq!(all_or_first_error(none), Ok(Vec::new()));
}

#[test]
fn both_or_the_first_failure() {
    assert_eq!(both_or_first_error::<u32, &str>(Ok(1), Ok(2)), Ok((1, 2)));
    assert_eq!(both_or_first_error::<u32, &str>(Err("a"), Err("b")), Err("a"));
    assert_eq!(both_or_first_error::<u32, &str>(Ok(1), Err("b")), Err("b"));
    assert_eq!(both_or_first_error::<u32, &str>(Err("a"), Ok(2)), Err("a"));
}

#[test]
fn evaluation_is_put_together() {
    let distro = Some("humble".to_string());
    match HydraEval::from_parts::<&str>(7, distro, vec![Ok(Json::Null)], Ok(vec![Json::Bool(true)])) {
        Ok(eval) => {
            assert_eq!(eval.eval_id, 7);
            assert_eq!(eval.distro, Some("humble".to_string()));
            assert!(matches!(eval.hydra_builds[..], [Json::Null]));
            assert!(matches!(eval.eval_jobs[..], [Json::Bool(true)]));
        }
        Err(_) => panic!("failed"),
    }
}

#[test]
fn failed_builds_come_before_failed_jobs() {
    let builds = vec![Ok(Json::Null), Err("b1"), Err("b2")];
    assert!(matches!(HydraEval::from_parts(1, None, builds, Err("j")), Err("b1")));
    let builds = vec![Err("b1")];
    assert!(matches!(HydraEval::from_parts(1, None, builds, Ok(Vec::new())), Err("b1")));
    assert!(matches!(HydraEval::from_parts(1, None, vec![Ok(Json::Null)], Err("j")), Err("j")));
}

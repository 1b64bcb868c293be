use ros_hydra_stats::jobset::{
    find_eval_id_of_commit, get_latest_jobset_eval, jobset_evals_path, pull_request_jobset_paths,
    pull_request_path, Finding, JobsetSearch, PrSearch, PrStep, PullRequest, SearchStep,
};
use ros_hydra_stats::json::Json;

fn parse(text: &str) -> Json {
    match Json::parse(text) {
        Ok(json) => json,
        Err(_) => panic!("{} is no JSON", text),
    }
}

fn request(into_develop: bool) -> PullRequest {
    PullRequest { base_sha: "b".to_string(), head_sha: "h".to_string(), into_develop }
}

fn eval_of(id: &str, revision: &str) -> String {
    format!(
        "{{\"id\": {}, \"jobsetevalinputs\": {{\"nix-ros-overlay\": {{\"revision\": \"{}\"}}}}}}",
        id, revision
    )
}

fn jobset(evals: Vec<String>) -> Json {
    parse(&format!("{{\"evals\": [{}]}}", evals.join(",")))
}

#[test]
fn projects_are_tried_in_turn() {
    let mut search = JobsetSearch::new("lopsided98-develop");
    match search.get_jobset_evals() {
        SearchStep::Fetch(path) => {
            assert_eq!(path, "jobset/nix-ros-experiments/lopsided98-develop/evals")
        }
        SearchStep::Fail(_) => panic!("gives up"),
    }
    search.note_error("first".to_string());
    match search.get_jobset_evals() {
        SearchStep::Fetch(path) => {
            assert_eq!(path, "jobset/nix-ros-overlay/lopsided98-develop/evals")
        }
        SearchStep::Fail(_) => panic!("gives up"),
    }
    search.note_error("second".to_string());
    match search.get_jobset_evals() {
        SearchStep::Fetch(_) => panic!("goes on"),
        SearchStep::Fail(message) => assert_eq!(
            message,
            "Cannot fetch lopsided98-develop jobset because of the following errors:\n  first\n  second"
        ),
    }
}

#[test]
fn path_of_the_evaluations() {
    assert_eq!(jobset_evals_path("p", "j"), "jobset/p/j/evals");
}

#[test]
fn latest_evaluation_comes_first() {
    assert_eq!(
        get_latest_jobset_eval(&jobset(vec![eval_of("9", "x"), eval_of("8", "y")])),
        Some(9)
    );
    assert_eq!(get_latest_jobset_eval(&parse("{\"evals\": []}")), None);
    assert_eq!(get_latest_jobset_eval(&parse("{}")), None);
    assert_eq!(get_latest_jobset_eval(&parse("{\"evals\": [{\"id\": \"9\"}]}")), None);
    assert_eq!(get_latest_jobset_eval(&parse("{\"evals\": [{}]}")), None);
}

#[test]
fn evaluation_of_a_commit_is_found() {
    let jobsets = vec![
        jobset(vec![eval_of("1", "a"), eval_of("2", "b")]),
        jobset(vec![eval_of("3", "c"), eval_of("4", "b")]),
    ];
    assert!(find_eval_id_of_commit(&jobsets, "a") == Finding::Found(1));
    assert!(find_eval_id_of_commit(&jobsets, "b") == Finding::Found(2));
    assert!(find_eval_id_of_commit(&jobsets, "c") == Finding::Found(3));
    assert!(find_eval_id_of_commit(&jobsets, "d") == Finding::NotFound);
    assert!(find_eval_id_of_commit(&Vec::new(), "a") == Finding::NotFound);
}

#[test]
fn malformed_evaluations_end_the_search() {
    let jobsets = vec![
        jobset(vec![eval_of("1", "a"), "{\"id\": 2}".to_string()]),
        jobset(vec![eval_of("3", "c")]),
    ];
    assert!(find_eval_id_of_commit(&jobsets, "a") == Finding::Found(1));
    assert!(find_eval_id_of_commit(&jobsets, "c") == Finding::Malformed);
    // The number of an evaluation has to be given whether or not it is the one looked for.
    let jobsets = vec![jobset(vec![eval_of("null", "a"), eval_of("2", "b")])];
    assert!(find_eval_id_of_commit(&jobsets, "b") == Finding::Malformed);
    assert!(find_eval_id_of_commit(&vec![parse("{}")], "a") == Finding::Malformed);
}

#[test]
fn pull_requests_are_read() {
    let develop = r#"{"base": {"sha": "1", "ref": "develop", "repo": {"full_name": "lopsided98/nix-ros-overlay"}}, "head": {"sha": "2"}}"#;
    match PullRequest::from_json(&parse(develop)) {
        Some(pr) => {
            assert_eq!(pr.base_sha, "1");
            assert_eq!(pr.head_sha, "2");
            assert!(pr.into_develop);
        }
        None => panic!("refused"),
    }
    let master = r#"{"base": {"sha": "1", "ref": "master", "repo": {"full_name": "lopsided98/nix-ros-overlay"}}, "head": {"sha": "2"}}"#;
    assert!(matches!(PullRequest::from_json(&parse(master)), Some(pr) if !pr.into_develop));
    let fork = r#"{"base": {"sha": "1", "ref": "develop", "repo": {"full_name": "x/nix-ros-overlay"}}, "head": {"sha": "2"}}"#;
    assert!(matches!(PullRequest::from_json(&parse(fork)), Some(pr) if !pr.into_develop));
    let bare = r#"{"base": {"sha": "1"}, "head": {"sha": "2"}}"#;
    assert!(matches!(PullRequest::from_json(&parse(bare)), Some(pr) if !pr.into_develop));
    assert!(PullRequest::from_json(&parse(r#"{"base": {"sha": "1"}}"#)).is_none());
    assert!(PullRequest::from_json(&parse(r#"{"head": {"sha": "1"}}"#)).is_none());
    assert!(PullRequest::from_json(&parse(r#"{"base": {"sha": 1}, "head": {"sha": "2"}}"#)).is_none());
}

#[test]
fn found_commits_are_compared() {
    for use_cache in [true, false] {
        assert!(matches!(
            request(false).handle_pr(Some(1), Some(2), use_cache),
            PrStep::Compare(1, 2)
        ));
    }
}

#[test]
fn second_look_decides() {
    for (base, head) in [(None, None), (Some(1), None), (None, Some(2))] {
        for into_develop in [true, false] {
            let pr = request(into_develop);
            assert!(matches!(pr.handle_pr(base, head, true), PrStep::LookAgain));
            assert!(!matches!(pr.handle_pr(base, head, false), PrStep::LookAgain));
        }
    }
}

#[test]
fn latest_evaluation_stands_in_for_the_base() {
    assert!(matches!(
        request(true).handle_pr(None, Some(2), false),
        PrStep::CompareLatest(2)
    ));
    assert_eq!(
        request(true).stand_in_warning(77),
        "Cannot find Hydra evaluation for base commit b. Using latest evaluation 77 of the develop branch instead."
    );
}

#[test]
fn missing_evaluations_are_told() {
    let expect = |step: PrStep, expected: &str| match step {
        PrStep::Fail(message) => assert_eq!(
            message,
            format!("Cannot find needed Hydra evaluations for both commits: {}", expected)
        ),
        _ => panic!("goes on"),
    };
    expect(request(false).handle_pr(None, Some(2), false), "base=b->??? head=h->2");
    expect(request(true).handle_pr(Some(1), None, false), "base=b->1 head=h->???");
    expect(request(true).handle_pr(None, None, false), "base=b->??? head=h->???");
}

#[test]
fn paths_for_a_pull_request() {
    assert_eq!(pull_request_path(853), "repos/lopsided98/nix-ros-overlay/pulls/853");
    assert_eq!(
        pull_request_jobset_paths(),
        vec![
            "jobset/nix-ros-experiments/wentasah-rosdistro-sync/evals",
            "jobset/nix-ros-experiments/wentasah-test/evals",
            "jobset/nix-ros-experiments/lopsided98-develop/evals",
        ]
    );
}

#[test]
fn commits_are_looked_for_in_the_jobsets() {
    let both = vec![jobset(vec![eval_of("1", "h")]), jobset(vec![eval_of("2", "b")])];
    assert!(matches!(request(false).decide(&both, true), Some(PrStep::Compare(2, 1))));
    let head = vec![jobset(vec![eval_of("1", "h")])];
    assert!(matches!(request(true).decide(&head, true), Some(PrStep::LookAgain)));
    assert!(matches!(request(true).decide(&head, false), Some(PrStep::CompareLatest(1))));
    assert!(matches!(request(false).decide(&head, false), Some(PrStep::Fail(_))));
    // The head is in front of what is malformed, the base is not.
    let malformed = vec![jobset(vec![eval_of("1", "h"), "{}".to_string()])];
    assert!(request(true).decide(&malformed, false).is_none());
    let malformed = vec![jobset(vec![eval_of("1", "b"), "{}".to_string()])];
    assert!(request(true).decide(&malformed, false).is_none());
}

#[test]
fn search_leaves_the_cache_when_it_looks_again() {
    let none = vec![jobset(Vec::new())];
    let both = vec![jobset(vec![eval_of("1", "h"), eval_of("2", "b")])];
    let mut search = PrSearch::new(request(true));
    assert!(search.uses_cache());
    assert!(matches!(search.look(&none), Some(PrStep::LookAgain)));
    assert!(!search.uses_cache());
    assert!(matches!(search.look(&none), Some(PrStep::Fail(_))));
    assert!(!search.uses_cache());
    let mut search = PrSearch::new(request(true));
    assert!(matches!(search.look(&both), Some(PrStep::Compare(2, 1))));
    assert!(search.uses_cache());
    assert!(search.stand_in_warning(5).contains("latest evaluation 5 of"));
}

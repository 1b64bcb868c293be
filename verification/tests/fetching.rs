use ros_hydra_stats::fetch::{must_refetch, Fetch, FetchAction, FetchError, FetchEvent};
use ros_hydra_stats::json::Json;

fn parse(text: &str) -> Json {
    match Json::parse(text) {
        Ok(json) => json,
        Err(_) => panic!("{} is no JSON", text),
    }
}

const URL: &str = "http://10.35.95.5:3000/eval/5";

#[test]
fn cached_document_is_returned() {
    let mut fetch = Fetch::new("eval/5", true);
    assert!(matches!(fetch.next(FetchEvent::Started), FetchAction::ReadCache));
    match fetch.next(FetchEvent::CacheHit("{\"id\": 5}".to_string())) {
        FetchAction::Return(json) => assert_eq!(json.u64_at("id"), Some(5)),
        _ => panic!("not returned"),
    }
}

#[test]
fn missing_document_is_requested_stored_and_returned() {
    let mut fetch = Fetch::new("eval/5", true);
    assert!(matches!(fetch.next(FetchEvent::Started), FetchAction::ReadCache));
    match fetch.next(FetchEvent::CacheMiss) {
        FetchAction::Request(url) => assert_eq!(url, URL),
        _ => panic!("not requested"),
    }
    match fetch.next(FetchEvent::Answered("[7]".to_string())) {
        FetchAction::Store(text) => assert_eq!(text, "[7]"),
        _ => panic!("not stored"),
    }
    match fetch.next(FetchEvent::Stored) {
        FetchAction::Return(json) => assert_eq!(json.write(), "[7]"),
        _ => panic!("not returned"),
    }
}

#[test]
fn cache_is_passed_over_if_not_allowed() {
    let mut fetch = Fetch::new("eval/5", false);
    match fetch.next(FetchEvent::Started) {
        FetchAction::Request(url) => assert_eq!(url, URL),
        _ => panic!("not requested"),
    }
    assert!(matches!(
        fetch.next(FetchEvent::Refused("503".to_string())),
        FetchAction::Rest(300)
    ));
    assert!(matches!(fetch.next(FetchEvent::Rested), FetchAction::Request(_)));
}

#[test]
fn tenth_refusal_is_the_last() {
    let mut fetch = Fetch::new("eval/5", true);
    for _ in 0..9 {
        assert!(matches!(
            fetch.next(FetchEvent::Refused("503 Service Unavailable".to_string())),
            FetchAction::Rest(300)
        ));
        assert!(matches!(fetch.next(FetchEvent::Rested), FetchAction::ReadCache));
    }
    match fetch.next(FetchEvent::Refused("404 Not Found".to_string())) {
        FetchAction::Fail(FetchError::Refused(message)) => assert_eq!(
            message,
            "Failure getting http://10.35.95.5:3000/eval/5: 404 Not Found"
        ),
        _ => panic!("goes on"),
    }
}

#[test]
fn text_that_is_no_json_fails_the_fetch() {
    let mut fetch = Fetch::new("eval/5", true);
    assert!(matches!(
        fetch.next(FetchEvent::CacheHit("<html>".to_string())),
        FetchAction::Fail(FetchError::NotJson(_))
    ));
    let mut fetch = Fetch::new("eval/5", true);
    assert!(matches!(
        fetch.next(FetchEvent::Answered("<html>".to_string())),
        FetchAction::Store(_)
    ));
    assert!(matches!(
        fetch.next(FetchEvent::Stored),
        FetchAction::Fail(FetchError::NotJson(_))
    ));
}

#[test]
fn unsettled_cached_build_is_fetched_anew() {
    let unsettled = "{\"finished\": 0, \"buildstatus\": null}";
    let mut fetch = Fetch::new("build/5", true);
    assert!(matches!(
        fetch.next(FetchEvent::CacheHit(unsettled.to_string())),
        FetchAction::RemoveCached
    ));
    assert!(matches!(fetch.next(FetchEvent::Removed), FetchAction::ReadCache));
    assert!(matches!(fetch.next(FetchEvent::CacheMiss), FetchAction::Request(_)));
    assert!(matches!(
        fetch.next(FetchEvent::Answered(unsettled.to_string())),
        FetchAction::Store(_)
    ));
    assert!(matches!(fetch.next(FetchEvent::Stored), FetchAction::Return(_)));
}

#[test]
fn what_has_to_be_fetched_anew() {
    let settled = parse("{\"finished\": 1, \"buildstatus\": 0}");
    let failed = parse("{\"finished\": 1, \"buildstatus\": 1}");
    let aborted = parse("{\"finished\": 1, \"buildstatus\": 3}");
    let queued = parse("{\"finished\": 0, \"buildstatus\": 0}");
    let unknown = parse("{\"finished\": 1}");
    assert!(!must_refetch("build/1", true, &settled));
    assert!(!must_refetch("build/1", true, &failed));
    assert!(must_refetch("build/1", true, &aborted));
    assert!(must_refetch("build/1", true, &queued));
    assert!(must_refetch("build/1", true, &unknown));
    assert!(must_refetch("build/1", true, &parse("{}")));
    assert!(!must_refetch("build/1", false, &aborted));
    assert!(!must_refetch("eval/1", true, &aborted));
}

#[test]
fn documents_are_judged() {
    let fetch = Fetch::new("build/5", true);
    assert!(matches!(
        fetch.judge_document(true, Json::parse("{\"finished\": 0}")),
        FetchAction::RemoveCached
    ));
    assert!(matches!(
        fetch.judge_document(false, Json::parse("{\"finished\": 0}")),
        FetchAction::Return(_)
    ));
    assert!(matches!(
        fetch.judge_document(true, Json::parse("{\"finished\": 1, \"buildstatus\": 1}")),
        FetchAction::Return(_)
    ));
    assert!(matches!(
        fetch.judge_document(true, Json::parse("")),
        FetchAction::Fail(FetchError::NotJson(_))
    ));
}

#[test]
fn stored_answer_reads_back() {
    let answer = "{\"evals\": [{\"id\": 3}]}";
    let mut first = Fetch::new("jobset/p/j/evals", false);
    let stored = match first.next(FetchEvent::Answered(answer.to_string())) {
        FetchAction::Store(text) => text,
        _ => panic!("not stored"),
    };
    let mut later = Fetch::new("jobset/p/j/evals", true);
    match (first.next(FetchEvent::Stored), later.next(FetchEvent::CacheHit(stored))) {
        (FetchAction::Return(a), FetchAction::Return(b)) => assert_eq!(a.write(), b.write()),
        _ => panic!("not returned"),
    }
}

#[test]
fn stray_events_start_a_new_attempt() {
    let mut fetch = Fetch::new("eval/5", true);
    assert!(matches!(fetch.next(FetchEvent::Stored), FetchAction::ReadCache));
    for _ in 0..20 {
        fetch.next(FetchEvent::Refused("503".to_string()));
    }
    assert!(matches!(
        fetch.next(FetchEvent::Refused("503".to_string())),
        FetchAction::Fail(FetchError::Refused(_))
    ));
}

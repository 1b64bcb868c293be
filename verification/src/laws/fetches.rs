//! What holds of the fetching of documents.

use crate::fetch;
use crate::fetch::{ActionModel, EventModel, FetchModel};
use crate::json;
use crate::json::JsonModel;
use crate::laws::states;
use crate::laws::texts;
use crate::outcomes;
use vstd::prelude::*;
use vstd::string::*;

verus! {

/// A document is settled exactly if it says that the build has finished, and gives a status other
/// than 3.
pub proof fn law_settled_builds(doc: JsonModel)
    ensures
        fetch::is_settled(doc) <==> states::integer_at(doc, "finished"@, 1) && exists|n: i64|
            n != 3 && #[trigger] states::integer_at(doc, "buildstatus"@, n as int),
{
    states::lemma_integer_at(doc, "finished"@, 1);
    if let Some(n) = doc.at("finished"@).as_i64() {
        states::lemma_integer_at(doc, "finished"@, n);
    }
    if let Some(n) = doc.at("buildstatus"@).as_i64() {
        states::lemma_integer_at(doc, "buildstatus"@, n);
        if n != 3 {
            assert(states::integer_at(doc, "buildstatus"@, n as int));
        }
    }
    if exists|n: i64| n != 3 && #[trigger] states::integer_at(doc, "buildstatus"@, n as int) {
        let n = choose|n: i64| n != 3 && #[trigger] states::integer_at(doc, "buildstatus"@, n as int);
        states::lemma_integer_at(doc, "buildstatus"@, n);
    }
}

/// A document is outdated exactly if it comes from the cache, is about a build, and is not settled.
pub proof fn law_outdated_documents(path: Seq<char>, rest: Seq<char>, doc: JsonModel)
    ensures
        !fetch::is_outdated(path, false, doc),
        path == "build/"@ + rest ==> (fetch::is_outdated(path, true, doc) <==> !fetch::is_settled(
            doc,
        )),
        (forall|r: Seq<char>| path != #[trigger] ("build/"@ + r)) ==> !fetch::is_outdated(
            path,
            true,
            doc,
        ),
{
    texts::law_begins_with_means_continued(path, "build/"@);
}

/// A document is asked for at its path below the address of the server.
pub proof fn law_addresses_of_documents(state: FetchModel)
    ensures
        state.url() == "http://10.35.95.5:3000/"@ + state.path,
{
    reveal_strlit("http://10.35.95.5:3000/");
    reveal_strlit("http://10.35.95.5:3000");
    reveal_strlit("/");
    assert(fetch::HYDRA_URL@ == "http://10.35.95.5:3000"@);
    assert(state.url() =~= "http://10.35.95.5:3000/"@ + state.path);
}

/// Every attempt looks into the cache first if that is allowed, and asks the server otherwise; the
/// server is asked as well if the cache does not hold the document.
pub proof fn law_attempts_begin_with_cache(state: FetchModel, event: EventModel)
    requires
        event is Started || event is Rested || event is Removed,
    ensures
        state.use_cache ==> state.action(event) is ReadCache,
        !state.use_cache ==> state.action(event) == ActionModel::Request(
            "http://10.35.95.5:3000/"@ + state.path,
        ),
        state.action(EventModel::CacheMiss) == ActionModel::Request(
            "http://10.35.95.5:3000/"@ + state.path,
        ),
{
    law_addresses_of_documents(state);
}

/// What the cache holds ends the fetch unless it is outdated: with the document, or with the error
/// if the text is no JSON.
pub proof fn law_cached_documents_are_returned(state: FetchModel, content: Seq<char>, doc: JsonModel)
    requires
        json::parsed_json(content) == Ok::<JsonModel, serde_json::Error>(doc),
    ensures
        fetch::is_outdated(state.path, true, doc) ==> state.action(EventModel::CacheHit(content))
            is RemoveCached,
        !fetch::is_outdated(state.path, true, doc) ==> state.action(EventModel::CacheHit(content))
            == ActionModel::Return(doc),
{
}

/// A text that is no JSON ends the fetch with its error, wherever it comes from.
pub proof fn law_other_texts_end_in_error(
    state: FetchModel,
    content: Seq<char>,
    error: serde_json::Error,
)
    requires
        json::parsed_json(content) == Err::<JsonModel, serde_json::Error>(error),
    ensures
        state.action(EventModel::CacheHit(content)) == ActionModel::FailNotJson(error),
        state.after(EventModel::Answered(content)).action(EventModel::Stored)
            == ActionModel::FailNotJson(error),
{
}

/// The first nine refusals are each followed by a rest of 300 milliseconds, the tenth by a failure
/// that tells the address and the last status.
pub proof fn law_refusals_are_counted(state: FetchModel, status: Seq<char>)
    ensures
        state.refusals < 9 ==> state.action(EventModel::Refused(status)) == ActionModel::Rest(300),
        state.refusals >= 9 ==> state.action(EventModel::Refused(status))
            == ActionModel::FailRefused(
            "Failure getting "@ + ("http://10.35.95.5:3000/"@ + state.path) + ": "@ + status,
        ),
        state.refusals < 9 ==> state.after(EventModel::Refused(status)).refusals == state.refusals
            + 1,
        state.after(EventModel::Refused(status)).path == state.path,
        state.after(EventModel::Refused(status)).use_cache == state.use_cache,
        state.after(EventModel::Refused(status)).pending == state.pending,
{
    law_addresses_of_documents(state);
}

/// Nothing but a refusal is counted, and nothing but an answer is kept.
pub proof fn law_other_events_change_nothing(state: FetchModel, event: EventModel)
    ensures
        event !is Refused ==> state.after(event).refusals == state.refusals,
        event !is Answered ==> state.after(event).pending == state.pending,
        event matches EventModel::Answered(content) ==> state.after(event).pending == Some(content)
            && state.action(event) == ActionModel::Store(content),
        state.after(event).path == state.path,
        state.after(event).use_cache == state.use_cache,
{
}

/// Of several outcomes, the first failure counts; without a failure, everything is there, in order.
pub proof fn law_first_failure_counts<T, E>(outcomes: Seq<Result<T, E>>, k: int)
    requires
        0 <= k < outcomes.len(),
        forall|i: int| 0 <= i < k ==> (#[trigger] outcomes[i]) is Ok,
    ensures
        outcomes[k] matches Err(error) ==> outcomes::first_failure(outcomes) == Some(error),
        outcomes::first_failure(outcomes) is None ==> outcomes[k] is Ok,
        k == outcomes.len() - 1 && outcomes[k] is Ok ==> outcomes::first_failure(outcomes) is None,
        outcomes::successes(outcomes).len() == outcomes.len(),
        outcomes[k] matches Ok(value) ==> outcomes::successes(outcomes)[k] == value,
    decreases outcomes.len(),
{
    let fewer = outcomes.drop_last();
    if k < fewer.len() {
        assert forall|i: int| 0 <= i < k implies (#[trigger] fewer[i]) is Ok by {
            assert(outcomes[i] is Ok);
        }
        law_first_failure_counts(fewer, k);
    } else if fewer.len() > 0 {
        assert forall|i: int| 0 <= i < fewer.len() - 1 implies (#[trigger] fewer[i]) is Ok by {
            assert(outcomes[i] is Ok);
        }
        assert(outcomes[fewer.len() - 1] is Ok);
        law_first_failure_counts(fewer, fewer.len() - 1);
    }
}

} // verus!

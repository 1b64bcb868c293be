//! How a document is fetched from the Hydra server: through a cache, and with patience.

use crate::json;
use crate::json::{Json, JsonError, JsonModel};
use crate::text;
use crate::text::starts_with;
use vstd::prelude::*;
use vstd::string::*;

verus! {

/// The address of the Hydra server.
pub const HYDRA_URL: &'static str = "http://10.35.95.5:3000";

/// How often the server may refuse to answer before the fetch fails.
pub const MAX_REFUSALS: u32 = 10;

/// How many milliseconds to wait after a refusal.
pub const PAUSE_MILLIS: u64 = 300;

/// The integer that a field holds, or a default.
pub open spec fn integer_or(json: JsonModel, key: Seq<char>, default: i64) -> i64 {
    match json.at(key).as_i64() {
        Some(n) => n,
        None => default,
    }
}

/// The document says that a build has finished and was not aborted.
pub open spec fn is_settled(json: JsonModel) -> bool {
    integer_or(json, "finished"@, 0) == 1 && integer_or(json, "buildstatus"@, 3) != 3
}

/// The document has to be fetched anew: it comes from the cache and is about a build that had
/// not finished by then, or was aborted.
pub open spec fn is_outdated(path: Seq<char>, was_cached: bool, json: JsonModel) -> bool {
    text::begins_with(path, "build/"@) && was_cached && !is_settled(json)
}

/// Whether a document has to be fetched anew.
pub fn must_refetch(path: &str, was_cached: bool, json: &Json) -> (r: bool)
    ensures
        r == is_outdated(path@, was_cached, json@),
{
    let finished = match json.i64_at("finished") {
        Some(n) => n == 1,
        None => false,
    };
    let aborted = match json.i64_at("buildstatus") {
        Some(n) => n == 3,
        None => true,
    };
    starts_with(path, "build/") && was_cached && (!finished || aborted)
}

/// What has happened in the course of a fetch.
pub enum FetchEvent {
    /// The fetch begins.
    Started,
    /// The cache holds this text for the document.
    CacheHit(String),
    /// The cache does not hold the document.
    CacheMiss,
    /// The server answers with this status instead of the document.
    Refused(String),
    /// The server answers with this text.
    Answered(String),
    /// The text is in the cache now.
    Stored,
    /// The pause is over.
    Rested,
    /// The document is no longer in the cache.
    Removed,
}

/// Why a fetch fails.
pub enum FetchError {
    /// The server has refused too often; the message says what it answered last.
    Refused(String),
    /// The text of the document is no JSON.
    NotJson(JsonError),
}

/// What is to be done next in the course of a fetch.
pub enum FetchAction {
    /// Look for the document in the cache.
    ReadCache,
    /// Ask the server for this address.
    Request(String),
    /// Wait for so many milliseconds.
    Rest(u64),
    /// Enter this text into the cache.
    Store(String),
    /// Remove the document from the cache.
    RemoveCached,
    /// The fetch has succeeded.
    Return(Json),
    /// The fetch has failed.
    Fail(FetchError),
}

/// The state of a fetch.
pub struct Fetch {
    path: String,
    use_cache: bool,
    refusals: u32,
    pending: Option<String>,
}

/// The mathematical content of a [`Fetch`].
pub struct FetchModel {
    pub path: Seq<char>,
    pub use_cache: bool,
    pub refusals: nat,
    pub pending: Option<Seq<char>>,
}

/// The mathematical content of a [`FetchEvent`].
pub enum EventModel {
    Started,
    CacheHit(Seq<char>),
    CacheMiss,
    Refused(Seq<char>),
    Answered(Seq<char>),
    Stored,
    Rested,
    Removed,
}

/// The mathematical content of a [`FetchAction`].
pub enum ActionModel {
    ReadCache,
    Request(Seq<char>),
    Rest(u64),
    Store(Seq<char>),
    RemoveCached,
    Return(JsonModel),
    FailRefused(Seq<char>),
    FailNotJson(serde_json::Error),
}

impl View for Fetch {
    type V = FetchModel;

    closed spec fn view(&self) -> FetchModel {
        FetchModel {
            path: self.path@,
            use_cache: self.use_cache,
            refusals: self.refusals as nat,
            pending: match self.pending {
                Some(text) => Some(text@),
                None => None,
            },
        }
    }
}

impl View for FetchEvent {
    type V = EventModel;

    open spec fn view(&self) -> EventModel {
        match self {
            FetchEvent::Started => EventModel::Started,
            FetchEvent::CacheHit(text) => EventModel::CacheHit(text@),
            FetchEvent::CacheMiss => EventModel::CacheMiss,
            FetchEvent::Refused(status) => EventModel::Refused(status@),
            FetchEvent::Answered(text) => EventModel::Answered(text@),
            FetchEvent::Stored => EventModel::Stored,
            FetchEvent::Rested => EventModel::Rested,
            FetchEvent::Removed => EventModel::Removed,
        }
    }
}

impl View for FetchAction {
    type V = ActionModel;

    open spec fn view(&self) -> ActionModel {
        match self {
            FetchAction::ReadCache => ActionModel::ReadCache,
            FetchAction::Request(url) => ActionModel::Request(url@),
            FetchAction::Rest(millis) => ActionModel::Rest(*millis),
            FetchAction::Store(text) => ActionModel::Store(text@),
            FetchAction::RemoveCached => ActionModel::RemoveCached,
            FetchAction::Return(json) => ActionModel::Return(json@),
            FetchAction::Fail(FetchError::Refused(message)) => ActionModel::FailRefused(message@),
            FetchAction::Fail(FetchError::NotJson(error)) => ActionModel::FailNotJson(error.source),
        }
    }
}

impl FetchModel {
    /// The address of the document on the server.
    pub open spec fn url(self) -> Seq<char> {
        HYDRA_URL@ + "/"@ + self.path
    }

    /// A new attempt to get the document.
    pub open spec fn attempt(self) -> ActionModel {
        if self.use_cache {
            ActionModel::ReadCache
        } else {
            ActionModel::Request(self.url())
        }
    }

    /// What to do with the text of the document, given the document that it holds.
    pub open spec fn judge(
        self,
        was_cached: bool,
        document: Result<JsonModel, serde_json::Error>,
    ) -> ActionModel {
        match document {
            Err(error) => ActionModel::FailNotJson(error),
            Ok(json) => if is_outdated(self.path, was_cached, json) {
                ActionModel::RemoveCached
            } else {
                ActionModel::Return(json)
            },
        }
    }

    /// What is said of a last refusal.
    pub open spec fn refusal_notice(self, status: Seq<char>) -> Seq<char> {
        "Failure getting "@ + self.url() + ": "@ + status
    }

    /// What is to be done after an event.
    pub open spec fn action(self, event: EventModel) -> ActionModel {
        match event {
            EventModel::Started | EventModel::Rested | EventModel::Removed => self.attempt(),
            EventModel::CacheHit(text) => self.judge(true, json::parsed_json(text)),
            EventModel::CacheMiss => ActionModel::Request(self.url()),
            EventModel::Refused(status) => if self.refusals + 1 < MAX_REFUSALS {
                ActionModel::Rest(PAUSE_MILLIS)
            } else {
                ActionModel::FailRefused(self.refusal_notice(status))
            },
            EventModel::Answered(text) => ActionModel::Store(text),
            EventModel::Stored => match self.pending {
                Some(text) => self.judge(false, json::parsed_json(text)),
                None => self.attempt(),
            },
        }
    }

    /// The state after an event.
    pub open spec fn after(self, event: EventModel) -> FetchModel {
        match event {
            EventModel::Refused(_) => if self.refusals < MAX_REFUSALS {
                FetchModel { refusals: self.refusals + 1, ..self }
            } else {
                self
            },
            EventModel::Answered(text) => FetchModel { pending: Some(text), ..self },
            _ => self,
        }
    }
}

impl Fetch {
    /// A fetch that has not begun.
    pub fn new(path: &str, use_cache: bool) -> (fetch: Fetch)
        ensures
            fetch@ == (FetchModel { path: path@, use_cache, refusals: 0, pending: None }),
    {
        Fetch { path: path.to_owned(), use_cache, refusals: 0, pending: None }
    }

    /// The address of the document on the server.
    fn url(&self) -> (url: String)
        ensures
            url@ == self@.url(),
    {
        let mut url = HYDRA_URL.to_owned();
        url.append("/");
        url.append(&self.path);
        url
    }

    /// A new attempt to get the document.
    fn try_again(&self) -> (action: FetchAction)
        ensures
            action@ == self@.attempt(),
    {
        if self.use_cache {
            FetchAction::ReadCache
        } else {
            FetchAction::Request(self.url())
        }
    }

    /// What to do with the document, or with text that holds none.
    pub fn judge_document(&self, was_cached: bool, document: Result<Json, JsonError>) -> (action:
        FetchAction)
        ensures
            action@ == self@.judge(
                was_cached,
                match document {
                    Ok(json) => Ok(json@),
                    Err(error) => Err(error.source),
                },
            ),
    {
        match document {
            Ok(json) => if must_refetch(&self.path, was_cached, &json) {
                FetchAction::RemoveCached
            } else {
                FetchAction::Return(json)
            },
            Err(error) => FetchAction::Fail(FetchError::NotJson(error)),
        }
    }

    /// What to do with the text of the document.
    fn judge_text(&self, was_cached: bool, text: &str) -> (action: FetchAction)
        ensures
            action@ == self@.judge(was_cached, json::parsed_json(text@)),
    {
        self.judge_document(was_cached, Json::parse(text))
    }

    /// Takes note of an event and says what is to be done.
    pub fn next(&mut self, event: FetchEvent) -> (action: FetchAction)
        ensures
            final(self)@ == old(self)@.after(event@),
            action@ == old(self)@.action(event@),
    {
        match event {
            FetchEvent::Started | FetchEvent::Rested | FetchEvent::Removed => self.try_again(),
            FetchEvent::CacheHit(text) => self.judge_text(true, &text),
            FetchEvent::CacheMiss => FetchAction::Request(self.url()),
            FetchEvent::Refused(status) => {
                let mut message = "Failure getting ".to_owned();
                message.append(&self.url());
                message.append(": ");
                message.append(&status);
                if self.refusals < MAX_REFUSALS {
                    self.refusals = self.refusals + 1;
                }
                if self.refusals < MAX_REFUSALS {
                    FetchAction::Rest(PAUSE_MILLIS)
                } else {
                    FetchAction::Fail(FetchError::Refused(message))
                }
            },
            FetchEvent::Answered(text) => {
                let copy = text.clone();
                self.pending = Some(copy);
                FetchAction::Store(text)
            },
            FetchEvent::Stored => match &self.pending {
                Some(text) => self.judge_text(false, text),
                None => self.try_again(),
            },
        }
    }
}

/// The state of a fetch after a series of events.
pub open spec fn state_after(start: FetchModel, events: Seq<EventModel>) -> FetchModel
    decreases events.len(),
{
    if events.len() == 0 {
        start
    } else {
        state_after(start, events.drop_last()).after(events.last())
    }
}

/// How often the server has refused to answer.
pub open spec fn refusals_in(events: Seq<EventModel>) -> nat
    decreases events.len(),
{
    if events.len() == 0 {
        0
    } else {
        refusals_in(events.drop_last()) + (if events.last() is Refused {
            1nat
        } else {
            0nat
        })
    }
}

/// A fetch that has not begun.
pub open spec fn fresh(path: Seq<char>, use_cache: bool) -> FetchModel {
    FetchModel { path, use_cache, refusals: 0, pending: None }
}

/// A fetch remembers its document, whether it may use the cache, and how often it was refused,
/// up to the number that it puts up with.
proof fn lemma_state_after(path: Seq<char>, use_cache: bool, events: Seq<EventModel>)
    ensures
        state_after(fresh(path, use_cache), events).path == path,
        state_after(fresh(path, use_cache), events).use_cache == use_cache,
        state_after(fresh(path, use_cache), events).refusals == (if refusals_in(events)
            < MAX_REFUSALS {
            refusals_in(events)
        } else {
            MAX_REFUSALS as nat
        }),
    decreases events.len(),
{
    if events.len() > 0 {
        lemma_state_after(path, use_cache, events.drop_last());
    }
}

/// The server may refuse nine times, each time followed by a pause and another attempt. The
/// tenth refusal is the last.
pub proof fn law_tenth_refusal_is_last(
    path: Seq<char>,
    use_cache: bool,
    events: Seq<EventModel>,
    status: Seq<char>,
)
    ensures
        ({
            let state = state_after(fresh(path, use_cache), events);
            let action = state.action(EventModel::Refused(status));
            &&& refusals_in(events) < 9 ==> action == ActionModel::Rest(PAUSE_MILLIS)
            &&& refusals_in(events) >= 9 ==> action == ActionModel::FailRefused(
                "Failure getting "@ + (HYDRA_URL@ + "/"@ + path) + ": "@ + status,
            )
        }),
{
    lemma_state_after(path, use_cache, events);
}

/// A fetch that may not use the cache never reads it.
pub proof fn law_cache_not_read_unless_allowed(
    path: Seq<char>,
    events: Seq<EventModel>,
    event: EventModel,
)
    ensures
        state_after(fresh(path, false), events).action(event) !is ReadCache,
{
    lemma_state_after(path, false, events);
}

/// Only what was read from the cache is ever removed from it, and only if it is about a build
/// that was not settled.
pub proof fn law_only_unsettled_builds_removed(state: FetchModel, event: EventModel)
    ensures
        state.action(event) is RemoveCached <==> {
            &&& event matches EventModel::CacheHit(text)
            &&& json::parsed_json(text) matches Ok(json)
            &&& text::begins_with(state.path, "build/"@)
            &&& !is_settled(json)
        },
{
}

/// A build that the cache holds although it was not settled is removed and asked for again, and
/// the second document is returned even if the build is not settled yet.
pub proof fn law_unsettled_build_refetched_once(
    state: FetchModel,
    cached: Seq<char>,
    answer: Seq<char>,
)
    requires
        state.use_cache,
        text::begins_with(state.path, "build/"@),
        json::parsed_json(cached) is Ok,
        !is_settled(json::parsed_json(cached)->Ok_0),
    ensures
        ({
            let removed = state.after(EventModel::CacheHit(cached));
            let missing = removed.after(EventModel::Removed);
            let asked = missing.after(EventModel::CacheMiss);
            let answered = asked.after(EventModel::Answered(answer));
            &&& state.action(EventModel::CacheHit(cached)) is RemoveCached
            &&& removed.action(EventModel::Removed) is ReadCache
            &&& missing.action(EventModel::CacheMiss) == ActionModel::Request(state.url())
            &&& asked.action(EventModel::Answered(answer)) == ActionModel::Store(answer)
            &&& answered.action(EventModel::Stored) == (match json::parsed_json(answer) {
                Ok(json) => ActionModel::Return(json),
                Err(error) => ActionModel::FailNotJson(error),
            })
        }),
{
}

/// What the server answers is stored as it is and then returned, whatever it says.
pub proof fn law_answer_is_stored_and_returned(state: FetchModel, text: Seq<char>)
    ensures
        state.action(EventModel::Answered(text)) == ActionModel::Store(text),
        state.after(EventModel::Answered(text)).action(EventModel::Stored) == (
        match json::parsed_json(text) {
            Ok(json) => ActionModel::Return(json),
            Err(error) => ActionModel::FailNotJson(error),
        }),
{
}

/// A later fetch that finds the stored text in the cache ends as the fetch that stored it,
/// unless the document is about a build that was not settled.
pub proof fn law_stored_answer_reads_back(
    first: FetchModel,
    later: FetchModel,
    text: Seq<char>,
)
    requires
        !(text::begins_with(later.path, "build/"@) && json::parsed_json(text) is Ok && !is_settled(
            json::parsed_json(text)->Ok_0,
        )),
    ensures
        later.action(EventModel::CacheHit(text)) == first.after(EventModel::Answered(text)).action(
            EventModel::Stored,
        ),
{
}

} // verus!

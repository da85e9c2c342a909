//! Taking requests in, and answering for the responses that are kept.

use crate::codec::{parse, parsed_json};
use crate::config::Settings;
use crate::conversation::push_value;
use crate::error::{outcome, Failure, ProxyError};
use crate::hosted::{Hosted, HostedToolContext};
use crate::json::{array_of, copy_values, object, object_of, Json, JsonValue, Object};
use crate::metrics::{after_completion, after_request, metrics_value, RequestMetrics};
use crate::normalize::{member_text, refused};
use crate::number::{num_of_i64, Num};
use crate::probe::Capabilities;
use crate::protocol::{analyze_protocol, field_class, lists_class, FieldClass, ProtocolReport};
use crate::response::{
    build_cancelled_response, build_in_progress_response, cancelled_response, completed_response,
    in_progress_response, lemma_response_members, output_items, Answer,
};
use crate::restore::{
    assistant_turn_from_output, context_from_response, is_inert, law_output_gives_back_the_turn,
    output_of, restored_context, turn_in,
};
use crate::session::{AnswerEnd, End};
use crate::store::{
    after_put, law_fresh_responses_are_alive, law_what_is_put_is_found, InflightRegistry,
    ResponseStore, Stored, StoredResponse,
};
use crate::text::{
    concat, concat3, decimal, has_part, joined, law_parts_have_surroundings, lemma_decimal_value,
    same_text, texts,
};
use crate::translate::{
    field_note, fresh_response_ids, translate_request_with, translation, Context, Ids,
    RequestContext, ResponseIds, TranslatedRequest, Translation,
};
use crate::turn::{build_history_message, history_message, Turn};
use crate::usage::{upstream_usage, usage_value};
use vstd::prelude::*;
use vstd::string::*;

verus! {

/// Whether a report lists the fields of a request.
pub open spec fn reports_on(report: ProtocolReport, fields: Set<Seq<char>>) -> bool {
    &&& lists_class(texts(report.supported_fields@), fields, FieldClass::Supported)
    &&& lists_class(texts(report.emulated_fields@), fields, FieldClass::Emulated)
    &&& lists_class(texts(report.unsupported_fields@), fields, FieldClass::Unsupported)
}

/// The conversation that a request goes on with: the messages of the response that it
/// names, and what was answered to them.
pub open spec fn previous_messages(
    kept: Map<Seq<char>, Stored>,
    payload: Map<Seq<char>, Json>,
) -> Result<Seq<Json>, Failure> {
    match member_text(payload.get("previous_response_id"@)) {
        None => Ok(Seq::empty()),
        Some(id) => match kept.get(id) {
            None => refused("previous_response_id `"@ + id + "` not found"@),
            Some(s) => match s.response.get("output"@) {
                Some(Json::Array(items)) => match turn_in(items) {
                    Err(e) => Err(e),
                    Ok(turn) => match history_message(turn) {
                        Some(m) => Ok(s.request_messages.push(m)),
                        None => Ok(s.request_messages),
                    },
                },
                _ => Ok(s.request_messages),
            },
        },
    }
}

/// The outcome of a list of values.
pub open spec fn list_outcome(r: Result<Vec<JsonValue>, ProxyError>) -> Result<
    Seq<Json>,
    Failure,
> {
    match r {
        Ok(v) => Ok(array_of(v@)),
        Err(e) => Err(e@),
    }
}

/// The conversation that a request goes on with.
pub fn load_previous_messages(store: &ResponseStore, payload: &Object) -> (r: Result<
    Vec<JsonValue>,
    ProxyError,
>)
    ensures
        list_outcome(r) == previous_messages(store@, object_of(*payload)),
{
    let id = match payload.member("previous_response_id") {
        Some(JsonValue::Text(id)) => id,
        _ => {
            let none: Vec<JsonValue> = Vec::new();
            assert(array_of(none@) =~= Seq::empty());
            return Ok(none);
        },
    };
    let stored = match store.get(id.as_str()) {
        Some(stored) => stored,
        None => return Err(
            ProxyError::BadRequest(
                concat3("previous_response_id `", id.as_str(), "` not found"),
            ),
        ),
    };
    let mut messages = copy_values(&stored.request_messages);
    if let Some(JsonValue::Array(items)) = stored.response.get("output") {
        let turn = match assistant_turn_from_output(items) {
            Ok(turn) => turn,
            Err(e) => return Err(e),
        };
        if let Some(message) = build_history_message(&turn) {
            push_value(&mut messages, message);
        }
    }
    Ok(messages)
}

/// What comes of a request's parsed body.
pub open spec fn requested(
    kept: Map<Seq<char>, Stored>,
    settings: Settings,
    caps: Capabilities,
    parsed: Result<Json, Seq<char>>,
    report: ProtocolReport,
    ids: Ids,
) -> Result<Translation, Failure> {
    match parsed {
        Err(e) => refused("invalid JSON body: "@ + e),
        Ok(Json::Object(m)) => if settings.strict_protocol && report.unsupported_fields@.len()
            > 0 {
            refused(
                "Unsupported Responses API fields in strict mode: "@ + joined(
                    texts(report.unsupported_fields@),
                    ", "@,
                ),
            )
        } else {
            match previous_messages(kept, m) {
                Err(e) => Err(e),
                Ok(previous) => translation(
                    m,
                    settings,
                    field_note(report),
                    previous,
                    caps,
                    ids,
                ),
            }
        },
        Ok(_) => refused("request body must be a JSON object"@),
    }
}

/// Whether a report is the one on a request's parsed body, if that is an object.
pub open spec fn reports_on_body(report: ProtocolReport, parsed: Result<Json, Seq<char>>) -> bool {
    parsed matches Ok(Json::Object(m)) ==> reports_on(report, m.dom())
}

/// What the outcome of parsing stands for.
pub open spec fn parsed_outcome(parsed: Result<JsonValue, String>) -> Result<Json, Seq<char>> {
    match parsed {
        Ok(v) => Ok(v@),
        Err(e) => Err(e@),
    }
}

/// Translates a request whose body was parsed, for the given identifiers.
pub fn prepare_parsed_request(
    store: &ResponseStore,
    settings: &Settings,
    capabilities: &Capabilities,
    parsed: Result<JsonValue, String>,
    ids: ResponseIds,
) -> (r: Result<TranslatedRequest, ProxyError>)
    ensures
        exists|report: ProtocolReport|
            reports_on_body(report, parsed_outcome(parsed)) && outcome(r) == #[trigger] requested(
                store@,
                *settings,
                *capabilities,
                parsed_outcome(parsed),
                report,
                ids@,
            ),
{
    let ghost given = parsed_outcome(parsed);
    let ghost some_report = arbitrary::<ProtocolReport>();
    let value = match parsed {
        Ok(v) => v,
        Err(e) => {
            let r: Result<TranslatedRequest, ProxyError> = Err(
                ProxyError::BadRequest(concat("invalid JSON body: ", e.as_str())),
            );
            assert(outcome(r) == requested(
                store@,
                *settings,
                *capabilities,
                given,
                some_report,
                ids@,
            ));
            return r;
        },
    };
    let payload = match &value {
        JsonValue::Object(o) => o,
        _ => {
            let r: Result<TranslatedRequest, ProxyError> = Err(
                ProxyError::bad_request("request body must be a JSON object"),
            );
            assert(outcome(r) == requested(
                store@,
                *settings,
                *capabilities,
                given,
                some_report,
                ids@,
            ));
            return r;
        },
    };
    let report = analyze_protocol(payload);
    assert(reports_on(report, object_of(*payload).dom()));
    if settings.strict_protocol {
        if let Some(message) = report.strict_error() {
            let r: Result<TranslatedRequest, ProxyError> = Err(ProxyError::BadRequest(message));
            assert(outcome(r) == requested(
                store@,
                *settings,
                *capabilities,
                given,
                report,
                ids@,
            ));
            return r;
        }
    }
    let previous = match load_previous_messages(store, payload) {
        Ok(previous) => previous,
        Err(e) => {
            let r: Result<TranslatedRequest, ProxyError> = Err(e);
            assert(outcome(r) == requested(
                store@,
                *settings,
                *capabilities,
                given,
                report,
                ids@,
            ));
            return r;
        },
    };
    let ghost wanted = ids@;
    let r = translate_request_with(payload, settings, &report, &previous, capabilities, ids);
    assert(outcome(r) == requested(
        store@,
        *settings,
        *capabilities,
        given,
        report,
        wanted,
    ));
    r
}

/// Translates a request. The response gets fresh identifiers.
pub fn prepare_request(
    store: &ResponseStore,
    settings: &Settings,
    capabilities: &Capabilities,
    body: &str,
) -> (r: Result<TranslatedRequest, ProxyError>)
    ensures
        exists|report: ProtocolReport, ids: Ids|
            ids.fresh() && reports_on_body(report, parsed_json(body@)) && outcome(r)
                == #[trigger] requested(
                store@,
                *settings,
                *capabilities,
                parsed_json(body@),
                report,
                ids,
            ),
{
    let ids = fresh_response_ids();
    let ghost given = ids@;
    assert(given.fresh());
    prepare_parsed_request(store, settings, capabilities, parse(body), ids)
}

/// A chat request with more messages, if it has a conversation to add them to.
pub open spec fn payload_with_messages(payload: Json, more: Seq<Json>) -> Json {
    match payload {
        Json::Object(m) => match m.get("messages"@) {
            Some(Json::Array(list)) => Json::Object(
                m.insert("messages"@, Json::Array(list + more)),
            ),
            _ => payload,
        },
        _ => payload,
    }
}

/// A request with what the hosted tools found.
pub open spec fn with_hosted(t: Translation, hosted: Hosted) -> Translation {
    Translation {
        upstream_payload: payload_with_messages(t.upstream_payload, hosted.messages),
        context: Context {
            hosted_output_items: t.context.hosted_output_items + hosted.output_items,
            ..t.context
        },
        request_messages: t.request_messages + hosted.messages,
        ..t
    }
}

fn append_values(list: &mut Vec<JsonValue>, more: &Vec<JsonValue>)
    ensures
        array_of(final(list)@) == array_of(old(list)@) + array_of(more@),
{
    let ghost before = array_of(list@);
    let mut copies = copy_values(more);
    list.append(&mut copies);
    assert(array_of(list@) =~= before + array_of(more@));
}

/// Adds what the hosted tools found: their messages go upstream with the conversation,
/// and their output items come first in the response.
pub fn with_hosted_results(translated: TranslatedRequest, hosted: &HostedToolContext) -> (t:
    TranslatedRequest)
    ensures
        t@ == with_hosted(translated@, hosted@),
{
    let mut t = translated;
    append_values(&mut t.context.hosted_output_items, &hosted.output_items);
    append_values(&mut t.request_messages, &hosted.messages);
    let mut payload = t.upstream_payload.clone();
    match &mut payload {
        JsonValue::Object(o) => {
            let extended = match o.member("messages") {
                Some(JsonValue::Array(list)) => {
                    let mut messages = copy_values(list);
                    append_values(&mut messages, &hosted.messages);
                    Some(messages)
                },
                _ => None,
            };
            if let Some(messages) = extended {
                o.set("messages", JsonValue::Array(messages));
            }
        },
        _ => {},
    }
    t.upstream_payload = payload;
    t
}

/// The responses that are kept after a request has been answered.
pub open spec fn after_final(
    kept: Map<Seq<char>, Stored>,
    t: Translation,
    response: Json,
    now: u128,
    ttl: u64,
) -> Map<Seq<char>, Stored> {
    if t.context.store {
        after_put(
            kept,
            t.context.response_id,
            Stored {
                response,
                input_items: t.input_items,
                request_messages: t.request_messages,
                inserted_at: now,
            },
            now,
            ttl,
        )
    } else {
        kept
    }
}

/// Keeps a response, if its request asked for that.
pub fn store_final_response(
    store: &mut ResponseStore,
    translated: &TranslatedRequest,
    response: JsonValue,
    now: u128,
)
    ensures
        final(store)@ == after_final(
            old(store)@,
            translated@,
            response@,
            now,
            old(store).ttl(),
        ),
        final(store).ttl() == old(store).ttl(),
{
    if !translated.context.store {
        return;
    }
    store.put(
        translated.context.response_id.clone(),
        StoredResponse {
            response,
            input_items: copy_values(&translated.input_items),
            request_messages: copy_values(&translated.request_messages),
            inserted_at: now,
        },
        now,
    );
}

/// The counters after an answer has come to its end.
pub open spec fn after_end(m: RequestMetrics, end: End, response: Json) -> RequestMetrics {
    match end {
        End::Completed => after_completion(
            m,
            match response.get("usage"@) {
                Some(usage) => usage,
                None => Json::Object(map![]),
            },
        ),
        End::Failed(_) => RequestMetrics { failed: m.failed.wrapping_add(1), ..m },
        End::Cancelled => RequestMetrics { cancelled: m.cancelled.wrapping_add(1), ..m },
    }
}

/// A response that is not kept.
pub open spec fn not_found(id: Seq<char>) -> Failure {
    Failure::BadRequest("response `"@ + id + "` not found"@)
}

fn missing(response_id: &str) -> (e: ProxyError)
    ensures
        e@ == not_found(response_id@),
{
    ProxyError::BadRequest(concat3("response `", response_id, "` not found"))
}

/// Whether a kept response is still under way.
pub open spec fn is_under_way(response: Json) -> bool {
    response.text_at("status"@) == Some("in_progress"@)
}

/// The response that is kept under an identifier.
pub open spec fn response_under(kept: Map<Seq<char>, Stored>, id: Seq<char>) -> Result<
    Json,
    Failure,
> {
    match kept.get(id) {
        Some(s) => Ok(s.response),
        None => Err(not_found(id)),
    }
}

/// The list of the input items of the response that is kept under an identifier.
pub open spec fn items_under(kept: Map<Seq<char>, Stored>, id: Seq<char>) -> Result<Json, Failure> {
    match kept.get(id) {
        Some(s) => Ok(
            Json::Object(
                map![
                    "object"@ => Json::Text("list"@),
                    "data"@ => Json::Array(s.input_items),
                    "has_more"@ => Json::Bool(false),
                    "first_id"@ => Json::Null,
                    "last_id"@ => Json::Null,
                ],
            ),
        ),
        None => Err(not_found(id)),
    }
}

/// What is answered when the response under an identifier is deleted.
pub open spec fn deletion_under(kept: Map<Seq<char>, Stored>, id: Seq<char>) -> Result<
    Json,
    Failure,
> {
    if kept.contains_key(id) {
        Ok(
            Json::Object(
                map![
                    "id"@ => Json::Text(id),
                    "object"@ => Json::Text("response.deleted"@),
                    "deleted"@ => Json::Bool(true),
                ],
            ),
        )
    } else {
        Err(not_found(id))
    }
}

/// What is answered when the response under an identifier is cancelled, the responses that
/// are kept then, and the requests that are under way then. Only a response that is still
/// under way is cancelled.
pub open spec fn after_cancelling(
    kept: Map<Seq<char>, Stored>,
    inflight: Map<Seq<char>, bool>,
    id: Seq<char>,
    now_seconds: i64,
    now: u128,
    ttl: u64,
) -> (Result<Json, Failure>, Map<Seq<char>, Stored>, Map<Seq<char>, bool>) {
    match kept.get(id) {
        None => (Err(not_found(id)), kept, inflight),
        Some(s) => if !is_under_way(s.response) {
            (Ok(s.response), kept, inflight)
        } else {
            let told = if inflight.contains_key(id) {
                inflight.insert(id, true)
            } else {
                inflight
            };
            match cancelled_record(s.response, now_seconds) {
                Err(e) => (Err(e), kept, told),
                Ok((context, cancelled)) => (
                    Ok(cancelled),
                    after_final(
                        kept,
                        Translation {
                            upstream_payload: Json::Object(map![]),
                            context,
                            input_items: s.input_items,
                            request_messages: s.request_messages,
                        },
                        cancelled,
                        now,
                        ttl,
                    ),
                    told,
                ),
            }
        },
    }
}

/// The request that a kept response answers, and the response once it is cancelled.
pub open spec fn cancelled_record(response: Json, now: i64) -> Result<(Context, Json), Failure> {
    match restored_context(response) {
        Err(e) => Err(e),
        Ok(context) => match turn_in(output_of(response)) {
            Err(e) => Err(e),
            Ok(turn) => Ok(
                (
                    context,
                    cancelled_response(
                        context,
                        turn,
                        match response.get("usage"@) {
                            Some(usage) => usage,
                            None => Json::Object(map![]),
                        },
                        now,
                    ),
                ),
            ),
        },
    }
}

fn build_cancelled_record(response: &JsonValue, now: i64) -> (r: Result<
    (RequestContext, JsonValue),
    ProxyError,
>)
    ensures
        match r {
            Ok((context, cancelled)) => cancelled_record(response@, now) == Ok::<
                (Context, Json),
                Failure,
            >((context@, cancelled@)),
            Err(e) => cancelled_record(response@, now) == Err::<(Context, Json), Failure>(e@),
        },
{
    let context = match context_from_response(response) {
        Ok(context) => context,
        Err(e) => return Err(e),
    };
    let output = match response.get("output") {
        Some(JsonValue::Array(items)) => copy_values(items),
        _ => {
            let none: Vec<JsonValue> = Vec::new();
            assert(array_of(none@) =~= Seq::empty());
            none
        },
    };
    let turn = match assistant_turn_from_output(&output) {
        Ok(turn) => turn,
        Err(e) => return Err(e),
    };
    let usage = match response.get("usage") {
        Some(usage) => usage.clone(),
        None => JsonValue::Object(object()),
    };
    let cancelled = build_cancelled_response(&context, &turn, usage, now);
    Ok((context, cancelled))
}

/// The health of the proxy.
pub fn healthz() -> (v: JsonValue)
    ensures
        v@ == Json::Object(map!["ok"@ => Json::Bool(true)]),
{
    JsonValue::Object(object().with("ok", JsonValue::Bool(true)))
}

/// What the proxy remembers between requests.
#[derive(Debug)]
pub struct Proxy {
    pub store: ResponseStore,
    pub inflight: InflightRegistry,
    pub metrics: RequestMetrics,
}

impl Proxy {
    pub fn new(ttl_seconds: u64) -> (proxy: Proxy)
        ensures
            proxy.store@ == Map::<Seq<char>, Stored>::empty(),
            proxy.store.ttl() == ttl_seconds,
            proxy.inflight@ == Map::<Seq<char>, bool>::empty(),
            proxy.metrics == crate::metrics::no_requests(),
    {
        Proxy {
            store: ResponseStore::with_ttl(ttl_seconds),
            inflight: InflightRegistry::default(),
            metrics: RequestMetrics::default(),
        }
    }

    /// Takes a request in: it is counted, its response is kept as under way if it is to
    /// be kept at all, and a streamed one can be cancelled from now on.
    pub fn enroll(&mut self, translated: &TranslatedRequest, now: u128)
        ensures
            final(self).store@ == after_final(
                old(self).store@,
                translated@,
                in_progress_response(translated@.context),
                now,
                old(self).store.ttl(),
            ),
            final(self).store.ttl() == old(self).store.ttl(),
            final(self).inflight@ == (if translated@.context.stream {
                old(self).inflight@.insert(translated@.context.response_id, false)
            } else {
                old(self).inflight@
            }),
            final(self).metrics == after_request(old(self).metrics, translated@.context.stream),
    {
        self.metrics.record_request(translated.context.stream);
        let response = build_in_progress_response(&translated.context);
        store_final_response(&mut self.store, translated, response, now);
        if translated.context.stream {
            self.inflight.start(translated.context.response_id.clone());
        }
    }

    /// Ends a request: its end is counted, its response kept if that was asked for, and
    /// it cannot be cancelled any more.
    pub fn settle(
        &mut self,
        translated: &TranslatedRequest,
        response: &JsonValue,
        end: &AnswerEnd,
        now: u128,
    )
        ensures
            final(self).store@ == after_final(
                old(self).store@,
                translated@,
                response@,
                now,
                old(self).store.ttl(),
            ),
            final(self).store.ttl() == old(self).store.ttl(),
            final(self).inflight@ == old(self).inflight@.remove(translated@.context.response_id),
            final(self).metrics == after_end(old(self).metrics, end@, response@),
    {
        match end {
            AnswerEnd::Completed => match response.get("usage") {
                Some(usage) => self.metrics.record_completion(usage),
                None => self.metrics.record_completion(&JsonValue::Object(object())),
            },
            AnswerEnd::Failed(_) => self.metrics.record_failure(),
            AnswerEnd::Cancelled => self.metrics.record_cancellation(),
        }
        store_final_response(&mut self.store, translated, response.clone(), now);
        self.inflight.finish(translated.context.response_id.as_str());
    }

    /// A kept response.
    pub fn get_response(&self, response_id: &str) -> (r: Result<JsonValue, ProxyError>)
        ensures
            outcome(r) == response_under(self.store@, response_id@),
    {
        match self.store.get(response_id) {
            Some(stored) => Ok(stored.response),
            None => Err(missing(response_id)),
        }
    }

    /// The input items of a kept response.
    pub fn list_input_items(&self, response_id: &str) -> (r: Result<JsonValue, ProxyError>)
        ensures
            outcome(r) == items_under(self.store@, response_id@),
    {
        match self.store.get(response_id) {
            Some(stored) => Ok(
                JsonValue::Object(
                    object().with("object", JsonValue::text("list")).with(
                        "data",
                        JsonValue::Array(stored.input_items),
                    ).with("has_more", JsonValue::Bool(false)).with(
                        "first_id",
                        JsonValue::Null,
                    ).with("last_id", JsonValue::Null),
                ),
            ),
            None => Err(missing(response_id)),
        }
    }

    /// Drops a kept response.
    pub fn delete_response(&mut self, response_id: &str) -> (r: Result<JsonValue, ProxyError>)
        ensures
            outcome(r) == deletion_under(old(self).store@, response_id@),
            final(self).store@ == old(self).store@.remove(response_id@),
            final(self).store.ttl() == old(self).store.ttl(),
            final(self).inflight == old(self).inflight,
            final(self).metrics == old(self).metrics,
    {
        match self.store.delete(response_id) {
            Some(_) => Ok(
                JsonValue::Object(
                    object().with("id", JsonValue::text(response_id)).with(
                        "object",
                        JsonValue::text("response.deleted"),
                    ).with("deleted", JsonValue::Bool(true)),
                ),
            ),
            None => Err(missing(response_id)),
        }
    }

    /// Cancels a response. One that is not under way stays as it is, and is given. One
    /// that is under way is told to stop, and its cancelled form is kept and given.
    pub fn cancel_response(&mut self, response_id: &str, now_seconds: i64, now: u128) -> (r: Result<
        JsonValue,
        ProxyError,
    >)
        ensures
            final(self).metrics == old(self).metrics,
            final(self).store.ttl() == old(self).store.ttl(),
            (outcome(r), final(self).store@, final(self).inflight@) == after_cancelling(
                old(self).store@,
                old(self).inflight@,
                response_id@,
                now_seconds,
                now,
                old(self).store.ttl(),
            ),
    {
        let stored = match self.store.get(response_id) {
            Some(stored) => stored,
            None => return Err(missing(response_id)),
        };
        let under_way = match stored.response.text_at("status") {
            Some(status) => same_text(status, "in_progress"),
            None => false,
        };
        if !under_way {
            return Ok(stored.response);
        }
        let _told = self.inflight.cancel(response_id);
        let (context, cancelled) = match build_cancelled_record(&stored.response, now_seconds) {
            Ok(record) => record,
            Err(e) => return Err(e),
        };
        let translated = TranslatedRequest {
            upstream_payload: JsonValue::Object(object()),
            context,
            input_items: stored.input_items,
            request_messages: stored.request_messages,
        };
        store_final_response(&mut self.store, &translated, cancelled.clone(), now);
        Ok(cancelled)
    }

    /// The statistics of the proxy.
    pub fn stats(&self, uptime_seconds: u64) -> (v: JsonValue)
        ensures
            v@ == metrics_value(
                self.metrics,
                uptime_seconds,
                self.inflight@.dom().len() as usize,
                self.store@.dom().len() as usize,
            ),
    {
        self.metrics.snapshot(uptime_seconds, self.inflight.count(), self.store.len())
    }
}

/// A request that goes on from a completed response continues its conversation: the
/// messages that were sent, and the turn that was answered.
pub proof fn law_conversation_goes_on(
    kept: Map<Seq<char>, Stored>,
    t: Translation,
    turn: Turn,
    usage: Json,
    completed_at: i64,
    now: u128,
    ttl: u64,
    payload: Map<Seq<char>, Json>,
)
    requires
        t.context.store,
        ttl > 0,
        member_text(payload.get("previous_response_id"@)) == Some(t.context.response_id),
        forall|i: int|
            0 <= i < t.context.hosted_output_items.len() ==> is_inert(
                #[trigger] t.context.hosted_output_items[i],
            ),
    ensures
        ({
            let response = completed_response(t.context, turn, usage, completed_at);
            let spoken = Turn {
                reasoning: if t.context.skip_reasoning_output {
                    Seq::empty()
                } else {
                    turn.reasoning
                },
                ..turn
            };
            previous_messages(after_final(kept, t, response, now, ttl), payload) == Ok::<
                Seq<Json>,
                Failure,
            >(
                match history_message(spoken) {
                    Some(m) => t.request_messages.push(m),
                    None => t.request_messages,
                },
            )
        }),
{
    let answer = Answer {
        completed_at: Json::Num(num_of_i64(completed_at)),
        status: "completed"@,
        error: Json::Null,
        incomplete_details: Json::Null,
        output: output_items(t.context, turn, "completed"@),
        output_text: turn.text,
        usage,
    };
    lemma_response_members(t.context, answer);
    law_output_gives_back_the_turn(t.context, turn, "completed"@);
    let response = completed_response(t.context, turn, usage, completed_at);
    let s = Stored {
        response,
        input_items: t.input_items,
        request_messages: t.request_messages,
        inserted_at: now,
    };
    law_fresh_responses_are_alive(s, ttl);
    law_what_is_put_is_found(kept, t.context.response_id, s, now, ttl, t.context.response_id);
}

/// A response that was not to be kept is not kept, whatever came of it.
pub proof fn law_unkept_responses_leave_no_trace(
    kept: Map<Seq<char>, Stored>,
    t: Translation,
    response: Json,
    now: u128,
    ttl: u64,
)
    requires
        !t.context.store,
    ensures
        after_final(kept, t, response, now, ttl) == kept,
{
}

/// A number, where there is one, in double precision.
pub open spec fn in_double_precision(n: Option<Num>) -> Option<Num> {
    match n {
        Some(number) => Some(number.as_float()),
        None => None,
    }
}

/// Cancelling a response that is under way succeeds, and the cancelled response says of
/// its request what the one under way said, the sampling options in double precision.
pub proof fn law_cancelling_keeps_the_request(context: Context, now: i64)
    ensures
        is_under_way(in_progress_response(context)),
        cancelled_record(in_progress_response(context), now) matches Ok((c, cancelled)) && {
            &&& c.response_id == context.response_id
            &&& c.created_at == context.created_at
            &&& c.client_model == context.client_model
            &&& c.store == context.store
            &&& c.parallel_tool_calls == context.parallel_tool_calls
            &&& c.instructions == context.instructions
            &&& c.metadata == context.metadata
            &&& c.tool_choice == context.tool_choice
            &&& c.tools == context.tools
            &&& c.max_output_tokens == context.max_output_tokens
            &&& c.previous_response_id == context.previous_response_id
            &&& c.truncation == context.truncation
            &&& c.temperature == in_double_precision(context.temperature)
            &&& c.top_p == in_double_precision(context.top_p)
            &&& cancelled.get("id"@) == Some(Json::Text(context.response_id))
            &&& cancelled.get("status"@) == Some(Json::Text("cancelled"@))
        },
{
    let answer = Answer {
        completed_at: Json::Null,
        status: "in_progress"@,
        error: Json::Null,
        incomplete_details: Json::Null,
        output: Seq::empty(),
        output_text: ""@,
        usage: usage_value(upstream_usage(None)),
    };
    lemma_response_members(context, answer);
    let n = context.created_at;
    if n < 0 {
        lemma_decimal_value((-n) as nat);
        let t = seq!['-'] + decimal((-n) as nat);
        assert(t.skip(1) =~= decimal((-n) as nat));
        assert(t[0] == '-');
    }
    assert(num_of_i64(n).as_i64() == Some(n));
    let response = in_progress_response(context);
    assert(turn_in(output_of(response)) is Ok);
    let (c, cancelled) = cancelled_record(response, now)->Ok_0;
    let turn = turn_in(output_of(response))->Ok_0;
    lemma_response_members(
        c,
        Answer {
            completed_at: Json::Num(num_of_i64(now)),
            status: "cancelled"@,
            error: Json::Null,
            incomplete_details: Json::Object(map!["reason"@ => Json::Text("cancelled"@)]),
            output: output_items(c, turn, "cancelled"@),
            output_text: turn.text,
            usage: usage_value(upstream_usage(None)),
        },
    );
}

/// A response that was cancelled stays cancelled: it is no longer under way, so that
/// cancelling it again changes nothing and gives it as it was given the first time. The
/// response is kept under its own identifier, and does not expire at once.
pub proof fn law_cancelling_again_changes_nothing(
    kept: Map<Seq<char>, Stored>,
    id: Seq<char>,
    now_seconds: i64,
    now: u128,
    ttl: u64,
)
    requires
        kept.contains_key(id),
        cancelled_record(kept[id].response, now_seconds) matches Ok((context, _)) && context.store
            && context.response_id == id,
        ttl > 0 || kept.dom().len() % 32 != 0,
    ensures
        ({
            let (context, cancelled) = cancelled_record(kept[id].response, now_seconds)->Ok_0;
            let after = after_final(
                kept,
                Translation {
                    upstream_payload: Json::Object(map![]),
                    context,
                    input_items: kept[id].input_items,
                    request_messages: kept[id].request_messages,
                },
                cancelled,
                now,
                ttl,
            );
            &&& after.contains_key(id)
            &&& after[id].response == cancelled
            &&& !is_under_way(cancelled)
        }),
{
    let response = kept[id].response;
    let (context, cancelled) = cancelled_record(response, now_seconds)->Ok_0;
    let turn = turn_in(output_of(response))->Ok_0;
    lemma_response_members(
        context,
        Answer {
            completed_at: Json::Num(num_of_i64(now_seconds)),
            status: "cancelled"@,
            error: Json::Null,
            incomplete_details: Json::Object(map!["reason"@ => Json::Text("cancelled"@)]),
            output: output_items(context, turn, "cancelled"@),
            output_text: turn.text,
            usage: match response.get("usage"@) {
                Some(usage) => usage,
                None => Json::Object(map![]),
            },
        },
    );
    reveal_strlit("cancelled");
    reveal_strlit("in_progress");
    assert("cancelled"@.len() == 9 && "in_progress"@.len() == 11);
    let s = Stored {
        response: cancelled,
        input_items: kept[id].input_items,
        request_messages: kept[id].request_messages,
        inserted_at: now,
    };
    assert(kept.insert(id, s).dom() =~= kept.dom());
}

/// A request goes upstream as it was translated. It begins a conversation of its own
/// where it names no earlier response, and goes on with the messages of the response that
/// it names. A body that is not a JSON object, a response that is not kept and, where the
/// proxy is strict, a field that is not supported are refused.
pub proof fn law_requests_are_taken_in(
    kept: Map<Seq<char>, Stored>,
    settings: Settings,
    caps: Capabilities,
    body: Map<Seq<char>, Json>,
    report: ProtocolReport,
    ids: Ids,
    name: Seq<char>,
)
    requires
        reports_on(report, body.dom()),
    ensures
        ({
            let taken = requested(kept, settings, caps, Ok(Json::Object(body)), report, ids);
            let id = body.get("previous_response_id"@);
            &&& settings.strict_protocol && body.contains_key(name) && field_class(name)
                == FieldClass::Unsupported ==> taken is Err && taken->Err_0 is BadRequest
            &&& !settings.strict_protocol || (forall|k: Seq<char>|
                body.contains_key(k) ==> #[trigger] field_class(k) != FieldClass::Unsupported)
                ==> {
                &&& !(id matches Some(Json::Text(_))) ==> taken == translation(
                    body,
                    settings,
                    field_note(report),
                    Seq::empty(),
                    caps,
                    ids,
                )
                &&& id matches Some(Json::Text(p)) ==> {
                    &&& !kept.contains_key(p) ==> taken is Err && taken->Err_0 is BadRequest
                    &&& kept.contains_key(p) && !(kept[p].response.get("output"@) matches Some(
                        Json::Array(_),
                    )) ==> taken == translation(
                        body,
                        settings,
                        field_note(report),
                        kept[p].request_messages,
                        caps,
                        ids,
                    )
                    &&& kept.contains_key(p) && previous_messages(kept, body) is Ok ==> taken
                        == translation(
                        body,
                        settings,
                        field_note(report),
                        previous_messages(kept, body)->Ok_0,
                        caps,
                        ids,
                    )
                }
            }
        }),
{
    let listed = texts(report.unsupported_fields@);
    if body.contains_key(name) && field_class(name) == FieldClass::Unsupported {
        assert(listed.contains(name));
    }
    if report.unsupported_fields@.len() > 0 {
        assert(listed.contains(listed[0]));
        assert(field_class(listed[0]) == FieldClass::Unsupported);
    }
}

/// A body that is not a JSON object is refused.
pub proof fn law_other_bodies_are_refused(
    kept: Map<Seq<char>, Stored>,
    settings: Settings,
    caps: Capabilities,
    parsed: Result<Json, Seq<char>>,
    report: ProtocolReport,
    ids: Ids,
)
    requires
        !(parsed matches Ok(Json::Object(_))),
    ensures
        requested(kept, settings, caps, parsed, report, ids) is Err,
        requested(kept, settings, caps, parsed, report, ids)->Err_0 is BadRequest,
{
}

/// Messages that are added to a request come after its own, and change nothing else.
pub proof fn law_added_messages_come_last(
    payload: Json,
    list: Seq<Json>,
    more: Seq<Json>,
    key: Seq<char>,
)
    requires
        payload.get("messages"@) == Some(Json::Array(list)),
    ensures
        payload_with_messages(payload, more).get("messages"@) == Some(Json::Array(list + more)),
        key != "messages"@ ==> payload_with_messages(payload, more).get(key) == payload.get(key),
{
}

/// A response that is to be kept is found under its identifier, with the items and the
/// messages of its request.
pub proof fn law_kept_responses_are_found(
    kept: Map<Seq<char>, Stored>,
    t: Translation,
    response: Json,
    now: u128,
    ttl: u64,
)
    requires
        t.context.store,
        ttl > 0,
    ensures
        ({
            let after = after_final(kept, t, response, now, ttl);
            &&& after.contains_key(t.context.response_id)
            &&& after[t.context.response_id].response == response
            &&& after[t.context.response_id].input_items == t.input_items
            &&& after[t.context.response_id].request_messages == t.request_messages
            &&& after[t.context.response_id].inserted_at == now
        }),
{
}

/// Every end is counted once, under its kind, and a completed answer with the tokens that
/// its response shows.
pub proof fn law_ends_are_counted(m: RequestMetrics, end: End, response: Json, usage: Json)
    requires
        response.get("usage"@) == Some(usage),
        m.failed < u64::MAX,
        m.cancelled < u64::MAX,
    ensures
        end is Completed ==> after_end(m, end, response) == after_completion(m, usage),
        end is Failed ==> after_end(m, end, response) == (RequestMetrics {
            failed: (m.failed + 1) as u64,
            ..m
        }),
        end is Cancelled ==> after_end(m, end, response) == (RequestMetrics {
            cancelled: (m.cancelled + 1) as u64,
            ..m
        }),
{
}

/// A cancelled response keeps the tokens that were counted, and what had been said.
pub proof fn law_cancelling_keeps_what_was_answered(response: Json, now: i64)
    ensures
        cancelled_record(response, now) matches Ok((context, cancelled)) ==> {
            &&& cancelled.get("id"@) == response.get("id"@)
            &&& cancelled.get("status"@) == Some(Json::Text("cancelled"@))
            &&& cancelled.get("completed_at"@) == Some(Json::Num(num_of_i64(now)))
            &&& response.get("usage"@) is Some ==> cancelled.get("usage"@) == response.get(
                "usage"@,
            )
            &&& turn_in(output_of(response)) matches Ok(turn)
            &&& cancelled.get("output_text"@) == Some(Json::Text(turn.text))
        },
{
    if let Ok((context, cancelled)) = cancelled_record(response, now) {
        let turn = turn_in(output_of(response))->Ok_0;
        lemma_response_members(
            context,
            Answer {
                completed_at: Json::Num(num_of_i64(now)),
                status: "cancelled"@,
                error: Json::Null,
                incomplete_details: Json::Object(map!["reason"@ => Json::Text("cancelled"@)]),
                output: output_items(context, turn, "cancelled"@),
                output_text: turn.text,
                usage: match response.get("usage"@) {
                    Some(usage) => usage,
                    None => Json::Object(map![]),
                },
            },
        );
    }
}

/// A response that is kept is given back as it is, with the items of its input in their
/// order, and can be deleted. A response that is not kept is told to be missing, by its
/// identifier.
pub proof fn law_kept_responses_are_given_back(kept: Map<Seq<char>, Stored>, id: Seq<char>)
    ensures
        kept.contains_key(id) ==> {
            &&& response_under(kept, id) == Ok::<Json, Failure>(kept[id].response)
            &&& items_under(kept, id) matches Ok(list)
            &&& list.get("object"@) == Some(Json::Text("list"@))
            &&& list.get("data"@) == Some(Json::Array(kept[id].input_items))
            &&& list.get("has_more"@) == Some(Json::Bool(false))
            &&& deletion_under(kept, id) matches Ok(deletion)
            &&& deletion.get("id"@) == Some(Json::Text(id))
            &&& deletion.get("object"@) == Some(Json::Text("response.deleted"@))
            &&& deletion.get("deleted"@) == Some(Json::Bool(true))
        },
        !kept.contains_key(id) ==> {
            &&& response_under(kept, id) matches Err(Failure::BadRequest(m))
            &&& has_part(m, id)
            &&& items_under(kept, id) == response_under(kept, id)
            &&& deletion_under(kept, id) == response_under(kept, id)
        },
{
    reveal_strlit("object");
    reveal_strlit("data");
    reveal_strlit("has_more");
    reveal_strlit("first_id");
    reveal_strlit("last_id");
    reveal_strlit("id");
    reveal_strlit("deleted");
    assert("object"@.len() == 6);
    assert("data"@.len() == 4);
    assert("has_more"@.len() == 8);
    assert("first_id"@.len() == 8);
    assert("last_id"@.len() == 7);
    assert("id"@.len() == 2);
    assert("deleted"@.len() == 7);
    assert("has_more"@[0] == 'h');
    assert("first_id"@[0] == 'f');
    assert("last_id"@[0] == 'l');
    assert("deleted"@[0] == 'd');
    law_parts_have_surroundings("response `"@, id, "` not found"@, Seq::empty());
}

/// Cancelling a response that is under way answers with the cancelled response, keeps that
/// in its place, and tells the request that answers it. Cancelling another changes
/// nothing, and answers with the response as it is kept.
pub proof fn law_responses_under_way_are_cancelled(
    kept: Map<Seq<char>, Stored>,
    inflight: Map<Seq<char>, bool>,
    id: Seq<char>,
    now_seconds: i64,
    now: u128,
    ttl: u64,
    other: Seq<char>,
)
    ensures
        ({
            let (answer, after, told) = after_cancelling(
                kept,
                inflight,
                id,
                now_seconds,
                now,
                ttl,
            );
            &&& !kept.contains_key(id) ==> answer is Err && after == kept && told == inflight
            &&& kept.contains_key(id) && kept[id].response.get("status"@) != Some(
                Json::Text("in_progress"@),
            ) ==> answer == Ok::<Json, Failure>(kept[id].response) && after == kept && told
                == inflight
            &&& kept.contains_key(id) && kept[id].response.get("status"@) == Some(
                Json::Text("in_progress"@),
            ) ==> {
                &&& inflight.contains_key(id) ==> told.get(id) == Some(true)
                &&& told.dom() == inflight.dom()
                &&& other != id ==> told.get(other) == inflight.get(other)
                &&& answer is Err ==> after == kept
                &&& cancelled_record(kept[id].response, now_seconds) matches Ok((context, v)) ==> {
                    &&& answer == Ok::<Json, Failure>(v)
                    &&& v.get("status"@) == Some(Json::Text("cancelled"@))
                    &&& context.store && ttl > 0 ==> {
                        &&& after.contains_key(context.response_id)
                        &&& after[context.response_id].response == v
                        &&& after[context.response_id].input_items == kept[id].input_items
                        &&& after[context.response_id].request_messages
                            == kept[id].request_messages
                    }
                    &&& !context.store ==> after == kept
                }
            }
        }),
{
    law_cancelling_keeps_what_was_answered(
        if kept.contains_key(id) {
            kept[id].response
        } else {
            Json::Null
        },
        now_seconds,
    );
    if inflight.contains_key(id) {
        assert(inflight.insert(id, true).dom() =~= inflight.dom());
    }
}

/// What the hosted tools found goes upstream behind the conversation, is kept with the
/// request, and comes behind what was found before in the response; nothing else changes.
pub proof fn law_hosted_results_are_added(t: Translation, hosted: Hosted, said: Seq<Json>)
    requires
        t.upstream_payload.get("messages"@) == Some(Json::Array(said)),
    ensures
        ({
            let after = with_hosted(t, hosted);
            &&& after.upstream_payload.get("messages"@) == Some(
                Json::Array(said + hosted.messages),
            )
            &&& after.request_messages == t.request_messages + hosted.messages
            &&& after.context.hosted_output_items == t.context.hosted_output_items
                + hosted.output_items
            &&& after.input_items == t.input_items
            &&& after.context.response_id == t.context.response_id
            &&& after.context.stream == t.context.stream
            &&& after.context.store == t.context.store
        }),
{
}

} // verus!

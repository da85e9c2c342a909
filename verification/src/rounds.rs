//! Rounds of local tool calls: the upstream asks for calls, the proxy runs those that it
//! has a local tool for, and sends the outcomes back.

use crate::error::{outcome, Failure, ProxyError};
use crate::json::{
    array_of, copy_values, object, Json, JsonValue,
};
use crate::session::{
    close_stream, closing_notes, end_response, is_whole_stream, lemma_whole_stream, open_stream,
    opening_notes, AnswerEnd, ClosedStream, End, Ending, ReadEnd, StreamReader,
};
use crate::stream::{
    emitted_of, law_numbering_goes_on, number_after, numbered, turn_of, Note, StreamEvent,
};
use crate::text::same_text;
use crate::tools::{
    append_tool_turn, output_for, outputs_of, reasoned_calls, supported_of, tool_messages, Output,
    ToolExecutor, ToolOutput,
};
use crate::translate::{Context, RequestContext, TranslatedRequest, Translation};
use crate::turn::{
    answered_call_count, answered_turn, are_fresh_call_ids, calls_of, no_turn,
    parse_assistant_turn_from_response, AssistantTurn, Call, ToolCall, Turn,
};
use crate::usage::{
    added, empty_usage, fit_together, law_counts_are_shown, law_merged_counts_are_sums,
    law_reported_counts_are_shown, merge_usage, merged_usage, reported, shows, upstream_usage, usage_from_upstream, usage_value,
    Usage,
};
use vstd::prelude::*;
use vstd::string::*;

verus! {

/// The messages that a chat request carries.
pub open spec fn payload_messages(payload: Json) -> Seq<Json> {
    match payload.get("messages"@) {
        Some(Json::Array(list)) => list,
        _ => Seq::empty(),
    }
}

/// The messages that a chat request carries.
pub fn extract_request_messages(payload: &JsonValue) -> (messages: Vec<JsonValue>)
    ensures
        array_of(messages@) == payload_messages(payload@),
{
    match payload.get("messages") {
        Some(JsonValue::Array(list)) => copy_values(list),
        _ => {
            let none: Vec<JsonValue> = Vec::new();
            assert(array_of(none@) =~= Seq::empty());
            none
        },
    }
}

/// A translated request with other messages.
pub fn translated_with_request_messages(
    translated: &TranslatedRequest,
    request_messages: Vec<JsonValue>,
) -> (t: TranslatedRequest)
    ensures
        t@ == (Translation { request_messages: array_of(request_messages@), ..translated@ }),
{
    let mut t = translated.clone();
    t.request_messages = request_messages;
    t
}

/// The name under which a declared tool can be called.
pub open spec fn callable_name(tool: Json) -> Option<Seq<char>> {
    let nested = match tool.get("function"@) {
        Some(f) => f.get("name"@),
        None => None,
    };
    let name = match nested {
        Some(n) => Some(n),
        None => tool.get("name"@),
    };
    match name {
        Some(n) => n.as_str(),
        None => None,
    }
}

/// Whether a declared tool is a function that the proxy can run.
pub open spec fn runs_locally(tool: Json, names: Set<Seq<char>>) -> bool {
    &&& tool.text_at("type"@) == Some("function"@)
    &&& callable_name(tool) matches Some(name) && names.contains(name)
}

fn is_local_function(tool: &JsonValue, executor: &ToolExecutor) -> (b: bool)
    ensures
        b == runs_locally(tool@, executor.tool_names()),
{
    let is_function = match tool.text_at("type") {
        Some(kind) => same_text(kind, "function"),
        None => false,
    };
    if !is_function {
        return false;
    }
    let nested = match tool.get("function") {
        Some(f) => f.get("name"),
        None => None,
    };
    let name = match nested {
        Some(n) => Some(n),
        None => tool.get("name"),
    };
    match name {
        Some(JsonValue::Text(name)) => executor.supports_tool(name.as_str()),
        _ => false,
    }
}

/// Whether a request declares a tool that the proxy can run.
pub fn should_auto_execute_tools(executor: &ToolExecutor, translated: &TranslatedRequest) -> (b:
    bool)
    ensures
        b == exists|i: int|
            0 <= i < translated@.context.tools.len() && #[trigger] runs_locally(
                translated@.context.tools[i],
                executor.tool_names(),
            ),
{
    let tools = &translated.context.tools;
    let ghost all = translated@.context.tools;
    let ghost names = executor.tool_names();
    let mut i: usize = 0;
    while i < tools.len()
        invariant
            i <= tools@.len(),
            all == array_of(tools@),
            all == translated@.context.tools,
            names == executor.tool_names(),
            forall|k: int| 0 <= k < i ==> !#[trigger] runs_locally(all[k], names),
        decreases tools@.len() - i,
    {
        assert(all[i as int] == tools@[i as int]@);
        if is_local_function(&tools[i], executor) {
            assert(runs_locally(all[i as int], names));
            return true;
        }
        i += 1;
    }
    false
}

/// The number of calls made so far, once `n` more are asked for. It is only counted
/// where there is a limit, and as far as a machine word reaches.
pub open spec fn calls_made(made: u32, n: nat, limit: Option<u32>) -> u32 {
    match limit {
        None => made,
        Some(_) => made.wrapping_add(n as u32),
    }
}

/// The calls of a turn that are run: those for local tools, unless there are none or the
/// limit would be exceeded.
pub open spec fn round_calls(
    turn: Turn,
    names: Set<Seq<char>>,
    limit: Option<u32>,
    made: u32,
) -> Option<Seq<Call>> {
    let calls = supported_of(turn.calls, names);
    if calls.len() == 0 {
        None
    } else {
        match limit {
            None => Some(calls),
            Some(l) => if calls_made(made, calls.len(), limit) > l {
                None
            } else {
                Some(calls)
            },
        }
    }
}

fn choose_calls(
    turn: &AssistantTurn,
    executor: &ToolExecutor,
    limit: Option<u32>,
    made: &mut u32,
) -> (calls: Option<Vec<ToolCall>>)
    ensures
        match calls {
            Some(c) => round_calls(turn@, executor.tool_names(), limit, *old(made)) == Some(
                calls_of(c@),
            ) && *final(made) == calls_made(*old(made), c@.len(), limit),
            None => round_calls(turn@, executor.tool_names(), limit, *old(made)) is None
                && *final(made) == *old(made),
        },
{
    let supported = executor.supported_calls(&turn.tool_calls);
    assert(calls_of(supported@).len() == supported@.len());
    if supported.len() == 0 {
        return None;
    }
    if let Some(l) = limit {
        let total = made.wrapping_add(supported.len() as u32);
        if total > l {
            return None;
        }
        *made = total;
    }
    Some(supported)
}

/// A chat request that goes on with the calls of a turn and their outcomes, if it has a
/// conversation to go on with.
pub open spec fn payload_with_round(
    payload: Json,
    calls: Seq<Call>,
    outputs: Seq<Output>,
    reasoning: Seq<char>,
) -> Option<Json> {
    match payload {
        Json::Object(m) => match m.get("messages"@) {
            Some(Json::Array(list)) => Some(
                Json::Object(
                    m.insert(
                        "messages"@,
                        Json::Array(
                            list.push(reasoned_calls(calls, reasoning)) + tool_messages(
                                calls,
                                outputs,
                            ),
                        ),
                    ),
                ),
            ),
            _ => None,
        },
        _ => None,
    }
}

fn append_round(
    payload: &mut JsonValue,
    calls: &Vec<ToolCall>,
    outputs: &Vec<ToolOutput>,
    reasoning: &str,
) -> (done: bool)
    ensures
        ({
            let after = payload_with_round(
                old(payload)@,
                calls_of(calls@),
                outputs_of(outputs@),
                reasoning@,
            );
            &&& done == (after is Some)
            &&& final(payload)@ == (match after {
                Some(p) => p,
                None => old(payload)@,
            })
        }),
{
    match payload {
        JsonValue::Object(o) => {
            let mut messages = match o.member("messages") {
                Some(JsonValue::Array(list)) => copy_values(list),
                _ => return false,
            };
            append_tool_turn(&mut messages, calls, outputs, reasoning);
            o.set("messages", JsonValue::Array(messages));
            true
        },
        _ => false,
    }
}

/// An answer that is put together without a stream, after the last answer that came.
#[verifier::ext_equal]
pub struct Run {
    pub payload: Json,
    pub turn: Turn,
    pub usage: Json,
    pub rounds_left: u32,
    pub made: u32,
}

/// The first answer is there.
pub open spec fn first_run(payload: Json, turn: Turn, usage: Option<Json>, rounds: u32) -> Run {
    Run {
        payload,
        turn,
        usage: usage_value(upstream_usage(usage)),
        rounds_left: rounds,
        made: 0,
    }
}

/// The next round, and the calls that it runs; none where the answer is complete.
pub open spec fn next_round(run: Run, names: Set<Seq<char>>, limit: Option<u32>) -> (
    Run,
    Option<Seq<Call>>,
) {
    let calls = round_calls(run.turn, names, limit, run.made);
    if run.rounds_left == 0 || calls is None {
        (run, None)
    } else {
        (
            Run {
                rounds_left: (run.rounds_left - 1) as u32,
                made: calls_made(run.made, calls->0.len(), limit),
                ..run
            },
            calls,
        )
    }
}

/// One more answer is there.
pub open spec fn after_answer(run: Run, turn: Turn, usage: Option<Json>) -> Run {
    Run {
        turn,
        usage: merged_usage(run.usage, usage_value(upstream_usage(usage))),
        ..run
    }
}

/// A run whose request goes on with the outputs of calls; none where there are no outputs
/// or no conversation to go on with.
pub open spec fn with_outputs(run: Run, calls: Seq<Call>, outputs: Option<Seq<Output>>) -> Option<
    Run,
> {
    match outputs {
        Some(o) => match payload_with_round(run.payload, calls, o, run.turn.reasoning) {
            Some(payload) => Some(Run { payload, ..run }),
            None => None,
        },
        None => None,
    }
}

/// What comes of a run: its last turn, the tokens of all its rounds, and the messages that
/// were sent, unless others are kept in their place.
pub open spec fn execution_of(run: Run, kept: Option<Seq<Json>>) -> Execution {
    Execution {
        turn: run.turn,
        usage: run.usage,
        request_messages: match kept {
            Some(messages) => messages,
            None => payload_messages(run.payload),
        },
    }
}

/// A round takes one of the rounds that are left, and there are no rounds when none is
/// left: the rounds of a request are bounded by those that it begins with.
pub proof fn law_rounds_are_used_up(run: Run, names: Set<Seq<char>>, limit: Option<u32>)
    ensures
        next_round(run, names, limit).1 is Some ==> next_round(run, names, limit).0.rounds_left
            == run.rounds_left - 1,
        run.rounds_left == 0 ==> next_round(run, names, limit).1 is None,
        forall|turn: Turn, usage: Option<Json>|
            (#[trigger] after_answer(run, turn, usage)).rounds_left == run.rounds_left,
{
}

/// As long as the number of calls fits a machine word, no more calls are run than the
/// limit allows.
pub proof fn law_calls_stay_within_the_limit(
    run: Run,
    names: Set<Seq<char>>,
    limit: u32,
)
    requires
        run.made + supported_of(run.turn.calls, names).len() <= u32::MAX,
    ensures
        next_round(run, names, Some(limit)) matches (after, Some(calls)) ==> after.made == run.made
            + calls.len() && after.made <= limit,
{
}

/// Only calls for local tools are run.
pub proof fn law_only_local_tools_are_run(run: Run, names: Set<Seq<char>>, limit: Option<u32>)
    ensures
        next_round(run, names, limit).1 matches Some(calls) ==> forall|i: int|
            0 <= i < calls.len() ==> names.contains((#[trigger] calls[i]).name),
{
    lemma_supported(run.turn.calls, names);
}

proof fn lemma_supported(calls: Seq<Call>, names: Set<Seq<char>>)
    ensures
        forall|i: int|
            0 <= i < supported_of(calls, names).len() ==> names.contains(
                (#[trigger] supported_of(calls, names)[i]).name,
            ),
    decreases calls.len(),
{
    if calls.len() > 0 {
        lemma_supported(calls.drop_last(), names);
        let earlier = supported_of(calls.drop_last(), names);
        assert forall|i: int| 0 <= i < supported_of(calls, names).len() implies names.contains(
            (#[trigger] supported_of(calls, names)[i]).name,
        ) by {
            if i < earlier.len() {
                assert(supported_of(calls, names)[i] == earlier[i]);
            }
        }
    }
}

/// What an answer without a stream comes to.
#[derive(Debug)]
pub struct NonStreamExecution {
    pub turn: AssistantTurn,
    pub usage: JsonValue,
    pub request_messages: Vec<JsonValue>,
}

/// What a [`NonStreamExecution`] stands for.
#[verifier::ext_equal]
pub struct Execution {
    pub turn: Turn,
    pub usage: Json,
    pub request_messages: Seq<Json>,
}

impl View for NonStreamExecution {
    type V = Execution;

    open spec fn view(&self) -> Execution {
        Execution {
            turn: self.turn@,
            usage: self.usage@,
            request_messages: array_of(self.request_messages@),
        }
    }
}

/// An answer that is put together without a stream.
#[derive(Debug)]
pub struct NonStreamRun {
    payload: JsonValue,
    turn: AssistantTurn,
    usage: JsonValue,
    rounds_left: u32,
    made: u32,
    limit: Option<u32>,
    kept: Option<Vec<JsonValue>>,
}

impl View for NonStreamRun {
    type V = Run;

    closed spec fn view(&self) -> Run {
        Run {
            payload: self.payload@,
            turn: self.turn@,
            usage: self.usage@,
            rounds_left: self.rounds_left,
            made: self.made,
        }
    }
}

impl NonStreamRun {
    /// How many calls may be run in all.
    pub closed spec fn spec_limit(self) -> Option<u32> {
        self.limit
    }

    /// The messages to keep, where they are not those of the chat request.
    pub closed spec fn spec_kept(self) -> Option<Seq<Json>> {
        match self.kept {
            Some(messages) => Some(array_of(messages@)),
            None => None,
        }
    }

    /// Begins with the turn of the first answer. Without local tools there are no
    /// rounds, and the messages of the request are kept as they are.
    pub fn begin(
        translated: &TranslatedRequest,
        executor: &ToolExecutor,
        turn: AssistantTurn,
        usage: Option<&JsonValue>,
    ) -> (run: NonStreamRun)
        ensures
            ({
                let has_tools = executor.tool_names() != Set::<Seq<char>>::empty();
                &&& run@ == first_run(
                    translated@.upstream_payload,
                    turn@,
                    usage.deep_view(),
                    if has_tools {
                        executor.settings.max_auto_tool_rounds
                    } else {
                        0
                    },
                )
                &&& run.spec_limit() == translated@.context.max_tool_calls
                &&& run.spec_kept() == (if has_tools {
                    None
                } else {
                    Some(translated@.request_messages)
                })
            }),
    {
        let has_tools = executor.has_local_tools();
        NonStreamRun {
            payload: translated.upstream_payload.clone(),
            turn,
            usage: usage_from_upstream(usage),
            rounds_left: if has_tools {
                executor.settings.max_auto_tool_rounds
            } else {
                0
            },
            made: 0,
            limit: translated.context.max_tool_calls,
            kept: if has_tools {
                None
            } else {
                Some(copy_values(&translated.request_messages))
            },
        }
    }

    /// Begins with the first answer. Calls without an identifier in it get fresh ones.
    pub fn start(
        translated: &TranslatedRequest,
        executor: &ToolExecutor,
        answer: &JsonValue,
    ) -> (r: Result<NonStreamRun, ProxyError>)
        ensures
            exists|ids: Seq<Seq<char>>|
                are_fresh_call_ids(ids) && ids.len() == answered_call_count(answer@) && (
                match #[trigger] answered_turn(answer@, ids) {
                    Ok(turn) => {
                        let has_tools = executor.tool_names() != Set::<Seq<char>>::empty();
                        &&& r matches Ok(run)
                        &&& run@ == first_run(
                            translated@.upstream_payload,
                            turn,
                            answer@.get("usage"@),
                            if has_tools {
                                executor.settings.max_auto_tool_rounds
                            } else {
                                0
                            },
                        )
                        &&& run.spec_limit() == translated@.context.max_tool_calls
                        &&& run.spec_kept() == (if has_tools {
                            None
                        } else {
                            Some(translated@.request_messages)
                        })
                    },
                    Err(e) => r matches Err(failure) && failure@ == e,
                }),
    {
        let turn = match parse_assistant_turn_from_response(answer) {
            Ok(turn) => turn,
            Err(e) => return Err(e),
        };
        Ok(NonStreamRun::begin(translated, executor, turn, answer.get("usage")))
    }

    /// The chat request to send.
    pub fn payload(&self) -> (payload: &JsonValue)
        ensures
            payload@ == self@.payload,
    {
        &self.payload
    }

    /// The calls of the next round; none where the answer is complete.
    pub fn next_calls(&mut self, executor: &ToolExecutor) -> (calls: Option<Vec<ToolCall>>)
        ensures
            ({
                let (after, chosen) = next_round(
                    old(self)@,
                    executor.tool_names(),
                    old(self).spec_limit(),
                );
                &&& final(self)@ == after
                &&& match calls {
                    Some(c) => chosen == Some(calls_of(c@)),
                    None => chosen is None,
                }
            }),
            final(self).spec_limit() == old(self).spec_limit(),
            final(self).spec_kept() == old(self).spec_kept(),
    {
        if self.rounds_left == 0 {
            return None;
        }
        let calls = choose_calls(&self.turn, executor, self.limit, &mut self.made);
        if let Some(c) = &calls {
            assert(calls_of(c@).len() == c@.len());
            self.rounds_left = self.rounds_left - 1;
        }
        calls
    }

    /// Takes the outcomes of the calls into the chat request; whether it can be sent.
    pub fn take_outputs(&mut self, calls: &Vec<ToolCall>, outputs: Option<&Vec<ToolOutput>>) -> (go:
        bool)
        ensures
            ({
                let after = with_outputs(
                    old(self)@,
                    calls_of(calls@),
                    match outputs {
                        Some(o) => Some(outputs_of(o@)),
                        None => None,
                    },
                );
                &&& go == (after is Some)
                &&& final(self)@ == (match after {
                    Some(run) => run,
                    None => old(self)@,
                })
            }),
            final(self).spec_limit() == old(self).spec_limit(),
            final(self).spec_kept() == old(self).spec_kept(),
    {
        match outputs {
            Some(o) => append_round(&mut self.payload, calls, o, self.turn.reasoning.as_str()),
            None => false,
        }
    }

    /// Takes in the turn of one more answer.
    pub fn take_turn(&mut self, turn: AssistantTurn, usage: Option<&JsonValue>)
        ensures
            final(self)@ == after_answer(old(self)@, turn@, usage.deep_view()),
            final(self).spec_limit() == old(self).spec_limit(),
            final(self).spec_kept() == old(self).spec_kept(),
    {
        merge_usage(&mut self.usage, &usage_from_upstream(usage));
        self.turn = turn;
    }

    /// Takes in one more answer. Calls without an identifier in it get fresh ones.
    pub fn take_answer(&mut self, answer: &JsonValue) -> (r: Result<(), ProxyError>)
        ensures
            exists|ids: Seq<Seq<char>>|
                are_fresh_call_ids(ids) && ids.len() == answered_call_count(answer@) && (
                match #[trigger] answered_turn(answer@, ids) {
                    Ok(turn) => r is Ok && final(self)@ == after_answer(
                        old(self)@,
                        turn,
                        answer@.get("usage"@),
                    ),
                    Err(e) => {
                        &&& final(self)@ == old(self)@
                        &&& r matches Err(failure)
                        &&& failure@ == e
                    },
                }),
            final(self).spec_limit() == old(self).spec_limit(),
            final(self).spec_kept() == old(self).spec_kept(),
    {
        let turn = match parse_assistant_turn_from_response(answer) {
            Ok(turn) => turn,
            Err(e) => return Err(e),
        };
        self.take_turn(turn, answer.get("usage"));
        Ok(())
    }

    /// What the answer comes to.
    pub fn finish(self) -> (execution: NonStreamExecution)
        ensures
            execution@ == execution_of(self@, self.spec_kept()),
    {
        let request_messages = match self.kept {
            Some(messages) => messages,
            None => extract_request_messages(&self.payload),
        };
        NonStreamExecution { turn: self.turn, usage: self.usage, request_messages }
    }
}

/// What came of reading one streamed answer of a round.
#[derive(Debug)]
pub enum StreamRoundOutcome {
    Completed { turn: AssistantTurn, usage: JsonValue },
    Failed(String),
    Cancelled,
}

/// What a [`StreamRoundOutcome`] stands for.
#[verifier::ext_equal]
pub enum RoundOutcome {
    Completed { turn: Turn, usage: Json },
    Failed(Seq<char>),
    Cancelled,
}

impl View for StreamRoundOutcome {
    type V = RoundOutcome;

    open spec fn view(&self) -> RoundOutcome {
        match *self {
            StreamRoundOutcome::Completed { turn, usage } => RoundOutcome::Completed {
                turn: turn@,
                usage: usage@,
            },
            StreamRoundOutcome::Failed(m) => RoundOutcome::Failed(m@),
            StreamRoundOutcome::Cancelled => RoundOutcome::Cancelled,
        }
    }
}

/// What comes of reading one streamed answer, once the reading has ended.
pub open spec fn round_outcome(ending: Ending, turn: Turn, usage: Json) -> Result<
    RoundOutcome,
    Failure,
> {
    match ending {
        Ending::Finished => Ok(RoundOutcome::Completed { turn, usage }),
        Ending::Cancelled => Ok(RoundOutcome::Cancelled),
        Ending::Broken(m) => Ok(RoundOutcome::Failed(m)),
        Ending::Unreadable(m) => Err(Failure::BadRequest(m)),
    }
}

/// What comes of reading one streamed answer.
pub fn conclude_round(reader: &StreamReader) -> (r: Result<StreamRoundOutcome, ProxyError>)
    ensures
        outcome(r) == round_outcome(
            match reader@.ending {
                Some(e) => e,
                None => Ending::Finished,
            },
            turn_of(reader@.state),
            reader@.state.usage,
        ),
{
    match reader.ending() {
        ReadEnd::Finished => Ok(
            StreamRoundOutcome::Completed { turn: reader.turn(), usage: reader.usage() },
        ),
        ReadEnd::Cancelled => Ok(StreamRoundOutcome::Cancelled),
        ReadEnd::Broken(m) => Ok(StreamRoundOutcome::Failed(m)),
        ReadEnd::Unreadable(m) => Err(ProxyError::BadRequest(m)),
    }
}

/// The blank request for which the answer of a round is read: its events go nowhere.
pub fn stream_round_context() -> (c: RequestContext)
    ensures
        c@ == (Context {
            response_id: Seq::empty(),
            reasoning_id: Seq::empty(),
            message_id: Seq::empty(),
            created_at: 0,
            client_model: Seq::empty(),
            upstream_model: Seq::empty(),
            stream: true,
            store: false,
            parallel_tool_calls: true,
            instructions: None,
            metadata: Json::Object(map![]),
            tool_choice: Json::Text("auto"@),
            tools: Seq::empty(),
            max_output_tokens: None,
            max_tool_calls: None,
            hosted_output_items: Seq::empty(),
            previous_response_id: None,
            truncation: "auto"@,
            temperature: None,
            top_p: None,
            skip_reasoning_output: false,
        }),
{
    let c = RequestContext {
        response_id: String::new(),
        reasoning_id: String::new(),
        message_id: String::new(),
        created_at: 0,
        client_model: String::new(),
        upstream_model: String::new(),
        stream: true,
        store: false,
        parallel_tool_calls: true,
        instructions: None,
        metadata: JsonValue::Object(object()),
        tool_choice: JsonValue::text("auto"),
        tools: Vec::new(),
        max_output_tokens: None,
        max_tool_calls: None,
        hosted_output_items: Vec::new(),
        previous_response_id: None,
        truncation: "auto".to_owned(),
        temperature: None,
        top_p: None,
        skip_reasoning_output: false,
    };
    assert(array_of(c.tools@) =~= Seq::empty());
    assert(array_of(c.hosted_output_items@) =~= Seq::empty());
    c
}

/// A streamed answer with rounds of tool calls: the chat request, the turn of the round
/// under way, the turn that the client gets, and the end once it is known.
#[verifier::ext_equal]
pub struct Auto {
    pub context: Context,
    pub payload: Json,
    pub current: Turn,
    pub last: Turn,
    pub usage: Json,
    pub rounds_left: u32,
    pub made: u32,
    pub end: Option<End>,
}

/// The answer begins.
pub open spec fn first_auto(t: Translation, rounds: u32) -> Auto {
    Auto {
        context: t.context,
        payload: t.upstream_payload,
        current: no_turn(),
        last: no_turn(),
        usage: usage_value(upstream_usage(None)),
        rounds_left: rounds,
        made: 0,
        end: None,
    }
}

/// A round begins, if there is one left and the end is not known yet.
pub open spec fn begun(a: Auto) -> Option<Auto> {
    if a.end is Some || a.rounds_left == 0 {
        None
    } else {
        Some(Auto { rounds_left: (a.rounds_left - 1) as u32, ..a })
    }
}

/// What comes of a round's answer, and the calls that are to be run.
pub open spec fn after_round(
    a: Auto,
    names: Set<Seq<char>>,
    round: Result<RoundOutcome, Failure>,
) -> (Auto, Option<Seq<Call>>) {
    match round {
        Err(e) => (Auto { end: Some(End::Failed(e.message())), ..a }, None),
        Ok(RoundOutcome::Failed(m)) => (Auto { end: Some(End::Failed(m)), ..a }, None),
        Ok(RoundOutcome::Cancelled) => (Auto { end: Some(End::Cancelled), ..a }, None),
        Ok(RoundOutcome::Completed { turn, usage }) => {
            let counted = Auto { usage: merged_usage(a.usage, usage), ..a };
            match round_calls(turn, names, a.context.max_tool_calls, a.made) {
                None => (Auto { last: turn, end: Some(End::Completed), ..counted }, None),
                Some(calls) => (
                    Auto {
                        current: turn,
                        made: calls_made(a.made, calls.len(), a.context.max_tool_calls),
                        ..counted
                    },
                    Some(calls),
                ),
            }
        },
    }
}

/// What comes of the outcomes of a round's calls.
pub open spec fn after_outputs(
    a: Auto,
    calls: Seq<Call>,
    outputs: Result<Option<Seq<Output>>, Failure>,
) -> Auto {
    let stopped = Auto { last: a.current, end: Some(End::Completed), ..a };
    match outputs {
        Err(e) => Auto { end: Some(End::Failed(e.message())), ..a },
        Ok(None) => stopped,
        Ok(Some(o)) => match payload_with_round(a.payload, calls, o, a.current.reasoning) {
            Some(payload) => Auto { payload, ..a },
            None => stopped,
        },
    }
}

/// A streamed answer with rounds of tool calls.
#[derive(Debug)]
pub struct AutoSession {
    context: RequestContext,
    payload: JsonValue,
    current: AssistantTurn,
    last: AssistantTurn,
    usage: JsonValue,
    rounds_left: u32,
    made: u32,
    end: Option<AnswerEnd>,
    sequence_number: u64,
}

/// What the end of an answer stands for, where it is known.
pub open spec fn known_end(end: Option<AnswerEnd>) -> Option<End> {
    match end {
        Some(e) => Some(e@),
        None => None,
    }
}

/// What outputs stand for.
pub open spec fn outputs_outcome(r: Result<Option<Vec<ToolOutput>>, ProxyError>) -> Result<
    Option<Seq<Output>>,
    Failure,
> {
    match r {
        Ok(Some(o)) => Ok(Some(outputs_of(o@))),
        Ok(None) => Ok(None),
        Err(e) => Err(e@),
    }
}

impl View for AutoSession {
    type V = Auto;

    closed spec fn view(&self) -> Auto {
        Auto {
            context: self.context@,
            payload: self.payload@,
            current: self.current@,
            last: self.last@,
            usage: self.usage@,
            rounds_left: self.rounds_left,
            made: self.made,
            end: known_end(self.end),
        }
    }
}

impl AutoSession {
    /// The number of the next event.
    pub closed spec fn next_number(self) -> u64 {
        self.sequence_number
    }

    /// Begins an answer.
    pub fn open(translated: &TranslatedRequest, max_rounds: u32) -> (r: (
        AutoSession,
        Vec<StreamEvent>,
    ))
        ensures
            r.0@ == first_auto(translated@, max_rounds),
            r.0.next_number() == number_after(
                0,
                opening_notes(translated@.context).len(),
            ),
            emitted_of(r.1@) == numbered(opening_notes(translated@.context), 0),
    {
        let mut sequence_number: u64 = 0;
        let events = open_stream(&translated.context, &mut sequence_number);
        (
            AutoSession {
                context: translated.context.clone(),
                payload: translated.upstream_payload.clone(),
                current: AssistantTurn::default(),
                last: AssistantTurn::default(),
                usage: empty_usage(),
                rounds_left: max_rounds,
                made: 0,
                end: None,
                sequence_number,
            },
            events,
        )
    }

    /// Begins a round; whether there is one.
    pub fn begin_round(&mut self) -> (more: bool)
        ensures
            more == (begun(old(self)@) is Some),
            final(self)@ == (match begun(old(self)@) {
                Some(a) => a,
                None => old(self)@,
            }),
            final(self).next_number() == old(self).next_number(),
    {
        if self.end.is_some() || self.rounds_left == 0 {
            return false;
        }
        self.rounds_left = self.rounds_left - 1;
        true
    }

    /// Takes in what came of a round's answer; the calls that are to be run.
    pub fn take_round(
        &mut self,
        executor: &ToolExecutor,
        round: Result<StreamRoundOutcome, ProxyError>,
    ) -> (calls: Option<Vec<ToolCall>>)
        requires
            round matches Err(e) ==> e@.has_status(),
        ensures
            ({
                let (after, chosen) = after_round(
                    old(self)@,
                    executor.tool_names(),
                    outcome(round),
                );
                &&& final(self)@ == after
                &&& match calls {
                    Some(c) => chosen == Some(calls_of(c@)),
                    None => chosen is None,
                }
            }),
            final(self).next_number() == old(self).next_number(),
    {
        match round {
            Err(e) => {
                self.end = Some(AnswerEnd::Failed(e.message()));
                None
            },
            Ok(StreamRoundOutcome::Failed(m)) => {
                self.end = Some(AnswerEnd::Failed(m));
                None
            },
            Ok(StreamRoundOutcome::Cancelled) => {
                self.end = Some(AnswerEnd::Cancelled);
                None
            },
            Ok(StreamRoundOutcome::Completed { turn, usage }) => {
                merge_usage(&mut self.usage, &usage);
                let limit = self.context.max_tool_calls;
                let calls = choose_calls(&turn, executor, limit, &mut self.made);
                match &calls {
                    Some(c) => {
                        assert(calls_of(c@).len() == c@.len());
                        self.current = turn;
                    },
                    None => {
                        self.last = turn;
                        self.end = Some(AnswerEnd::Completed);
                    },
                }
                calls
            },
        }
    }

    /// Takes in the outcomes of a round's calls.
    pub fn take_outputs(
        &mut self,
        calls: &Vec<ToolCall>,
        outputs: Result<Option<Vec<ToolOutput>>, ProxyError>,
    )
        requires
            outputs matches Err(e) ==> e@.has_status(),
        ensures
            final(self)@ == after_outputs(
                old(self)@,
                calls_of(calls@),
                outputs_outcome(outputs),
            ),
            final(self).next_number() == old(self).next_number(),
    {
        let appended = match outputs {
            Err(e) => {
                self.end = Some(AnswerEnd::Failed(e.message()));
                return;
            },
            Ok(None) => false,
            Ok(Some(o)) => append_round(
                &mut self.payload,
                calls,
                &o,
                self.current.reasoning.as_str(),
            ),
        };
        if !appended {
            self.last = self.current.clone();
            self.end = Some(AnswerEnd::Completed);
        }
    }

    /// Whether the end is known.
    pub fn is_over(&self) -> (b: bool)
        ensures
            b == (self@.end is Some),
    {
        self.end.is_some()
    }

    /// The request was cancelled between two rounds.
    pub fn cancel(&mut self)
        ensures
            final(self)@ == (Auto { end: Some(End::Cancelled), ..old(self)@ }),
            final(self).next_number() == old(self).next_number(),
    {
        self.end = Some(AnswerEnd::Cancelled);
    }

    /// The next chat request could not be sent.
    pub fn fail(&mut self, error: &ProxyError)
        requires
            error@.has_status(),
        ensures
            final(self)@ == (Auto { end: Some(End::Failed(error@.message())), ..old(self)@ }),
            final(self).next_number() == old(self).next_number(),
    {
        self.end = Some(AnswerEnd::Failed(error.message()));
    }

    /// The chat request to send.
    pub fn payload(&self) -> (payload: &JsonValue)
        ensures
            payload@ == self@.payload,
    {
        &self.payload
    }

    /// Ends the answer. A request whose rounds are used up is complete as it is.
    pub fn close(&self, now: i64) -> (closed: ClosedStream)
        ensures
            ({
                let a = self@;
                let end = match a.end {
                    Some(e) => e,
                    None => End::Completed,
                };
                &&& closed.end@ == end
                &&& closed.response@ == end_response(a.context, a.last, a.usage, end, now)
                &&& emitted_of(closed.events@) == numbered(
                    closing_notes(a.context, a.last, a.usage, end, now),
                    self.next_number(),
                )
            }),
    {
        let end = match &self.end {
            Some(AnswerEnd::Cancelled) => AnswerEnd::Cancelled,
            Some(AnswerEnd::Failed(m)) => AnswerEnd::Failed(m.clone()),
            _ => AnswerEnd::Completed,
        };
        let mut sequence_number = self.sequence_number;
        close_stream(
            &self.context,
            &self.last,
            self.usage.clone(),
            end,
            now,
            &mut sequence_number,
        )
    }
}

/// What the client is sent of an answer with rounds of tool calls, at its beginning and at
/// its end, is a whole stream, whatever came of the rounds.
pub proof fn law_streams_with_rounds_are_whole(
    context: Context,
    turn: Turn,
    usage: Json,
    end: End,
    now: i64,
)
    ensures
        is_whole_stream(
            numbered(opening_notes(context), 0) + numbered(
                closing_notes(context, turn, usage, end, now),
                number_after(0, opening_notes(context).len()),
            ),
            end,
        ),
{
    let opening = opening_notes(context);
    let closing = closing_notes(context, turn, usage, end, now);
    let none = Seq::<Note>::empty();
    law_numbering_goes_on(opening, closing, 0);
    assert(opening + none =~= opening);
    lemma_whole_stream(context, none, turn, usage, end, now);
}

/// The usage of a run without a stream, after answers with the given reports: the first one
/// begins the run, and each further one is taken in.
pub open spec fn usage_after(reports: Seq<Option<Json>>) -> Json
    decreases reports.len(),
{
    if reports.len() <= 1 {
        first_run(Json::Null, no_turn(), reports[0], 0).usage
    } else {
        after_answer(
            Run { usage: usage_after(reports.drop_last()), ..idle_run() },
            no_turn(),
            reports.last(),
        ).usage
    }
}

/// A run in which nothing happened.
pub open spec fn idle_run() -> Run {
    first_run(Json::Null, no_turn(), None, 0)
}

/// The usage of a run depends on nothing but the reports of its answers: neither choosing
/// calls nor what was said changes it.
pub proof fn law_only_answers_change_the_usage(
    run: Run,
    payload: Json,
    turn: Turn,
    report: Option<Json>,
    rounds: u32,
    names: Set<Seq<char>>,
    limit: Option<u32>,
)
    ensures
        next_round(run, names, limit).0.usage == run.usage,
        next_round(run, names, limit).0.turn == run.turn,
        next_round(run, names, limit).0.payload == run.payload,
        first_run(payload, turn, report, rounds).usage == usage_after(seq![report]),
        first_run(payload, turn, report, rounds).turn == turn,
        first_run(payload, turn, report, rounds).payload == payload,
        after_answer(run, turn, report).usage == after_answer(
            Run { usage: run.usage, ..idle_run() },
            no_turn(),
            report,
        ).usage,
        after_answer(run, turn, report).turn == turn,
        after_answer(run, turn, report).payload == run.payload,
{
}

/// The sums of the counts that upstreams report. The total is the first one's, and grows by
/// the input and the output of the others.
pub open spec fn counts_over(reports: Seq<Option<Json>>) -> (int, int, int, int, int)
    decreases reports.len(),
{
    let last = reported(reports.last());
    if reports.len() <= 1 {
        let only = reported(reports[0]);
        (
            only.input as int,
            only.output as int,
            only.cached as int,
            only.reasoning as int,
            only.total as int,
        )
    } else {
        let had = counts_over(reports.drop_last());
        (
            had.0 + last.input,
            had.1 + last.output,
            had.2 + last.cached,
            had.3 + last.reasoning,
            had.4 + last.input + last.output,
        )
    }
}

/// Whether all of these sums lie within the machine's range.
pub open spec fn counts_fit(c: (int, int, int, int, int)) -> bool {
    c.0 <= u64::MAX && c.1 <= u64::MAX && c.2 <= u64::MAX && c.3 <= u64::MAX && c.4 <= u64::MAX
}

/// The tokens of all answers of a run are counted: its usage shows the sums of what the
/// upstream reported with each of them.
pub proof fn law_usage_adds_up_over_a_run(reports: Seq<Option<Json>>)
    requires
        reports.len() > 0,
        counts_fit(counts_over(reports)),
    ensures
        ({
            let sums = counts_over(reports);
            shows(
                usage_after(reports),
                Usage {
                    input: sums.0 as u64,
                    output: sums.1 as u64,
                    cached: sums.2 as u64,
                    reasoning: sums.3 as u64,
                    total: sums.4 as u64,
                },
            )
        }),
{
    lemma_usage_over(reports);
    let sums = counts_over(reports);
    law_counts_are_shown(
        Usage {
            input: sums.0 as u64,
            output: sums.1 as u64,
            cached: sums.2 as u64,
            reasoning: sums.3 as u64,
            total: sums.4 as u64,
        },
    );
}

proof fn lemma_usage_over(reports: Seq<Option<Json>>)
    requires
        reports.len() > 0,
        counts_fit(counts_over(reports)),
    ensures
        counts_over(reports).0 >= 0,
        counts_over(reports).1 >= 0,
        counts_over(reports).2 >= 0,
        counts_over(reports).3 >= 0,
        counts_over(reports).4 >= 0,
        usage_after(reports) == usage_value(
            (Usage {
                input: counts_over(reports).0 as u64,
                output: counts_over(reports).1 as u64,
                cached: counts_over(reports).2 as u64,
                reasoning: counts_over(reports).3 as u64,
                total: counts_over(reports).4 as u64,
            }),
        ),
    decreases reports.len(),
{
    if reports.len() == 1 {
        assert(upstream_usage(reports[0]) == reported(reports[0]));
    } else {
        let had = reports.drop_last();
        lemma_usage_over(had);
        let sums = counts_over(had);
        let before = Usage {
            input: sums.0 as u64,
            output: sums.1 as u64,
            cached: sums.2 as u64,
            reasoning: sums.3 as u64,
            total: sums.4 as u64,
        };
        law_merged_counts_are_sums(before, reports.last());
    }
}

/// The tokens of a streamed round are counted, whatever becomes of its calls; rounds that
/// come to nothing leave the counts alone.
pub proof fn law_rounds_add_their_usage(
    a: Auto,
    names: Set<Seq<char>>,
    round: Result<RoundOutcome, Failure>,
    had: Usage,
    report: Option<Json>,
)
    requires
        a.usage == usage_value(had),
        fit_together(had, reported(report)),
        round matches Ok(RoundOutcome::Completed { turn: _, usage }) ==> usage == usage_value(
            upstream_usage(report),
        ),
    ensures
        round matches Ok(RoundOutcome::Completed { turn: _, usage: _ }) ==> shows(
            after_round(a, names, round).0.usage,
            added(had, reported(report)),
        ),
        !(round matches Ok(RoundOutcome::Completed { turn: _, usage: _ })) ==> after_round(
            a,
            names,
            round,
        ).0.usage == a.usage,
        forall|calls: Seq<Call>, outputs: Result<Option<Seq<Output>>, Failure>|
            (#[trigger] after_outputs(a, calls, outputs)).usage == a.usage,
{
    law_merged_counts_are_sums(had, report);
}

/// All calls for local tools are run, in their order: a round has exactly those calls of the
/// turn, as long as a round is left and the limit is kept.
pub proof fn law_all_local_calls_are_run(run: Run, names: Set<Seq<char>>, limit: Option<u32>)
    ensures
        ({
            let wanted = run.turn.calls.filter(|c: Call| names.contains(c.name));
            let (after, chosen) = next_round(run, names, limit);
            &&& run.rounds_left > 0 && wanted.len() > 0 && limit is None ==> chosen == Some(wanted)
            &&& run.rounds_left > 0 && wanted.len() > 0 && (limit matches Some(l) && run.made
                + wanted.len() <= l) ==> chosen == Some(wanted) && after.made == run.made
                + wanted.len()
            &&& wanted.len() == 0 ==> chosen is None
            &&& chosen is None ==> after == run
        }),
{
    let wanted = run.turn.calls.filter(|c: Call| names.contains(c.name));
    lemma_supported_filter(run.turn.calls, names);
}

proof fn lemma_supported_filter(calls: Seq<Call>, names: Set<Seq<char>>)
    ensures
        supported_of(calls, names) == calls.filter(|c: Call| names.contains(c.name)),
    decreases calls.len(),
{
    reveal(Seq::filter);
    if calls.len() > 0 {
        lemma_supported_filter(calls.drop_last(), names);
    }
}

/// Whether a message is the one of the assistant that makes the calls of a round.
pub open spec fn makes_calls(message: Json, calls: Seq<Call>, reasoning: Seq<char>) -> bool {
    &&& message.get("role"@) == Some(Json::Text("assistant"@))
    &&& message.get("content"@) == Some(Json::Null)
    &&& message.get("reasoning_content"@) == (if reasoning.len() > 0 {
        Some(Json::Text(reasoning))
    } else {
        None
    })
    &&& message.get("tool_calls"@) matches Some(Json::Array(entries))
    &&& entries.len() == calls.len()
    &&& forall|i: int|
        0 <= i < entries.len() ==> {
            let entry = #[trigger] entries[i];
            &&& entry.get("id"@) == Some(Json::Text(calls[i].call_id))
            &&& entry.get("type"@) == Some(Json::Text("function"@))
            &&& entry.get("function"@) matches Some(f)
            &&& f.get("name"@) == Some(Json::Text(calls[i].name))
            &&& f.get("arguments"@) == Some(Json::Text(calls[i].arguments))
        }
}

/// A round goes on with the conversation: behind what was said stand the message that makes
/// the calls, and one message for each call with the output that came for it. The rest of
/// the request stays.
pub proof fn law_rounds_go_on_with_the_conversation(
    payload: Json,
    said: Seq<Json>,
    calls: Seq<Call>,
    outputs: Seq<Output>,
    reasoning: Seq<char>,
    key: Seq<char>,
)
    requires
        payload.get("messages"@) == Some(Json::Array(said)),
    ensures
        ({
            &&& payload_with_round(payload, calls, outputs, reasoning) matches Some(after)
            &&& key != "messages"@ ==> after.get(key) == payload.get(key)
            &&& after.get("messages"@) matches Some(Json::Array(messages))
            &&& messages.len() == said.len() + 1 + calls.len()
            &&& messages.take(said.len() as int) == said
            &&& makes_calls(messages[said.len() as int], calls, reasoning)
            &&& forall|i: int|
                0 <= i < calls.len() ==> {
                    let answer = #[trigger] messages[said.len() + 1 + i];
                    &&& answer.get("role"@) == Some(Json::Text("tool"@))
                    &&& answer.get("tool_call_id"@) == Some(Json::Text(calls[i].call_id))
                    &&& answer.get("content"@) matches Some(Json::Text(_))
                }
            &&& forall|i: int, j: int|
                0 <= i < calls.len() && 0 <= j < outputs.len() && outputs[j].call_id
                    == calls[i].call_id && (forall|k: int|
                    j < k < outputs.len() ==> (#[trigger] outputs[k]).call_id != calls[i].call_id)
                    ==> (#[trigger] messages[said.len() + 1 + i]).get("content"@) == Some(
                    Json::Text((#[trigger] outputs[j]).output),
                )
        }),
{
    reveal_strlit("messages");
    reveal_strlit("role");
    reveal_strlit("content");
    reveal_strlit("tool_calls");
    reveal_strlit("tool_call_id");
    reveal_strlit("reasoning_content");
    reveal_strlit("id");
    reveal_strlit("type");
    reveal_strlit("function");
    reveal_strlit("name");
    reveal_strlit("arguments");
    assert("messages"@.len() == 8);
    assert("role"@.len() == 4);
    assert("content"@.len() == 7);
    assert("tool_calls"@.len() == 10);
    assert("tool_call_id"@.len() == 12);
    assert("reasoning_content"@.len() == 17);
    assert("id"@.len() == 2);
    assert("type"@.len() == 4);
    assert("function"@.len() == 8);
    assert("name"@.len() == 4);
    assert("arguments"@.len() == 9);
    assert("messages"@[0] == 'm');
    assert("function"@[0] == 'f');
    assert("role"@[0] == 'r');
    assert("type"@[0] == 't');
    assert("name"@[0] == 'n');
    let after = payload_with_round(payload, calls, outputs, reasoning)->0;
    let message = reasoned_calls(calls, reasoning);
    let answers = tool_messages(calls, outputs);
    let messages = said.push(message) + answers;
    assert(after.get("messages"@) == Some(Json::Array(messages)));
    assert(messages.take(said.len() as int) =~= said);
    assert(messages[said.len() as int] == message);
    assert(makes_calls(message, calls, reasoning));
    assert forall|i: int| 0 <= i < calls.len() implies #[trigger] messages[said.len() + 1 + i]
        == answers[i] by {}
    assert forall|i: int, j: int|
        0 <= i < calls.len() && 0 <= j < outputs.len() && outputs[j].call_id == calls[i].call_id
            && (forall|k: int|
            j < k < outputs.len() ==> (#[trigger] outputs[k]).call_id != calls[i].call_id) implies (
    #[trigger] messages[said.len() + 1 + i]).get("content"@) == Some(
        Json::Text((#[trigger] outputs[j]).output),
    ) by {
        lemma_output_for(outputs, calls[i].call_id, j);
    }
}

/// The output for a call is the last one that came under its identifier.
proof fn lemma_output_for(outputs: Seq<Output>, call_id: Seq<char>, j: int)
    requires
        0 <= j < outputs.len(),
        outputs[j].call_id == call_id,
        forall|k: int| j < k < outputs.len() ==> (#[trigger] outputs[k]).call_id != call_id,
    ensures
        output_for(outputs, call_id) == outputs[j].output,
    decreases outputs.len(),
{
    if j < outputs.len() - 1 {
        assert(outputs[outputs.len() - 1].call_id != call_id);
        let had = outputs.drop_last();
        assert(forall|k: int| 0 <= k < had.len() ==> #[trigger] had[k] == outputs[k]);
        lemma_output_for(had, call_id, j);
    }
}

/// A function runs here if there is a local tool of its name, wherever that name stands.
pub proof fn law_local_tools_are_told_by_name(
    tool: Json,
    f: Json,
    name: Seq<char>,
    names: Set<Seq<char>>,
)
    ensures
        tool.get("type"@) == Some(Json::Text("function"@)) && tool.get("function"@) == Some(f)
            && f.get("name"@) == Some(Json::Text(name)) ==> (runs_locally(tool, names)
            <==> names.contains(name)),
        tool.get("type"@) == Some(Json::Text("function"@)) && tool.get("function"@) is None
            && tool.get("name"@) == Some(Json::Text(name)) ==> (runs_locally(tool, names)
            <==> names.contains(name)),
        tool.get("type"@) != Some(Json::Text("function"@)) ==> !runs_locally(tool, names),
{
}

/// An answer takes the place of the turn before it, and leaves the request and what is
/// left of the rounds alone.
pub proof fn law_answers_take_the_place_of_the_turn(
    run: Run,
    turn: Turn,
    usage: Option<Json>,
    payload: Json,
    rounds: u32,
)
    ensures
        after_answer(run, turn, usage).turn == turn,
        after_answer(run, turn, usage).payload == run.payload,
        after_answer(run, turn, usage).made == run.made,
        first_run(payload, turn, usage, rounds).turn == turn,
        first_run(payload, turn, usage, rounds).payload == payload,
        first_run(payload, turn, usage, rounds).rounds_left == rounds,
        first_run(payload, turn, usage, rounds).made == 0,
        shows(first_run(payload, turn, usage, rounds).usage, reported(usage)),
{
    law_reported_counts_are_shown(usage);
}

/// A round of a stream ends as its answer does: an answer that was read to its end is
/// complete, with its turn and its tokens; one that broke off has failed; one that cannot
/// be read is an error.
pub proof fn law_rounds_end_as_their_answers(ending: Ending, turn: Turn, usage: Json)
    ensures
        ending is Finished ==> round_outcome(ending, turn, usage) == Ok::<RoundOutcome, Failure>(
            RoundOutcome::Completed { turn, usage },
        ),
        ending is Cancelled ==> round_outcome(ending, turn, usage) == Ok::<RoundOutcome, Failure>(
            RoundOutcome::Cancelled,
        ),
        ending matches Ending::Broken(m) ==> round_outcome(ending, turn, usage) == Ok::<
            RoundOutcome,
            Failure,
        >(RoundOutcome::Failed(m)),
        ending matches Ending::Unreadable(m) ==> round_outcome(ending, turn, usage) == Err::<
            RoundOutcome,
            Failure,
        >(Failure::BadRequest(m)),
{
}

/// A stream with rounds begins with the request, with all its rounds and with no tokens
/// counted. A round begins as long as there is one left and the stream has not ended.
pub proof fn law_rounds_begin_while_some_are_left(t: Translation, rounds: u32, a: Auto)
    ensures
        first_auto(t, rounds).context == t.context,
        first_auto(t, rounds).payload == t.upstream_payload,
        first_auto(t, rounds).rounds_left == rounds,
        first_auto(t, rounds).made == 0,
        first_auto(t, rounds).end is None,
        shows(first_auto(t, rounds).usage, reported(None)),
        begun(a) is Some <==> a.end is None && a.rounds_left > 0,
        begun(a) matches Some(b) ==> b == (Auto {
            rounds_left: (a.rounds_left - 1) as u32,
            ..a
        }),
{
    law_reported_counts_are_shown(None);
}

/// A round that made calls for local tools, no more than allowed, has them all run; one
/// that made none is the last, and so is one that made too many. A round that failed or
/// was cancelled ends the stream so.
pub proof fn law_rounds_decide_how_a_stream_goes_on(
    a: Auto,
    names: Set<Seq<char>>,
    turn: Turn,
    usage: Json,
    e: Failure,
    m: Seq<char>,
)
    ensures
        ({
            let wanted = turn.calls.filter(|c: Call| names.contains(c.name));
            let (after, calls) = after_round(
                a,
                names,
                Ok(RoundOutcome::Completed { turn, usage }),
            );
            let allowed = match a.context.max_tool_calls {
                None => true,
                Some(l) => a.made + wanted.len() <= l,
            };
            &&& wanted.len() > 0 && allowed ==> calls == Some(wanted) && after.current == turn
                && after.end == a.end
            &&& wanted.len() == 0 ==> calls is None && after.last == turn && after.end == Some(
                End::Completed,
            )
            &&& wanted.len() > 0 && a.made + wanted.len() <= u32::MAX && !allowed ==> calls is None
                && after.last == turn && after.end == Some(End::Completed)
            &&& after.payload == a.payload
            &&& after.context == a.context
        }),
        after_round(a, names, Err(e)).0.end == Some(End::Failed(e.message())),
        after_round(a, names, Err(e)).1 is None,
        after_round(a, names, Ok(RoundOutcome::Failed(m))).0.end == Some(End::Failed(m)),
        after_round(a, names, Ok(RoundOutcome::Failed(m))).1 is None,
        after_round(a, names, Ok(RoundOutcome::Cancelled)).0.end == Some(End::Cancelled),
        after_round(a, names, Ok(RoundOutcome::Cancelled)).1 is None,
{
    lemma_supported_filter(turn.calls, names);
}

/// The outputs of the calls go upstream in the next round; where there are none the stream
/// is complete with the turn that made the calls, and where they failed it has failed.
pub proof fn law_outputs_go_into_the_next_round(
    a: Auto,
    calls: Seq<Call>,
    outputs: Seq<Output>,
    e: Failure,
)
    ensures
        payload_with_round(a.payload, calls, outputs, a.current.reasoning) matches Some(payload)
            ==> after_outputs(a, calls, Ok(Some(outputs))) == (Auto { payload, ..a }),
        after_outputs(a, calls, Ok(None)).end == Some(End::Completed),
        after_outputs(a, calls, Ok(None)).last == a.current,
        after_outputs(a, calls, Err(e)).end == Some(End::Failed(e.message())),
{
}

/// The outputs of calls go into the request of a run, behind the turn that made the calls
/// and with its reasoning; the rest of the run stays as it is. A run ends with its last
/// turn, with the tokens of all its rounds, and with the messages that were sent.
pub proof fn law_runs_go_on_with_the_outputs(
    run: Run,
    calls: Seq<Call>,
    outputs: Seq<Output>,
    said: Seq<Json>,
    kept: Seq<Json>,
)
    requires
        run.payload.get("messages"@) == Some(Json::Array(said)),
    ensures
        with_outputs(run, calls, None) is None,
        with_outputs(run, calls, Some(outputs)) matches Some(after) && {
            &&& Some(after.payload) == payload_with_round(
                run.payload,
                calls,
                outputs,
                run.turn.reasoning,
            )
            &&& after.turn == run.turn
            &&& after.usage == run.usage
            &&& after.rounds_left == run.rounds_left
            &&& after.made == run.made
        },
        execution_of(run, None).turn == run.turn,
        execution_of(run, None).usage == run.usage,
        execution_of(run, None).request_messages == said,
        execution_of(run, Some(kept)).request_messages == kept,
        execution_of(run, Some(kept)).turn == run.turn,
        execution_of(run, Some(kept)).usage == run.usage,
{
}

} // verus!

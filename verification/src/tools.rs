//! Running local tools for the calls of a turn.

use crate::codec::{display, displayed_json, encode, encoded_json, parse, parsed_json};
use crate::config::{LocalToolSettings, Settings};
use crate::conversation::{
    calling_message, push_value, tool_message, tool_message_value, with_member,
};
use crate::error::{outcome, Failure, ProxyError};
use crate::json::{array_of, copy_value, object, Json, JsonValue};
use crate::normalize::refused;
use crate::text::{
    concat, concat3, from_utf8_lossy, is_blank, lossy_text, same_text, trim, trimmed,
};
use crate::turn::{call_entries, call_entry_values, calls_of, Call, ToolCall};
use std::sync::Arc;
use vstd::prelude::*;
use vstd::string::*;

verus! {

/// The local tools of the proxy.
#[derive(Debug)]
pub struct ToolExecutor {
    pub settings: Arc<Settings>,
}

/// The output of a tool.
#[derive(Debug, PartialEq)]
pub struct ToolOutput {
    pub call_id: String,
    pub output: String,
}

/// What a [`ToolOutput`] stands for.
#[verifier::ext_equal]
pub struct Output {
    pub call_id: Seq<char>,
    pub output: Seq<char>,
}

impl View for ToolOutput {
    type V = Output;

    open spec fn view(&self) -> Output {
        Output { call_id: self.call_id@, output: self.output@ }
    }
}

/// What a sequence of outputs stands for.
pub open spec fn outputs_of(outputs: Seq<ToolOutput>) -> Seq<Output> {
    Seq::new(outputs.len(), |i: int| outputs[i]@)
}

/// An object without members.
pub open spec fn empty_object() -> Json {
    Json::Object(Map::empty())
}

/// The arguments that a call was made with: JSON, or nothing at all.
pub open spec fn call_arguments(raw: Seq<char>) -> Result<Json, Failure> {
    if trimmed(raw).len() == 0 {
        Ok(empty_object())
    } else {
        match parsed_json(raw) {
            Ok(v) => Ok(v),
            Err(e) => refused("tool arguments must be valid JSON: "@ + e),
        }
    }
}

/// Takes over the arguments of a call once they have been read as JSON.
pub fn accept_arguments(parsed: Result<JsonValue, String>) -> (r: Result<JsonValue, ProxyError>)
    ensures
        match parsed {
            Ok(v) => outcome(r) == Ok::<Json, Failure>(v@),
            Err(e) => outcome(r) == refused::<Json>("tool arguments must be valid JSON: "@ + e@),
        },
{
    match parsed {
        Ok(v) => Ok(v),
        Err(e) => Err(
            ProxyError::BadRequest(concat("tool arguments must be valid JSON: ", e.as_str())),
        ),
    }
}

/// Reads the arguments of a call.
pub fn parse_arguments(raw: &str) -> (r: Result<JsonValue, ProxyError>)
    ensures
        outcome(r) == call_arguments(raw@),
{
    if is_blank(raw) {
        return Ok(JsonValue::Object(object()));
    }
    accept_arguments(parse(raw))
}

/// What a tool is told on its standard input.
pub open spec fn stdin_value(name: Seq<char>, call_id: Seq<char>, arguments: Json) -> Json {
    Json::Object(
        map![
            "name"@ => Json::Text(name),
            "call_id"@ => Json::Text(call_id),
            "arguments"@ => arguments,
        ],
    )
}

/// What a tool is told on its standard input, where it is told anything.
pub fn build_stdin_payload(
    tool: &LocalToolSettings,
    name: &str,
    call_id: &str,
    arguments: &JsonValue,
) -> (payload: Option<String>)
    ensures
        payload.deep_view() == (if tool.stdin_json {
            Some(displayed_json(stdin_value(name@, call_id@, arguments@)))
        } else {
            None
        }),
{
    if !tool.stdin_json {
        return None;
    }
    let value = JsonValue::Object(
        object().with("name", JsonValue::text(name)).with(
            "call_id",
            JsonValue::text(call_id),
        ).with("arguments", copy_value(arguments)),
    );
    Some(display(&value))
}

/// The output of a tool that speaks JSON, in compact form.
pub open spec fn json_output(stdout: Seq<char>) -> Result<Seq<char>, Failure> {
    if trimmed(stdout).len() == 0 {
        Ok(displayed_json(empty_object()))
    } else {
        match parsed_json(stdout) {
            Err(e) => refused("local tool output must be valid JSON: "@ + e),
            Ok(v) => match encoded_json(v) {
                Ok(s) => Ok(s),
                Err(e) => Err(
                    Failure::Internal("failed to serialize local tool output: "@ + e),
                ),
            },
        }
    }
}

/// Takes over the output of a tool once it has been read as JSON.
pub fn accept_json_output(parsed: Result<JsonValue, String>) -> (r: Result<JsonValue, ProxyError>)
    ensures
        match parsed {
            Ok(v) => outcome(r) == Ok::<Json, Failure>(v@),
            Err(e) => outcome(r) == refused::<Json>(
                "local tool output must be valid JSON: "@ + e@,
            ),
        },
{
    match parsed {
        Ok(v) => Ok(v),
        Err(e) => Err(
            ProxyError::BadRequest(concat("local tool output must be valid JSON: ", e.as_str())),
        ),
    }
}

/// The output of a tool that speaks JSON, in compact form.
pub fn normalize_tool_json_output(stdout: &str) -> (r: Result<String, ProxyError>)
    ensures
        outcome(r) == json_output(stdout@),
{
    if is_blank(stdout) {
        return Ok(display(&JsonValue::Object(object())));
    }
    let value = match accept_json_output(parse(stdout)) {
        Ok(v) => v,
        Err(e) => return Err(e),
    };
    match encode(&value) {
        Ok(s) => Ok(s),
        Err(e) => Err(
            ProxyError::Internal(concat("failed to serialize local tool output: ", e.as_str())),
        ),
    }
}

/// How a run of a tool ended.
#[derive(Debug)]
pub enum ToolExit {
    SpawnFailed(String),
    StdinUnavailable,
    StdinWriteFailed(String),
    StdinFlushFailed(String),
    TimedOut,
    WaitFailed(String),
    Exited { success: bool, status: String, stdout: Vec<u8>, stderr: Vec<u8> },
}

/// A message about a tool.
pub open spec fn about_tool(head: Seq<char>, name: Seq<char>, tail: Seq<char>) -> Seq<char> {
    head + name + tail
}

/// What a tool that printed nothing is taken to have answered.
pub open spec fn silent_answer(call: Call, arguments: Json) -> Json {
    Json::Object(
        map![
            "ok"@ => Json::Bool(true),
            "tool"@ => Json::Text(call.name),
            "call_id"@ => Json::Text(call.call_id),
            "arguments"@ => arguments,
        ],
    )
}

/// What comes of a tool that ran to its end.
pub open spec fn finished_run(
    call: Call,
    output_json: bool,
    arguments: Json,
    success: bool,
    status: Seq<char>,
    stdout: Seq<u8>,
    stderr: Seq<u8>,
) -> Result<Seq<char>, Failure> {
    let out = trimmed(lossy_text(stdout));
    let err = trimmed(lossy_text(stderr));
    if !success {
        if err.len() == 0 {
            refused(about_tool("local tool `"@, call.name, "` exited with status "@) + status)
        } else {
            refused(about_tool("local tool `"@, call.name, "` failed: "@) + err)
        }
    } else if output_json {
        json_output(out)
    } else if out.len() == 0 {
        Ok(displayed_json(silent_answer(call, arguments)))
    } else {
        Ok(out)
    }
}

/// What comes of a run of a tool.
pub open spec fn run_result(
    call: Call,
    output_json: bool,
    arguments: Json,
    exit: ToolExit,
) -> Result<Seq<char>, Failure> {
    match exit {
        ToolExit::SpawnFailed(e) => Err(
            Failure::Internal(about_tool("failed to spawn local tool `"@, call.name, "`: "@) + e@),
        ),
        ToolExit::StdinUnavailable => Err(
            Failure::Internal(
                about_tool("local tool `"@, call.name, "` stdin was not available"@),
            ),
        ),
        ToolExit::StdinWriteFailed(e) => Err(
            Failure::Internal(
                about_tool("failed to write stdin for local tool `"@, call.name, "`: "@) + e@,
            ),
        ),
        ToolExit::StdinFlushFailed(e) => Err(
            Failure::Internal(
                about_tool("failed to flush stdin for local tool `"@, call.name, "`: "@) + e@,
            ),
        ),
        ToolExit::TimedOut => refused(about_tool("local tool `"@, call.name, "` timed out"@)),
        ToolExit::WaitFailed(e) => Err(
            Failure::Internal(
                about_tool("failed to wait for local tool `"@, call.name, "`: "@) + e@,
            ),
        ),
        ToolExit::Exited { success, status, stdout, stderr } => finished_run(
            call,
            output_json,
            arguments,
            success,
            status@,
            stdout@,
            stderr@,
        ),
    }
}

fn internal(head: &str, name: &str, tail: &str, error: &str) -> (e: ProxyError)
    ensures
        e@ == Failure::Internal(about_tool(head@, name@, tail@) + error@),
{
    ProxyError::Internal(concat(concat3(head, name, tail).as_str(), error))
}

/// What a call is run with.
#[derive(Debug)]
pub struct Invocation {
    pub arguments: JsonValue,
    pub stdin_payload: Option<String>,
}

/// What an [`Invocation`] stands for.
#[verifier::ext_equal]
pub struct Prepared {
    pub arguments: Json,
    pub stdin_payload: Option<Seq<char>>,
}

impl View for Invocation {
    type V = Prepared;

    open spec fn view(&self) -> Prepared {
        Prepared { arguments: self.arguments@, stdin_payload: self.stdin_payload.deep_view() }
    }
}

/// What invocations stand for.
pub open spec fn prepared_of(runs: Seq<Invocation>) -> Seq<Prepared> {
    Seq::new(runs.len(), |i: int| runs[i]@)
}

/// What a call is run with; nothing where it is not for a local tool.
pub open spec fn prepared_call(call: Call, tools: Map<Seq<char>, LocalToolSettings>) -> Result<
    Option<Prepared>,
    Failure,
> {
    if !tools.contains_key(call.name) {
        Ok(None)
    } else {
        match call_arguments(call.arguments) {
            Err(e) => Err(e),
            Ok(arguments) => Ok(
                Some(
                    Prepared {
                        arguments,
                        stdin_payload: if tools[call.name].stdin_json {
                            Some(
                                displayed_json(stdin_value(call.name, call.call_id, arguments)),
                            )
                        } else {
                            None
                        },
                    },
                ),
            ),
        }
    }
}

/// What calls are run with, side by side; nothing where one of them is not for a local
/// tool. The first call that stands in the way decides.
pub open spec fn prepared_calls(
    calls: Seq<Call>,
    tools: Map<Seq<char>, LocalToolSettings>,
) -> Result<Option<Seq<Prepared>>, Failure>
    decreases calls.len(),
{
    if calls.len() == 0 {
        Ok(Some(Seq::empty()))
    } else {
        match prepared_calls(calls.drop_last(), tools) {
            Err(e) => Err(e),
            Ok(None) => Ok(None),
            Ok(Some(earlier)) => match prepared_call(calls.last(), tools) {
                Err(e) => Err(e),
                Ok(None) => Ok(None),
                Ok(Some(run)) => Ok(Some(earlier.push(run))),
            },
        }
    }
}

/// What comes of the runs of the first `n` calls: the output of each, or the first
/// failure.
pub open spec fn concluded_calls(
    calls: Seq<Call>,
    tools: Map<Seq<char>, LocalToolSettings>,
    runs: Seq<Prepared>,
    exits: Seq<ToolExit>,
    n: nat,
) -> Result<Seq<Output>, Failure>
    decreases n,
{
    if n == 0 {
        Ok(Seq::empty())
    } else {
        let i = n - 1;
        match concluded_calls(calls, tools, runs, exits, i as nat) {
            Err(e) => Err(e),
            Ok(earlier) => match run_result(
                calls[i],
                tools[calls[i].name].output_json,
                runs[i].arguments,
                exits[i],
            ) {
                Err(e) => Err(e),
                Ok(output) => Ok(earlier.push(Output { call_id: calls[i].call_id, output })),
            },
        }
    }
}

proof fn lemma_prepared_failure(
    calls: Seq<Call>,
    tools: Map<Seq<char>, LocalToolSettings>,
    i: int,
)
    requires
        0 <= i <= calls.len(),
        !(prepared_calls(calls.take(i), tools) matches Ok(Some(_))),
    ensures
        prepared_calls(calls, tools) == prepared_calls(calls.take(i), tools),
    decreases calls.len() - i,
{
    if i < calls.len() {
        assert(calls.take(i + 1).drop_last() =~= calls.take(i));
        lemma_prepared_failure(calls, tools, i + 1);
    } else {
        assert(calls.take(i) =~= calls);
    }
}

proof fn lemma_concluded_failure(
    calls: Seq<Call>,
    tools: Map<Seq<char>, LocalToolSettings>,
    runs: Seq<Prepared>,
    exits: Seq<ToolExit>,
    i: nat,
    n: nat,
)
    requires
        i <= n,
        concluded_calls(calls, tools, runs, exits, i) is Err,
    ensures
        concluded_calls(calls, tools, runs, exits, n) == concluded_calls(
            calls,
            tools,
            runs,
            exits,
            i,
        ),
    decreases n - i,
{
    if i < n {
        lemma_concluded_failure(calls, tools, runs, exits, i + 1, n);
    }
}

/// Prepares the run of a call: reads its arguments, and writes what the tool is told.
pub fn prepare_call(tool_call: &ToolCall, tool: &LocalToolSettings) -> (r: Result<
    Invocation,
    ProxyError,
>)
    ensures
        match r {
            Ok(run) => call_arguments(tool_call@.arguments) == Ok::<Json, Failure>(
                run.arguments@,
            ) && run.stdin_payload.deep_view() == (if tool.stdin_json {
                Some(
                    displayed_json(
                        stdin_value(tool_call@.name, tool_call@.call_id, run.arguments@),
                    ),
                )
            } else {
                None
            }),
            Err(e) => call_arguments(tool_call@.arguments) == Err::<Json, Failure>(e@),
        },
{
    let arguments = match parse_arguments(tool_call.arguments.as_str()) {
        Ok(v) => v,
        Err(e) => return Err(e),
    };
    let stdin_payload = build_stdin_payload(
        tool,
        tool_call.name.as_str(),
        tool_call.call_id.as_str(),
        &arguments,
    );
    Ok(Invocation { arguments, stdin_payload })
}

fn conclude_exit(
    tool_call: &ToolCall,
    tool: &LocalToolSettings,
    arguments: &JsonValue,
    success: bool,
    status: &str,
    stdout: &Vec<u8>,
    stderr: &Vec<u8>,
) -> (r: Result<String, ProxyError>)
    ensures
        outcome(r) == finished_run(
            tool_call@,
            tool.output_json,
            arguments@,
            success,
            status@,
            stdout@,
            stderr@,
        ),
{
    let name = tool_call.name.as_str();
    let out = trim(from_utf8_lossy(stdout).as_str());
    let err = trim(from_utf8_lossy(stderr).as_str());
    if !success {
        let message = if err.as_str().is_empty() {
            concat(concat3("local tool `", name, "` exited with status ").as_str(), status)
        } else {
            concat(concat3("local tool `", name, "` failed: ").as_str(), err.as_str())
        };
        return Err(ProxyError::BadRequest(message));
    }
    if tool.output_json {
        normalize_tool_json_output(out.as_str())
    } else if out.as_str().is_empty() {
        let answer = JsonValue::Object(
            object().with("ok", JsonValue::Bool(true)).with("tool", JsonValue::text(name)).with(
                "call_id",
                JsonValue::Text(tool_call.call_id.clone()),
            ).with("arguments", copy_value(arguments)),
        );
        Ok(display(&answer))
    } else {
        Ok(out)
    }
}

/// What comes of a run of a tool.
pub fn conclude_call(
    tool_call: &ToolCall,
    tool: &LocalToolSettings,
    arguments: &JsonValue,
    exit: &ToolExit,
) -> (r: Result<ToolOutput, ProxyError>)
    ensures
        outcome(r) == (match run_result(tool_call@, tool.output_json, arguments@, *exit) {
            Ok(output) => Ok::<Output, Failure>(
                (Output { call_id: tool_call@.call_id, output }),
            ),
            Err(e) => Err(e),
        }),
{
    let name = tool_call.name.as_str();
    match exit {
        ToolExit::SpawnFailed(e) => Err(
            internal("failed to spawn local tool `", name, "`: ", e.as_str()),
        ),
        ToolExit::StdinUnavailable => Err(
            ProxyError::Internal(concat3("local tool `", name, "` stdin was not available")),
        ),
        ToolExit::StdinWriteFailed(e) => Err(
            internal("failed to write stdin for local tool `", name, "`: ", e.as_str()),
        ),
        ToolExit::StdinFlushFailed(e) => Err(
            internal("failed to flush stdin for local tool `", name, "`: ", e.as_str()),
        ),
        ToolExit::TimedOut => Err(
            ProxyError::BadRequest(concat3("local tool `", name, "` timed out")),
        ),
        ToolExit::WaitFailed(e) => Err(
            internal("failed to wait for local tool `", name, "`: ", e.as_str()),
        ),
        ToolExit::Exited { success, status, stdout, stderr } => match conclude_exit(
            tool_call,
            tool,
            arguments,
            *success,
            status.as_str(),
            stdout,
            stderr,
        ) {
            Ok(output) => Ok(ToolOutput { call_id: tool_call.call_id.clone(), output }),
            Err(e) => Err(e),
        },
    }
}

/// What is to be done next for a list of calls.
#[derive(Debug)]
pub enum CallStep {
    /// There is nothing to run, or the next call is not for a local tool.
    Unsupported,
    /// All calls have been run.
    Done,
    /// The next call is to be run.
    Run(Invocation),
}

impl ToolExecutor {
    pub fn new(settings: Arc<Settings>) -> (e: ToolExecutor)
        ensures
            e.settings == settings,
    {
        ToolExecutor { settings }
    }

    /// The names of the local tools.
    pub open spec fn tool_names(self) -> Set<Seq<char>> {
        self.settings.local_tools@.dom()
    }

    pub fn has_local_tools(&self) -> (b: bool)
        ensures
            b == (self.tool_names() != Set::<Seq<char>>::empty()),
    {
        let empty = self.settings.local_tools.is_empty();
        proof {
            let tools = self.settings.local_tools@;
            if tools.dom() =~= Set::empty() {
                assert(tools =~= Map::empty());
            }
        }
        !empty
    }

    pub fn supports_tool(&self, name: &str) -> (b: bool)
        ensures
            b == self.tool_names().contains(name@),
    {
        self.settings.local_tools.contains_key(name)
    }

    /// The calls among `calls` that are for local tools.
    pub fn supported_calls(&self, calls: &Vec<ToolCall>) -> (supported: Vec<ToolCall>)
        ensures
            calls_of(supported@) == supported_of(calls_of(calls@), self.tool_names()),
    {
        let ghost all = calls_of(calls@);
        let mut supported: Vec<ToolCall> = Vec::new();
        let mut i: usize = 0;
        assert(calls_of(supported@) =~= Seq::empty());
        assert(all.take(0) =~= Seq::empty());
        while i < calls.len()
            invariant
                i <= calls@.len(),
                all == calls_of(calls@),
                calls_of(supported@) == supported_of(all.take(i as int), self.tool_names()),
            decreases calls@.len() - i,
        {
            assert(all.take(i + 1).drop_last() =~= all.take(i as int));
            assert(all[i as int] == calls@[i as int]@);
            if self.supports_tool(calls[i].name.as_str()) {
                let ghost before = supported@;
                let call = calls[i].clone();
                supported.push(call);
                assert(calls_of(supported@) =~= calls_of(before).push(call@));
            }
            i += 1;
        }
        assert(all.take(i as int) =~= all);
        supported
    }

    /// What is to be done for a list of calls of which the first `done` have been run.
    /// Calls are run in order; a call that is not for a local tool ends the run.
    pub fn next_call(&self, calls: &Vec<ToolCall>, done: usize) -> (r: Result<
        CallStep,
        ProxyError,
    >)
        requires
            done <= calls@.len(),
        ensures
            match r {
                Ok(CallStep::Unsupported) => calls@.len() == 0 || (done < calls@.len()
                    && !self.tool_names().contains(calls@[done as int].name@)),
                Ok(CallStep::Done) => calls@.len() > 0 && done == calls@.len(),
                Ok(CallStep::Run(run)) => {
                    let call = calls@[done as int]@;
                    &&& done < calls@.len()
                    &&& self.tool_names().contains(call.name)
                    &&& call_arguments(call.arguments) == Ok::<Json, Failure>(run.arguments@)
                    &&& run.stdin_payload.deep_view()
                        == (if self.settings.local_tools@[call.name].stdin_json {
                        Some(
                            displayed_json(stdin_value(call.name, call.call_id, run.arguments@)),
                        )
                    } else {
                        None
                    })
                },
                Err(e) => {
                    let call = calls@[done as int]@;
                    &&& done < calls@.len()
                    &&& self.tool_names().contains(call.name)
                    &&& call_arguments(call.arguments) == Err::<Json, Failure>(e@)
                },
            },
    {
        if calls.len() == 0 {
            return Ok(CallStep::Unsupported);
        }
        if done == calls.len() {
            return Ok(CallStep::Done);
        }
        match self.settings.local_tools.get(calls[done].name.as_str()) {
            Some(tool) => match prepare_call(&calls[done], tool) {
                Ok(run) => Ok(CallStep::Run(run)),
                Err(e) => Err(e),
            },
            None => Ok(CallStep::Unsupported),
        }
    }

    /// Prepares calls that are run side by side. There is nothing to run where there is
    /// no call, or one that is not for a local tool.
    pub fn prepare_calls(&self, calls: &Vec<ToolCall>) -> (r: Result<
        Option<Vec<Invocation>>,
        ProxyError,
    >)
        ensures
            ({
                let wanted = if calls@.len() == 0 {
                    Ok(None)
                } else {
                    prepared_calls(calls_of(calls@), self.settings.local_tools@)
                };
                match r {
                    Ok(Some(runs)) => wanted == Ok::<Option<Seq<Prepared>>, Failure>(
                        Some(prepared_of(runs@)),
                    ),
                    Ok(None) => wanted == Ok::<Option<Seq<Prepared>>, Failure>(None),
                    Err(e) => wanted == Err::<Option<Seq<Prepared>>, Failure>(e@),
                }
            }),
    {
        if calls.len() == 0 {
            return Ok(None);
        }
        let ghost all = calls_of(calls@);
        let ghost tools = self.settings.local_tools@;
        let mut runs: Vec<Invocation> = Vec::new();
        let mut i: usize = 0;
        assert(prepared_of(runs@) =~= Seq::empty());
        assert(all.take(0) =~= Seq::empty());
        while i < calls.len()
            invariant
                i <= calls@.len(),
                calls@.len() > 0,
                all == calls_of(calls@),
                tools == self.settings.local_tools@,
                prepared_calls(all.take(i as int), tools) == Ok::<
                    Option<Seq<Prepared>>,
                    Failure,
                >(Some(prepared_of(runs@))),
            decreases calls@.len() - i,
        {
            let call = &calls[i];
            proof {
                assert(all.take(i + 1).drop_last() =~= all.take(i as int));
                assert(all[i as int] == call@);
            }
            match self.settings.local_tools.get(call.name.as_str()) {
                Some(tool) => match prepare_call(call, tool) {
                    Ok(run) => {
                        let ghost before = runs@;
                        runs.push(run);
                        assert(prepared_of(runs@) =~= prepared_of(before).push(run@));
                    },
                    Err(e) => {
                        proof {
                            lemma_prepared_failure(all, tools, i + 1);
                        }
                        return Err(e);
                    },
                },
                None => {
                    proof {
                        lemma_prepared_failure(all, tools, i + 1);
                    }
                    return Ok(None);
                },
            }
            i += 1;
        }
        assert(all.take(i as int) =~= all);
        Ok(Some(runs))
    }

    /// What comes of calls that were run side by side.
    pub fn conclude_calls(
        &self,
        calls: &Vec<ToolCall>,
        runs: &Vec<Invocation>,
        exits: &Vec<ToolExit>,
    ) -> (r: Result<Vec<ToolOutput>, ProxyError>)
        requires
            runs@.len() == calls@.len(),
            exits@.len() == calls@.len(),
            forall|i: int|
                0 <= i < calls@.len() ==> self.tool_names().contains(
                    (#[trigger] calls@[i]).name@,
                ),
        ensures
            ({
                let wanted = concluded_calls(
                    calls_of(calls@),
                    self.settings.local_tools@,
                    prepared_of(runs@),
                    exits@,
                    calls@.len(),
                );
                match r {
                    Ok(outputs) => wanted == Ok::<Seq<Output>, Failure>(outputs_of(outputs@)),
                    Err(e) => wanted == Err::<Seq<Output>, Failure>(e@),
                }
            }),
    {
        let ghost all = calls_of(calls@);
        let ghost tools = self.settings.local_tools@;
        let ghost started = prepared_of(runs@);
        let mut outputs: Vec<ToolOutput> = Vec::new();
        let mut i: usize = 0;
        assert(outputs_of(outputs@) =~= Seq::empty());
        while i < calls.len()
            invariant
                i <= calls@.len(),
                runs@.len() == calls@.len(),
                exits@.len() == calls@.len(),
                all == calls_of(calls@),
                tools == self.settings.local_tools@,
                started == prepared_of(runs@),
                forall|k: int|
                    0 <= k < calls@.len() ==> self.tool_names().contains(
                        (#[trigger] calls@[k]).name@,
                    ),
                concluded_calls(all, tools, started, exits@, i as nat) == Ok::<
                    Seq<Output>,
                    Failure,
                >(outputs_of(outputs@)),
            decreases calls@.len() - i,
        {
            let call = &calls[i];
            proof {
                assert(all[i as int] == call@);
                assert(started[i as int] == runs@[i as int]@);
                assert(self.tool_names().contains(calls@[i as int].name@));
            }
            if let Some(tool) = self.settings.local_tools.get(call.name.as_str()) {
                match conclude_call(call, tool, &runs[i].arguments, &exits[i]) {
                    Ok(output) => {
                        let ghost before = outputs@;
                        outputs.push(output);
                        assert(outputs_of(outputs@) =~= outputs_of(before).push(output@));
                    },
                    Err(e) => {
                        proof {
                            lemma_concluded_failure(
                                all,
                                tools,
                                started,
                                exits@,
                                (i + 1) as nat,
                                all.len(),
                            );
                        }
                        return Err(e);
                    },
                }
            }
            i += 1;
        }
        Ok(outputs)
    }
}

/// The calls among `calls` that are for the tools in `names`.
pub open spec fn supported_of(calls: Seq<Call>, names: Set<Seq<char>>) -> Seq<Call>
    decreases calls.len(),
{
    if calls.len() == 0 {
        Seq::empty()
    } else {
        let earlier = supported_of(calls.drop_last(), names);
        if names.contains(calls.last().name) {
            earlier.push(calls.last())
        } else {
            earlier
        }
    }
}

/// The output for a call: the last one with its identifier, or an empty object.
pub open spec fn output_for(outputs: Seq<Output>, call_id: Seq<char>) -> Seq<char>
    decreases outputs.len(),
{
    if outputs.len() == 0 {
        "{}"@
    } else if outputs.last().call_id == call_id {
        outputs.last().output
    } else {
        output_for(outputs.drop_last(), call_id)
    }
}

/// The messages with the outputs for calls.
pub open spec fn tool_messages(calls: Seq<Call>, outputs: Seq<Output>) -> Seq<Json> {
    Seq::new(
        calls.len(),
        |i: int|
            tool_message(
                Json::Text(calls[i].call_id),
                Json::Text(output_for(outputs, calls[i].call_id)),
            ),
    )
}

/// The assistant message that makes calls, with the reasoning that led there.
pub open spec fn reasoned_calls(calls: Seq<Call>, reasoning: Seq<char>) -> Json {
    let bare = calling_message(call_entries(calls)->Array_0);
    if reasoning.len() > 0 {
        with_member(bare, "reasoning_content"@, Json::Text(reasoning))
    } else {
        bare
    }
}

fn find_output(outputs: &Vec<ToolOutput>, call_id: &str) -> (output: String)
    ensures
        output@ == output_for(outputs_of(outputs@), call_id@),
{
    let ghost all = outputs_of(outputs@);
    let mut n: usize = outputs.len();
    assert(all.take(n as int) =~= all);
    while n > 0
        invariant
            n <= outputs@.len(),
            all == outputs_of(outputs@),
            output_for(all.take(n as int), call_id@) == output_for(all, call_id@),
        decreases n,
    {
        assert(all.take(n as int).drop_last() =~= all.take(n - 1));
        assert(all.take(n as int).last() == outputs@[n - 1]@);
        if same_text(outputs[n - 1].call_id.as_str(), call_id) {
            return outputs[n - 1].output.clone();
        }
        n -= 1;
    }
    "{}".to_owned()
}

/// Adds the calls that were run, with the reasoning that led to them, and their outputs.
pub fn append_tool_turn(
    messages: &mut Vec<JsonValue>,
    tool_calls: &Vec<ToolCall>,
    outputs: &Vec<ToolOutput>,
    reasoning: &str,
)
    ensures
        array_of(final(messages)@) == array_of(old(messages)@).push(
            reasoned_calls(calls_of(tool_calls@), reasoning@),
        ) + tool_messages(calls_of(tool_calls@), outputs_of(outputs@)),
{
    let mut message = object().with("role", JsonValue::text("assistant")).with(
        "content",
        JsonValue::Null,
    ).with("tool_calls", call_entry_values(tool_calls));
    if !reasoning.is_empty() {
        message.set("reasoning_content", JsonValue::text(reasoning));
    }
    push_value(messages, JsonValue::Object(message));
    let ghost called = array_of(messages@);
    let ghost added = tool_messages(calls_of(tool_calls@), outputs_of(outputs@));
    assert(called == array_of(old(messages)@).push(
        reasoned_calls(calls_of(tool_calls@), reasoning@),
    ));
    let mut i: usize = 0;
    assert(called + added.take(0) =~= called);
    while i < tool_calls.len()
        invariant
            i <= tool_calls@.len(),
            added == tool_messages(calls_of(tool_calls@), outputs_of(outputs@)),
            array_of(messages@) == called + added.take(i as int),
        decreases tool_calls@.len() - i,
    {
        let call = &tool_calls[i];
        assert(calls_of(tool_calls@)[i as int] == call@);
        let output = find_output(outputs, call.call_id.as_str());
        push_value(
            messages,
            tool_message_value(
                JsonValue::Text(call.call_id.clone()),
                JsonValue::Text(output),
            ),
        );
        i += 1;
        assert(array_of(messages@) =~= called + added.take(i as int));
    }
    assert(added.take(i as int) =~= added);
}

/// Adds the calls that were run and their outputs.
pub fn append_tool_outputs(
    messages: &mut Vec<JsonValue>,
    tool_calls: &Vec<ToolCall>,
    outputs: &Vec<ToolOutput>,
)
    ensures
        array_of(final(messages)@) == array_of(old(messages)@).push(
            calling_message(call_entries(calls_of(tool_calls@))->Array_0),
        ) + tool_messages(calls_of(tool_calls@), outputs_of(outputs@)),
{
    append_tool_turn(messages, tool_calls, outputs, "");
    proof {
        reveal_strlit("");
    }
}

/// Outputs as items of a request's input.
pub open spec fn output_item(output: Output) -> Json {
    Json::Object(
        map![
            "type"@ => Json::Text("function_call_output"@),
            "call_id"@ => Json::Text(output.call_id),
            "output"@ => Json::Text(output.output),
        ],
    )
}

/// Outputs as items of a request's input.
pub fn output_items_from_tool_outputs(outputs: &Vec<ToolOutput>) -> (items: Vec<JsonValue>)
    ensures
        array_of(items@) == Seq::new(
            outputs@.len(),
            |i: int| output_item(outputs_of(outputs@)[i]),
        ),
{
    let mut items: Vec<JsonValue> = Vec::new();
    let mut i: usize = 0;
    while i < outputs.len()
        invariant
            i <= outputs@.len(),
            items@.len() == i,
            forall|k: int| 0 <= k < i ==> (#[trigger] items@[k])@ == output_item(outputs@[k]@),
        decreases outputs@.len() - i,
    {
        items.push(
            JsonValue::Object(
                object().with("type", JsonValue::text("function_call_output")).with(
                    "call_id",
                    JsonValue::Text(outputs[i].call_id.clone()),
                ).with("output", JsonValue::Text(outputs[i].output.clone())),
            ),
        );
        i += 1;
    }
    assert(array_of(items@) =~= Seq::new(
        outputs@.len(),
        |k: int| output_item(outputs_of(outputs@)[k]),
    ));
    items
}

/// Every call that was run is answered: the calls stand in one assistant message, and
/// each is followed by exactly one message with its output, in the order of the calls.
pub proof fn law_every_call_is_answered(calls: Seq<Call>, outputs: Seq<Output>)
    ensures
        tool_messages(calls, outputs).len() == calls.len(),
        forall|i: int|
            0 <= i < calls.len() ==> (#[trigger] tool_messages(calls, outputs)[i]).text_at(
                "tool_call_id"@,
            ) == Some(calls[i].call_id),
{
    reveal_strlit("tool_call_id");
    reveal_strlit("content");
    assert("tool_call_id"@.len() == 12);
    assert("content"@.len() == 7);
}

/// Calls that all came to an output are answered in their order, each under its own
/// identifier.
pub proof fn law_outputs_follow_the_calls(
    calls: Seq<Call>,
    tools: Map<Seq<char>, LocalToolSettings>,
    runs: Seq<Prepared>,
    exits: Seq<ToolExit>,
    n: nat,
)
    ensures
        concluded_calls(calls, tools, runs, exits, n) matches Ok(outputs) ==> outputs.len() == n
            && forall|i: int|
            0 <= i < n ==> (#[trigger] outputs[i]).call_id == calls[i].call_id,
    decreases n,
{
    if n > 0 {
        law_outputs_follow_the_calls(calls, tools, runs, exits, (n - 1) as nat);
    }
}

/// Whether a value tells of a call: its name, its identifier and its arguments.
pub open spec fn tells_of_call(v: Json, call: Call, arguments: Json) -> bool {
    &&& v.get("name"@) == Some(Json::Text(call.name))
    &&& v.get("call_id"@) == Some(Json::Text(call.call_id))
    &&& v.get("arguments"@) == Some(arguments)
}

/// A call for a tool that is not here is not run. The others are run with the arguments
/// that they were made with, and an empty text stands for an empty object; arguments that
/// are not JSON are refused. A tool that reads its standard input is told of the call.
pub proof fn law_calls_are_run_as_they_were_made(
    call: Call,
    tools: Map<Seq<char>, LocalToolSettings>,
)
    ensures
        !tools.contains_key(call.name) ==> prepared_call(call, tools) == Ok::<
            Option<Prepared>,
            Failure,
        >(None),
        tools.contains_key(call.name) ==> {
            let run = prepared_call(call, tools);
            &&& trimmed(call.arguments).len() == 0 ==> run is Ok && run->Ok_0 is Some
                && run->Ok_0->0.arguments == Json::Object(Map::empty())
            &&& trimmed(call.arguments).len() > 0 && parsed_json(call.arguments) is Ok ==> run is Ok
                && run->Ok_0 is Some && Ok::<Json, Seq<char>>(run->Ok_0->0.arguments)
                == parsed_json(call.arguments)
            &&& trimmed(call.arguments).len() > 0 && parsed_json(call.arguments) is Err ==> run
                is Err && run->Err_0 is BadRequest
            &&& run is Ok ==> (run->Ok_0->0.stdin_payload is Some <==> tools[call.name].stdin_json)
            &&& run is Ok && tools[call.name].stdin_json ==> exists|v: Json| #[trigger]
                tells_of_call(v, call, run->Ok_0->0.arguments) && run->Ok_0->0.stdin_payload
                    == Some(displayed_json(v))
        },
{
    reveal_strlit("name");
    reveal_strlit("call_id");
    reveal_strlit("arguments");
    assert("name"@.len() == 4);
    assert("call_id"@.len() == 7);
    assert("arguments"@.len() == 9);
    if let Ok(arguments) = call_arguments(call.arguments) {
        assert(tells_of_call(stdin_value(call.name, call.call_id, arguments), call, arguments));
    }
}

/// Calls are prepared one by one, in their order: all of them, where each can be run.
pub proof fn law_calls_are_prepared_in_order(
    calls: Seq<Call>,
    tools: Map<Seq<char>, LocalToolSettings>,
)
    ensures
        prepared_calls(calls, tools) matches Ok(Some(runs)) ==> runs.len() == calls.len()
            && forall|i: int|
            0 <= i < calls.len() ==> prepared_call(calls[i], tools) == Ok::<
                Option<Prepared>,
                Failure,
            >(Some(#[trigger] runs[i])),
        (forall|i: int|
            0 <= i < calls.len() ==> (#[trigger] prepared_call(calls[i], tools)) is Ok
                && prepared_call(calls[i], tools)->Ok_0 is Some) ==> prepared_calls(calls, tools)
            is Ok && prepared_calls(calls, tools)->Ok_0 is Some,
        (exists|i: int|
            0 <= i < calls.len() && (#[trigger] prepared_call(calls[i], tools)) == Ok::<
                Option<Prepared>,
                Failure,
            >(None)) ==> !(prepared_calls(calls, tools) matches Ok(Some(_))),
    decreases calls.len(),
{
    if calls.len() > 0 {
        let earlier = calls.drop_last();
        law_calls_are_prepared_in_order(earlier, tools);
        assert(forall|i: int| 0 <= i < earlier.len() ==> earlier[i] == calls[i]);
        if forall|i: int|
            0 <= i < calls.len() ==> (#[trigger] prepared_call(calls[i], tools)) is Ok
                && prepared_call(calls[i], tools)->Ok_0 is Some {
            assert forall|i: int| 0 <= i < earlier.len() implies (#[trigger] prepared_call(
                earlier[i],
                tools,
            )) is Ok && prepared_call(earlier[i], tools)->Ok_0 is Some by {
                assert(prepared_call(calls[i], tools) is Ok);
            }
            assert(prepared_call(calls[calls.len() - 1], tools) is Ok);
        }
        if exists|i: int|
            0 <= i < calls.len() && (#[trigger] prepared_call(calls[i], tools)) == Ok::<
                Option<Prepared>,
                Failure,
            >(None) {
            let i = choose|i: int|
                0 <= i < calls.len() && (#[trigger] prepared_call(calls[i], tools)) == Ok::<
                    Option<Prepared>,
                    Failure,
                >(None);
            if i < earlier.len() {
                assert(prepared_call(earlier[i], tools) == Ok::<Option<Prepared>, Failure>(None));
            }
        }
    }
}

/// A tool that ends well gives what it printed, without the blanks around it; where it is
/// to print JSON, it gives that JSON. A tool that printed nothing gives an empty object
/// or, where it may print anything, word of the call. A tool that ends otherwise gives
/// nothing, and its complaint is passed on.
pub proof fn law_tools_give_what_they_print(
    call: Call,
    output_json: bool,
    arguments: Json,
    success: bool,
    status: String,
    stdout: Vec<u8>,
    stderr: Vec<u8>,
)
    ensures
        ({
            let result = run_result(
                call,
                output_json,
                arguments,
                ToolExit::Exited { success, status, stdout, stderr },
            );
            let out = trimmed(lossy_text(stdout@));
            let err = trimmed(lossy_text(stderr@));
            &&& success && !output_json && out.len() > 0 ==> result == Ok::<Seq<char>, Failure>(out)
            &&& success && !output_json && out.len() == 0 ==> exists|v: Json| #[trigger]
                tells_of_silence(v, call, arguments) && result == Ok::<Seq<char>, Failure>(
                    displayed_json(v),
                )
            &&& success && output_json && trimmed(out).len() == 0 ==> result == Ok::<
                Seq<char>,
                Failure,
            >(displayed_json(Json::Object(Map::empty())))
            &&& success && output_json && trimmed(out).len() > 0 && parsed_json(out) is Ok
                && encoded_json(parsed_json(out)->Ok_0) is Ok ==> result is Ok && result->Ok_0
                == encoded_json(parsed_json(out)->Ok_0)->Ok_0
            &&& success && output_json && trimmed(out).len() > 0 && parsed_json(out) is Err
                ==> result is Err
            &&& !success && err.len() > 0 ==> result == Err::<Seq<char>, Failure>(
                Failure::BadRequest("local tool `"@ + call.name + "` failed: "@ + err),
            )
            &&& !success && err.len() == 0 ==> result == Err::<Seq<char>, Failure>(
                Failure::BadRequest("local tool `"@ + call.name + "` exited with status "@ + status@),
            )
        }),
{
    reveal_strlit("ok");
    reveal_strlit("tool");
    reveal_strlit("call_id");
    reveal_strlit("arguments");
    assert("ok"@.len() == 2);
    assert("tool"@.len() == 4);
    assert("call_id"@.len() == 7);
    assert("arguments"@.len() == 9);
    assert(tells_of_silence(silent_answer(call, arguments), call, arguments));
}

/// Whether a value tells of a call of a tool that printed nothing.
pub open spec fn tells_of_silence(v: Json, call: Call, arguments: Json) -> bool {
    &&& v.get("ok"@) == Some(Json::Bool(true))
    &&& v.get("tool"@) == Some(Json::Text(call.name))
    &&& v.get("call_id"@) == Some(Json::Text(call.call_id))
    &&& v.get("arguments"@) == Some(arguments)
}

/// A tool that did not run to its end gives nothing.
pub proof fn law_broken_runs_give_nothing(
    call: Call,
    output_json: bool,
    arguments: Json,
    exit: ToolExit,
)
    requires
        !(exit is Exited),
    ensures
        run_result(call, output_json, arguments, exit) is Err,
        exit is TimedOut ==> run_result(call, output_json, arguments, exit)->Err_0 is BadRequest,
        !(exit is TimedOut) ==> run_result(call, output_json, arguments, exit)->Err_0 is Internal,
{
}

/// Calls that were run side by side each give what their own tool gave, under their own
/// identifier, in the order of the calls; one that gave nothing fails them all.
pub proof fn law_each_call_gives_its_own_output(
    calls: Seq<Call>,
    tools: Map<Seq<char>, LocalToolSettings>,
    runs: Seq<Prepared>,
    exits: Seq<ToolExit>,
    n: nat,
)
    ensures
        concluded_calls(calls, tools, runs, exits, n) matches Ok(outputs) ==> outputs.len() == n
            && forall|i: int|
            0 <= i < n ==> {
                let output = #[trigger] outputs[i];
                &&& output.call_id == calls[i].call_id
                &&& run_result(
                    calls[i],
                    tools[calls[i].name].output_json,
                    runs[i].arguments,
                    exits[i],
                ) == Ok::<Seq<char>, Failure>(output.output)
            },
        concluded_calls(calls, tools, runs, exits, n) matches Err(e) ==> exists|i: int|
            0 <= i < n && run_result(
                calls[i],
                tools[calls[i].name].output_json,
                runs[i].arguments,
                #[trigger] exits[i],
            ) == Err::<Seq<char>, Failure>(e),
    decreases n,
{
    if n > 0 {
        law_each_call_gives_its_own_output(calls, tools, runs, exits, (n - 1) as nat);
        let last = exits[n - 1];
    }
}

/// An output becomes an item of a request's input that holds it under its identifier.
pub proof fn law_output_items_hold_the_output(output: Output)
    ensures
        output_item(output).get("type"@) == Some(Json::Text("function_call_output"@)),
        output_item(output).get("call_id"@) == Some(Json::Text(output.call_id)),
        output_item(output).get("output"@) == Some(Json::Text(output.output)),
{
    reveal_strlit("type");
    reveal_strlit("call_id");
    reveal_strlit("output");
    assert("type"@.len() == 4);
    assert("call_id"@.len() == 7);
    assert("output"@.len() == 6);
}

/// A call gets the last output under its identifier; a call without an output gets an
/// empty object.
pub proof fn law_calls_get_the_output_under_their_identifier(
    outputs: Seq<Output>,
    call_id: Seq<char>,
    i: int,
)
    requires
        -1 <= i < outputs.len(),
        forall|k: int| i < k < outputs.len() ==> (#[trigger] outputs[k]).call_id != call_id,
        i >= 0 ==> outputs[i].call_id == call_id,
    ensures
        i >= 0 ==> output_for(outputs, call_id) == outputs[i].output,
        i < 0 ==> output_for(outputs, call_id) == "{}"@,
    decreases outputs.len(),
{
    if outputs.len() > 0 && i < outputs.len() - 1 {
        let front = outputs.drop_last();
        assert(outputs[outputs.len() - 1].call_id != call_id);
        assert forall|k: int| i < k < front.len() implies (#[trigger] front[k]).call_id
            != call_id by {
            assert(outputs[k].call_id != call_id);
        }
        law_calls_get_the_output_under_their_identifier(front, call_id, i);
    }
}

} // verus!

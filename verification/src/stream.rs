//! The events of a streamed response, and the state from which they are made.

use crate::codec::{encode, encoded_json};
use crate::json::{object, object_of, Json, JsonValue, Object};
use crate::number::num_of_i64;
use crate::response::{
    build_content_part, build_function_call_item, build_message_item, build_reasoning_item,
    call_output, completed_response, content_part, law_items_tell_what_they_hold,
    lemma_response_members, message_output, output_items, reasoning_output, tells_call,
    tells_message, tells_reasoning, tells_text, Answer,
};
use crate::translate::{Context, RequestContext};
use crate::turn::{
    calls_of, function_item_id, message_output_offset, reasoning_output_offset, AssistantTurn, Call,
    ToolCall, Turn,
};
use crate::usage::{count, empty_usage, upstream_usage, usage_value};
use vstd::prelude::*;
use vstd::string::*;

verus! {

/// An event of a streamed response.
#[derive(Debug)]
pub struct StreamEvent {
    pub name: String,
    pub payload: JsonValue,
}

/// What an event says, before it is numbered.
#[verifier::ext_equal]
pub struct Note {
    pub name: Seq<char>,
    pub body: Map<Seq<char>, Json>,
}

/// What a [`StreamEvent`] stands for.
#[verifier::ext_equal]
pub struct Emitted {
    pub name: Seq<char>,
    pub payload: Json,
}

impl View for StreamEvent {
    type V = Emitted;

    open spec fn view(&self) -> Emitted {
        Emitted { name: self.name@, payload: self.payload@ }
    }
}

/// What a sequence of events stands for.
pub open spec fn emitted_of(events: Seq<StreamEvent>) -> Seq<Emitted> {
    Seq::new(events.len(), |i: int| events[i]@)
}

/// The number of the event that comes `n` after the one numbered `start`.
pub open spec fn number_after(start: u64, n: nat) -> u64
    decreases n,
{
    if n == 0 {
        start
    } else {
        number_after(start, (n - 1) as nat).wrapping_add(1)
    }
}

/// An event with its number.
pub open spec fn numbered_note(note: Note, number: u64) -> Emitted {
    Emitted {
        name: note.name,
        payload: Json::Object(note.body.insert("sequence_number"@, count(number))),
    }
}

/// Events numbered one after the other, from `start`.
pub open spec fn numbered(notes: Seq<Note>, start: u64) -> Seq<Emitted> {
    Seq::new(notes.len(), |i: int| numbered_note(notes[i], number_after(start, i as nat)))
}

/// As long as the machine's range suffices, the events of a stream are numbered
/// consecutively.
pub proof fn law_numbers_are_consecutive(notes: Seq<Note>, start: u64)
    requires
        start + notes.len() <= u64::MAX,
    ensures
        forall|i: int|
            0 <= i < notes.len() ==> (#[trigger] numbered(notes, start)[i]).payload.get(
                "sequence_number"@,
            ) == Some(count((start + i) as u64)),
{
    assert forall|i: int| 0 <= i < notes.len() implies (#[trigger] numbered(
        notes,
        start,
    )[i]).payload.get("sequence_number"@) == Some(count((start + i) as u64)) by {
        lemma_number_after(start, i as nat);
    }
}

proof fn lemma_number_after(start: u64, n: nat)
    requires
        start + n <= u64::MAX,
    ensures
        number_after(start, n) == start + n,
    decreases n,
{
    if n > 0 {
        lemma_number_after(start, (n - 1) as nat);
    }
}

/// The numbering of events goes on where it stopped: events that are sent one batch after
/// the other are numbered as if they were one list.
pub proof fn law_numbering_goes_on(a: Seq<Note>, b: Seq<Note>, start: u64)
    ensures
        numbered(a + b, start) == numbered(a, start) + numbered(
            b,
            number_after(start, a.len()),
        ),
        number_after(number_after(start, a.len()), b.len()) == number_after(
            start,
            a.len() + b.len(),
        ),
{
    assert forall|i: nat|
        number_after(number_after(start, a.len()), i) == #[trigger] number_after(
            start,
            a.len() + i,
        ) by {
        lemma_number_sum(start, a.len(), i);
    }
    assert(numbered(a + b, start) =~= numbered(a, start) + numbered(
        b,
        number_after(start, a.len()),
    )) by {
        assert forall|i: int| 0 <= i < b.len() implies numbered(
            a + b,
            start,
        )[a.len() + i] == #[trigger] numbered(b, number_after(start, a.len()))[i] by {
            lemma_number_sum(start, a.len(), i as nat);
        }
    }
}

proof fn lemma_number_sum(start: u64, a: nat, b: nat)
    ensures
        number_after(number_after(start, a), b) == number_after(start, a + b),
    decreases b,
{
    if b > 0 {
        lemma_number_sum(start, a, (b - 1) as nat);
        assert((a + b - 1) as nat == a + (b - 1) as nat);
    }
}

impl StreamEvent {
    /// The text that is sent as the data of an event; an empty object where the payload
    /// cannot be written.
    pub fn data(&self) -> (s: String)
        ensures
            s@ == (match encoded_json(self@.payload) {
                Ok(text) => text,
                Err(_) => "{}"@,
            }),
    {
        match encode(&self.payload) {
            Ok(text) => text,
            Err(_) => "{}".to_owned(),
        }
    }
}

/// The event `name` with `payload`, numbered with the number that comes next.
pub fn json_event(name: &str, sequence_number: &mut u64, payload: Object) -> (event: StreamEvent)
    ensures
        event@ == numbered_note(
            (Note { name: name@, body: object_of(payload) }),
            *old(sequence_number),
        ),
        *final(sequence_number) == old(sequence_number).wrapping_add(1),
{
    let numbered = payload.with("sequence_number", JsonValue::number(*sequence_number));
    *sequence_number = sequence_number.wrapping_add(1);
    StreamEvent { name: name.to_owned(), payload: JsonValue::Object(numbered) }
}

/// Adds an event to a list of numbered ones.
pub(crate) fn emit(
    events: &mut Vec<StreamEvent>,
    sequence_number: &mut u64,
    name: &str,
    payload: Object,
    Ghost(notes): Ghost<Seq<Note>>,
    Ghost(start): Ghost<u64>,
)
    requires
        emitted_of(old(events)@) == numbered(notes, start),
        *old(sequence_number) == number_after(start, notes.len()),
    ensures
        emitted_of(final(events)@) == numbered(
            notes.push((Note { name: name@, body: object_of(payload) })),
            start,
        ),
        *final(sequence_number) == number_after(start, notes.len() + 1),
{
    let ghost note = Note { name: name@, body: object_of(payload) };
    let event = json_event(name, sequence_number, payload);
    let ghost before = events@;
    events.push(event);
    proof {
        let now = numbered(notes.push(note), start);
        assert(emitted_of(before).len() == notes.len());
        assert forall|i: int| 0 <= i < now.len() implies emitted_of(events@)[i] == now[i] by {
            if i < notes.len() {
                assert(emitted_of(before)[i] == numbered(notes, start)[i]);
            }
        }
        assert(emitted_of(events@) =~= now);
    }
}

/// The event that an output item begins.
pub open spec fn item_added(index: u64, item: Json) -> Note {
    Note {
        name: "response.output_item.added"@,
        body: map![
            "type"@ => Json::Text("response.output_item.added"@),
            "output_index"@ => count(index),
            "item"@ => item,
        ],
    }
}

/// The event that an output item is complete.
pub open spec fn item_done(index: u64, item: Json) -> Note {
    Note {
        name: "response.output_item.done"@,
        body: map![
            "type"@ => Json::Text("response.output_item.done"@),
            "output_index"@ => count(index),
            "item"@ => item,
        ],
    }
}

/// The event that more reasoning came.
pub open spec fn reasoning_delta(item_id: Seq<char>, delta: Seq<char>) -> Note {
    Note {
        name: "response.reasoning_summary_text.delta"@,
        body: map![
            "type"@ => Json::Text("response.reasoning_summary_text.delta"@),
            "output_index"@ => count(0),
            "item_id"@ => Json::Text(item_id),
            "delta"@ => Json::Text(delta),
        ],
    }
}

/// The event that the reasoning is complete.
pub open spec fn reasoning_done(item_id: Seq<char>, text: Seq<char>) -> Note {
    Note {
        name: "response.reasoning_summary_text.done"@,
        body: map![
            "type"@ => Json::Text("response.reasoning_summary_text.done"@),
            "output_index"@ => count(0),
            "item_id"@ => Json::Text(item_id),
            "text"@ => Json::Text(text),
        ],
    }
}

/// The event that a content part begins.
pub open spec fn part_added(index: u64, item_id: Seq<char>) -> Note {
    Note {
        name: "response.content_part.added"@,
        body: map![
            "type"@ => Json::Text("response.content_part.added"@),
            "output_index"@ => count(index),
            "content_index"@ => count(0),
            "item_id"@ => Json::Text(item_id),
            "part"@ => content_part(""@),
        ],
    }
}

/// The event that a content part is complete.
pub open spec fn part_done(index: u64, item_id: Seq<char>, text: Seq<char>) -> Note {
    Note {
        name: "response.content_part.done"@,
        body: map![
            "type"@ => Json::Text("response.content_part.done"@),
            "output_index"@ => count(index),
            "content_index"@ => count(0),
            "item_id"@ => Json::Text(item_id),
            "part"@ => content_part(text),
        ],
    }
}

/// The event that more text came.
pub open spec fn text_delta(index: u64, item_id: Seq<char>, delta: Seq<char>) -> Note {
    Note {
        name: "response.output_text.delta"@,
        body: map![
            "type"@ => Json::Text("response.output_text.delta"@),
            "output_index"@ => count(index),
            "content_index"@ => count(0),
            "item_id"@ => Json::Text(item_id),
            "delta"@ => Json::Text(delta),
            "logprobs"@ => Json::Array(Seq::empty()),
        ],
    }
}

/// The event that the text is complete.
pub open spec fn text_done(index: u64, item_id: Seq<char>, text: Seq<char>) -> Note {
    Note {
        name: "response.output_text.done"@,
        body: map![
            "type"@ => Json::Text("response.output_text.done"@),
            "output_index"@ => count(index),
            "content_index"@ => count(0),
            "item_id"@ => Json::Text(item_id),
            "text"@ => Json::Text(text),
            "logprobs"@ => Json::Array(Seq::empty()),
        ],
    }
}

/// The event that more of a call's arguments came.
pub open spec fn arguments_delta(index: u64, call_id: Seq<char>, delta: Seq<char>) -> Note {
    Note {
        name: "response.function_call_arguments.delta"@,
        body: map![
            "type"@ => Json::Text("response.function_call_arguments.delta"@),
            "output_index"@ => count(index),
            "item_id"@ => Json::Text("fc_"@ + call_id),
            "delta"@ => Json::Text(delta),
        ],
    }
}

/// The event that a call's arguments are complete.
pub open spec fn arguments_done(index: u64, call_id: Seq<char>, arguments: Seq<char>) -> Note {
    Note {
        name: "response.function_call_arguments.done"@,
        body: map![
            "type"@ => Json::Text("response.function_call_arguments.done"@),
            "output_index"@ => count(index),
            "item_id"@ => Json::Text("fc_"@ + call_id),
            "arguments"@ => Json::Text(arguments),
        ],
    }
}

fn typed(name: &str) -> (o: Object)
    ensures
        object_of(o) == map!["type"@ => Json::Text(name@)],
{
    object().with("type", JsonValue::text(name))
}

/// The body of an event on an output item.
pub(crate) fn item_body(name: &str, index: u64, item: JsonValue) -> (o: Object)
    ensures
        object_of(o) == map![
            "type"@ => Json::Text(name@),
            "output_index"@ => count(index),
            "item"@ => item@,
        ],
{
    typed(name).with("output_index", JsonValue::number(index)).with("item", item)
}

pub(crate) fn arguments_body(name: &str, index: u64, call_id: &str, member: &str, text: &str) -> (o: Object)
    ensures
        object_of(o) == map![
            "type"@ => Json::Text(name@),
            "output_index"@ => count(index),
            "item_id"@ => Json::Text("fc_"@ + call_id@),
            member@ => Json::Text(text@),
        ],
{
    typed(name).with("output_index", JsonValue::number(index)).with(
        "item_id",
        JsonValue::Text(function_item_id(call_id)),
    ).with(member, JsonValue::text(text))
}

pub(crate) fn text_body(name: &str, index: u64, item_id: &str, member: &str, text: &str) -> (o: Object)
    ensures
        object_of(o) == map![
            "type"@ => Json::Text(name@),
            "output_index"@ => count(index),
            "content_index"@ => count(0),
            "item_id"@ => Json::Text(item_id@),
            member@ => Json::Text(text@),
            "logprobs"@ => Json::Array(Seq::empty()),
        ],
{
    typed(name).with("output_index", JsonValue::number(index)).with(
        "content_index",
        JsonValue::number(0),
    ).with("item_id", JsonValue::text(item_id)).with(member, JsonValue::text(text)).with(
        "logprobs",
        JsonValue::empty_array(),
    )
}

pub(crate) fn part_body(name: &str, index: u64, item_id: &str, text: &str) -> (o: Object)
    ensures
        object_of(o) == map![
            "type"@ => Json::Text(name@),
            "output_index"@ => count(index),
            "content_index"@ => count(0),
            "item_id"@ => Json::Text(item_id@),
            "part"@ => content_part(text@),
        ],
{
    typed(name).with("output_index", JsonValue::number(index)).with(
        "content_index",
        JsonValue::number(0),
    ).with("item_id", JsonValue::text(item_id)).with("part", build_content_part(text))
}

pub(crate) fn reasoning_body(name: &str, item_id: &str, member: &str, text: &str) -> (o: Object)
    ensures
        object_of(o) == map![
            "type"@ => Json::Text(name@),
            "output_index"@ => count(0),
            "item_id"@ => Json::Text(item_id@),
            member@ => Json::Text(text@),
        ],
{
    typed(name).with("output_index", JsonValue::number(0)).with(
        "item_id",
        JsonValue::text(item_id),
    ).with(member, JsonValue::text(text))
}

/// The events with which the reasoning ends.
pub open spec fn reasoning_end(turn: Turn, context: Context) -> Seq<Note> {
    if turn.reasoning.len() == 0 {
        Seq::empty()
    } else {
        seq![
            reasoning_done(context.reasoning_id, turn.reasoning),
            item_done(0, reasoning_output(context.reasoning_id, "completed"@, turn.reasoning)),
        ]
    }
}

/// The events with which the message ends.
pub open spec fn message_end(turn: Turn, context: Context) -> Seq<Note> {
    let index = turn.reasoning_offset() as u64;
    if !turn.has_message() {
        Seq::empty()
    } else {
        seq![
            text_done(index, context.message_id, turn.text),
            part_done(index, context.message_id, turn.text),
            item_done(index, message_output(context.message_id, "completed"@, turn.text)),
        ]
    }
}

/// The output index of the call at `i`.
pub open spec fn call_index(turn: Turn, i: usize) -> u64 {
    (turn.message_offset() as usize).wrapping_add(i) as u64
}

/// The events with which the first `n` calls end.
pub open spec fn calls_end(turn: Turn, n: nat) -> Seq<Note>
    decreases n,
{
    if n == 0 {
        Seq::empty()
    } else {
        let i = (n - 1) as usize;
        let call = turn.calls[n - 1];
        calls_end(turn, (n - 1) as nat) + seq![
            arguments_done(call_index(turn, i), call.call_id, call.arguments),
            item_done(call_index(turn, i), call_output(call, "completed"@)),
        ]
    }
}

/// The events with which the items of a turn end.
pub open spec fn turn_end(turn: Turn, context: Context) -> Seq<Note> {
    reasoning_end(turn, context) + message_end(turn, context) + calls_end(turn, turn.calls.len())
}

/// The events with which the items of a turn end.
pub fn finalize_stream_items(
    assistant_turn: &AssistantTurn,
    context: &RequestContext,
    sequence_number: &mut u64,
) -> (events: Vec<StreamEvent>)
    ensures
        emitted_of(events@) == numbered(
            turn_end(assistant_turn@, context@),
            *old(sequence_number),
        ),
        *final(sequence_number) == number_after(
            *old(sequence_number),
            turn_end(assistant_turn@, context@).len(),
        ),
{
    let ghost start = *sequence_number;
    let ghost turn = assistant_turn@;
    let mut events: Vec<StreamEvent> = Vec::new();
    let ghost mut notes = Seq::<Note>::empty();
    assert(emitted_of(events@) =~= numbered(notes, start));
    if !assistant_turn.reasoning.as_str().is_empty() {
        let reasoning = assistant_turn.reasoning.as_str();
        let name = "response.reasoning_summary_text.done";
        let body = reasoning_body(name, context.reasoning_id.as_str(), "text", reasoning);
        emit(&mut events, sequence_number, name, body, Ghost(notes), Ghost(start));
        proof {
            notes = notes.push(reasoning_done(context@.reasoning_id, turn.reasoning));
        }
        let name = "response.output_item.done";
        let item = build_reasoning_item(context, "completed", reasoning);
        emit(
            &mut events,
            sequence_number,
            name,
            item_body(name, 0, item),
            Ghost(notes),
            Ghost(start),
        );
        proof {
            notes = notes.push(item_done(0, item@));
        }
    }
    assert(notes =~= reasoning_end(turn, context@));
    if !assistant_turn.text.as_str().is_empty() || assistant_turn.tool_calls.len() == 0 {
        let index: u64 = reasoning_output_offset(assistant_turn) as u64;
        let text = assistant_turn.text.as_str();
        let id = context.message_id.as_str();
        let name = "response.output_text.done";
        emit(
            &mut events,
            sequence_number,
            name,
            text_body(name, index, id, "text", text),
            Ghost(notes),
            Ghost(start),
        );
        proof {
            notes = notes.push(text_done(index, context@.message_id, turn.text));
        }
        let name = "response.content_part.done";
        emit(
            &mut events,
            sequence_number,
            name,
            part_body(name, index, id, text),
            Ghost(notes),
            Ghost(start),
        );
        proof {
            notes = notes.push(part_done(index, context@.message_id, turn.text));
        }
        let name = "response.output_item.done";
        let item = build_message_item(context, "completed", text);
        emit(
            &mut events,
            sequence_number,
            name,
            item_body(name, index, item),
            Ghost(notes),
            Ghost(start),
        );
        proof {
            notes = notes.push(item_done(index, item@));
        }
    }
    let ghost said = reasoning_end(turn, context@) + message_end(turn, context@);
    assert(notes =~= said);
    assert(said + calls_end(turn, 0) =~= said);
    let mut i: usize = 0;
    while i < assistant_turn.tool_calls.len()
        invariant
            i <= assistant_turn.tool_calls@.len(),
            turn == assistant_turn@,
            notes == said + calls_end(turn, i as nat),
            emitted_of(events@) == numbered(notes, start),
            *sequence_number == number_after(start, notes.len()),
        decreases assistant_turn.tool_calls@.len() - i,
    {
        let call = &assistant_turn.tool_calls[i];
        assert(turn.calls[i as int] == call@);
        let index: u64 = message_output_offset(assistant_turn).wrapping_add(i) as u64;
        let name = "response.function_call_arguments.done";
        let body = arguments_body(
            name,
            index,
            call.call_id.as_str(),
            "arguments",
            call.arguments.as_str(),
        );
        emit(&mut events, sequence_number, name, body, Ghost(notes), Ghost(start));
        proof {
            notes = notes.push(arguments_done(index, call@.call_id, call@.arguments));
        }
        let name = "response.output_item.done";
        let item = build_function_call_item(call, "completed");
        emit(
            &mut events,
            sequence_number,
            name,
            item_body(name, index, item),
            Ghost(notes),
            Ghost(start),
        );
        proof {
            notes = notes.push(item_done(index, item@));
        }
        i += 1;
        assert(notes =~= said + calls_end(turn, i as nat));
    }
    assert(turn.calls.len() == i);
    events
}

/// How many events the items of a turn end with.
pub open spec fn end_count(turn: Turn) -> nat {
    let thought = if turn.reasoning.len() == 0 {
        0nat
    } else {
        2nat
    };
    let said = if turn.has_message() {
        3nat
    } else {
        0nat
    };
    thought + said + 2 * turn.calls.len()
}

/// Picks the events that an output item is complete.
pub open spec fn ends_item() -> spec_fn(Note) -> bool {
    |note: Note| note.name == "response.output_item.done"@
}

/// Picks the numbered events that an output item is complete.
pub open spec fn tells_item_end() -> spec_fn(Emitted) -> bool {
    |event: Emitted| event.name == "response.output_item.done"@
}

/// The events that the items are complete, each with its place in the output.
pub open spec fn items_done(items: Seq<Json>) -> Seq<Note> {
    Seq::new(items.len(), |i: int| item_done(i as u64, items[i]))
}

/// The items of a turn end with two events for the reasoning, three for the message and
/// two for each call, and as long as the machine's range suffices that is how far the
/// numbering goes on.
pub proof fn law_closing_events_are_counted(turn: Turn, context: Context, start: u64)
    ensures
        turn_end(turn, context).len() == end_count(turn),
        start + end_count(turn) <= u64::MAX ==> number_after(
            start,
            turn_end(turn, context).len(),
        ) == start + end_count(turn),
{
    lemma_calls_end_len(turn, turn.calls.len());
    if start + end_count(turn) <= u64::MAX {
        lemma_number_after(start, end_count(turn));
    }
}

/// The events that close a streamed answer tell of the output of the completed response:
/// those that say that an item is complete name its items, all of them and in order, with
/// the places 0, 1, 2 and so on. The answer has no items of hosted tools, which are told of
/// at its beginning, and its reasoning, if any, is not left out of the output.
pub proof fn law_closing_events_tell_the_output(
    turn: Turn,
    context: Context,
    usage: Json,
    completed_at: i64,
    start: u64,
)
    requires
        context.hosted_output_items.len() == 0,
        context.skip_reasoning_output ==> turn.reasoning.len() == 0,
        turn.message_offset() + turn.calls.len() <= usize::MAX,
    ensures
        ({
            let items = output_items(context, turn, "completed"@);
            let notes = turn_end(turn, context);
            let told = numbered(notes, start).filter(tells_item_end());
            &&& completed_response(context, turn, usage, completed_at).get("output"@) == Some(
                Json::Array(items),
            )
            &&& notes.filter(ends_item()) == items_done(items)
            &&& notes.len() == end_count(turn)
            &&& told.len() == items.len()
            &&& forall|i: int|
                0 <= i < items.len() ==> {
                    &&& (#[trigger] told[i]).payload.get("output_index"@) == Some(count(i as u64))
                    &&& told[i].payload.get("item"@) == Some(items[i])
                }
        }),
{
    let items = output_items(context, turn, "completed"@);
    let notes = turn_end(turn, context);
    lemma_response_members(
        context,
        Answer {
            completed_at: Json::Num(num_of_i64(completed_at)),
            status: "completed"@,
            error: Json::Null,
            incomplete_details: Json::Null,
            output: items,
            output_text: turn.text,
            usage,
        },
    );
    law_closing_events_are_counted(turn, context, start);
    lemma_thought_and_said(turn, context);
    lemma_calls_done(turn, turn.calls.len());
    let said = reasoning_end(turn, context) + message_end(turn, context);
    Seq::filter_distributes_over_add(said, calls_end(turn, turn.calls.len()), ends_item());
    assert(notes.filter(ends_item()) =~= items_done(items));
    lemma_numbered_filter(notes, start);
    let told = numbered(notes, start).filter(tells_item_end());
    assert forall|i: int| 0 <= i < items.len() implies {
        &&& (#[trigger] told[i]).payload.get("output_index"@) == Some(count(i as u64))
        &&& told[i].payload.get("item"@) == Some(items[i])
    } by {
        assert(carries(told[i], notes.filter(ends_item())[i]));
        lemma_item_members(i as u64, items[i], told[i]);
    }
}

proof fn lemma_calls_end_len(turn: Turn, n: nat)
    ensures
        calls_end(turn, n).len() == 2 * n,
    decreases n,
{
    if n > 0 {
        lemma_calls_end_len(turn, (n - 1) as nat);
    }
}

/// The other closing events have other names.
proof fn lemma_names_apart()
    ensures
        "response.reasoning_summary_text.done"@ != "response.output_item.done"@,
        "response.output_text.done"@ != "response.output_item.done"@,
        "response.content_part.done"@ != "response.output_item.done"@,
        "response.function_call_arguments.done"@ != "response.output_item.done"@,
{
    reveal_strlit("response.reasoning_summary_text.done");
    reveal_strlit("response.output_text.done");
    reveal_strlit("response.content_part.done");
    reveal_strlit("response.function_call_arguments.done");
    reveal_strlit("response.output_item.done");
    assert("response.output_item.done"@.len() == 25);
    assert("response.output_item.done"@[16] == 'i' && "response.output_text.done"@[16] == 't');
    assert("response.reasoning_summary_text.done"@.len() == 36);
    assert("response.content_part.done"@.len() == 26);
    assert("response.function_call_arguments.done"@.len() == 37);
}

proof fn lemma_pick_second(a: Note, b: Note)
    requires
        !ends_item()(a),
        ends_item()(b),
    ensures
        seq![a, b].filter(ends_item()) == seq![b],
{
    reveal(Seq::filter);
    reveal_with_fuel(Seq::filter, 3);
    assert(seq![a, b].drop_last() =~= seq![a]);
    assert(seq![a].drop_last() =~= Seq::<Note>::empty());
    assert(seq![a, b].filter(ends_item()) =~= seq![b]);
}

proof fn lemma_thought_and_said(turn: Turn, context: Context)
    ensures
        (reasoning_end(turn, context) + message_end(turn, context)).filter(ends_item()) == (
        if turn.reasoning.len() == 0 {
            Seq::<Note>::empty()
        } else {
            seq![
                item_done(0, reasoning_output(context.reasoning_id, "completed"@, turn.reasoning)),
            ]
        }) + (if turn.has_message() {
            seq![
                item_done(
                    turn.reasoning_offset() as u64,
                    message_output(context.message_id, "completed"@, turn.text),
                ),
            ]
        } else {
            Seq::<Note>::empty()
        }),
{
    lemma_names_apart();
    let thought = reasoning_end(turn, context);
    let said = message_end(turn, context);
    Seq::filter_distributes_over_add(thought, said, ends_item());
    if turn.reasoning.len() == 0 {
        reveal(Seq::filter);
    } else {
        lemma_pick_second(thought[0], thought[1]);
        assert(thought =~= seq![thought[0], thought[1]]);
    }
    if turn.has_message() {
        lemma_pick_second(said[1], said[2]);
        assert(said =~= seq![said[0]] + seq![said[1], said[2]]);
        Seq::filter_distributes_over_add(seq![said[0]], seq![said[1], said[2]], ends_item());
        assert(seq![said[0]].filter(ends_item()) =~= Seq::<Note>::empty()) by {
            reveal(Seq::filter);
            reveal_with_fuel(Seq::filter, 2);
            assert(seq![said[0]].drop_last() =~= Seq::<Note>::empty());
        }
    } else {
        reveal(Seq::filter);
    }
}

proof fn lemma_calls_done(turn: Turn, n: nat)
    requires
        n <= turn.calls.len(),
        turn.message_offset() + n <= usize::MAX,
    ensures
        calls_end(turn, n).filter(ends_item()) == Seq::new(
            n,
            |i: int|
                item_done(
                    (turn.message_offset() + i) as u64,
                    call_output(turn.calls[i], "completed"@),
                ),
        ),
    decreases n,
{
    if n == 0 {
        reveal(Seq::filter);
    } else {
        let i = (n - 1) as usize;
        let call = turn.calls[n - 1];
        let a = arguments_done(call_index(turn, i), call.call_id, call.arguments);
        let b = item_done(call_index(turn, i), call_output(call, "completed"@));
        lemma_calls_done(turn, (n - 1) as nat);
        lemma_names_apart();
        lemma_pick_second(a, b);
        Seq::filter_distributes_over_add(
            calls_end(turn, (n - 1) as nat),
            seq![a, b],
            ends_item(),
        );
    }
}

/// Whether an event is a note with some number.
spec fn carries(event: Emitted, note: Note) -> bool {
    exists|number: u64| event == #[trigger] numbered_note(note, number)
}

/// Numbering changes nothing about which events are picked.
proof fn lemma_numbered_filter(notes: Seq<Note>, start: u64)
    ensures
        numbered(notes, start).filter(tells_item_end()).len() == notes.filter(ends_item()).len(),
        forall|i: int|
            0 <= i < notes.filter(ends_item()).len() ==> carries(
                #[trigger] numbered(notes, start).filter(tells_item_end())[i],
                notes.filter(ends_item())[i],
            ),
    decreases notes.len(),
{
    reveal(Seq::filter);
    if notes.len() > 0 {
        let had = notes.drop_last();
        lemma_numbered_filter(had, start);
        assert(numbered(notes, start).drop_last() =~= numbered(had, start));
        let last = numbered(notes, start).last();
        assert(last == numbered_note(notes.last(), number_after(start, had.len())));
        assert(carries(last, notes.last()));
    }
}

proof fn lemma_item_members(index: u64, item: Json, event: Emitted)
    requires
        carries(event, item_done(index, item)),
    ensures
        event.payload.get("output_index"@) == Some(count(index)),
        event.payload.get("item"@) == Some(item),
{
    reveal_strlit("type");
    reveal_strlit("output_index");
    reveal_strlit("item");
    reveal_strlit("sequence_number");
    assert("type"@[0] == 't' && "item"@[0] == 'i');
    assert("item"@.len() == 4 && "output_index"@.len() == 12 && "sequence_number"@.len() == 15);
}

/// Whether an event tells of a part of the answer, rather than of the whole response.
pub open spec fn is_partial(note: Note) -> bool {
    note.name != "response.created"@ && note.name != "response.completed"@ && note.name
        != "response.failed"@
}

/// Whether all events tell of parts of the answer.
pub open spec fn all_partial(notes: Seq<Note>) -> bool {
    forall|i: int| 0 <= i < notes.len() ==> is_partial(#[trigger] notes[i])
}

/// The names of the events that tell of parts of an answer.
pub proof fn lemma_partial_names(note: Note)
    requires
        note.name == "response.output_item.added"@ || note.name == "response.output_item.done"@
            || note.name == "response.reasoning_summary_text.delta"@ || note.name
            == "response.reasoning_summary_text.done"@ || note.name
            == "response.content_part.added"@ || note.name == "response.content_part.done"@
            || note.name == "response.output_text.delta"@ || note.name
            == "response.output_text.done"@ || note.name
            == "response.function_call_arguments.delta"@ || note.name
            == "response.function_call_arguments.done"@,
    ensures
        is_partial(note),
{
    reveal_strlit("response.output_item.added");
    reveal_strlit("response.output_item.done");
    reveal_strlit("response.reasoning_summary_text.delta");
    reveal_strlit("response.reasoning_summary_text.done");
    reveal_strlit("response.content_part.added");
    reveal_strlit("response.content_part.done");
    reveal_strlit("response.output_text.delta");
    reveal_strlit("response.output_text.done");
    reveal_strlit("response.function_call_arguments.delta");
    reveal_strlit("response.function_call_arguments.done");
    reveal_strlit("response.created");
    reveal_strlit("response.completed");
    reveal_strlit("response.failed");
    assert(note.name.len() >= 25);
}

/// The events with which the items of a turn end tell of parts of the answer.
pub proof fn lemma_turn_end_is_partial(turn: Turn, context: Context)
    ensures
        all_partial(turn_end(turn, context)),
{
    let thought = reasoning_end(turn, context);
    let said = message_end(turn, context);
    assert forall|i: int| 0 <= i < thought.len() implies is_partial(#[trigger] thought[i]) by {
        lemma_partial_names(thought[i]);
    }
    assert forall|i: int| 0 <= i < said.len() implies is_partial(#[trigger] said[i]) by {
        lemma_partial_names(said[i]);
    }
    lemma_calls_end_is_partial(turn, turn.calls.len());
}

proof fn lemma_calls_end_is_partial(turn: Turn, n: nat)
    ensures
        all_partial(calls_end(turn, n)),
    decreases n,
{
    if n > 0 {
        lemma_calls_end_is_partial(turn, (n - 1) as nat);
        let notes = calls_end(turn, n);
        lemma_partial_names(notes[notes.len() - 2]);
        lemma_partial_names(notes[notes.len() - 1]);
    }
}

/// A call that comes in pieces.
#[derive(Debug)]
pub struct StreamToolCall {
    pub call_id: String,
    pub name: String,
    pub arguments: String,
    pub added: bool,
}

/// What a [`StreamToolCall`] stands for.
#[verifier::ext_equal]
pub struct PartCall {
    pub call_id: Seq<char>,
    pub name: Seq<char>,
    pub arguments: Seq<char>,
    pub added: bool,
}

impl View for StreamToolCall {
    type V = PartCall;

    open spec fn view(&self) -> PartCall {
        PartCall {
            call_id: self.call_id@,
            name: self.name@,
            arguments: self.arguments@,
            added: self.added,
        }
    }
}

/// The state of a streamed turn. Calls are kept by their index, in ascending order.
#[derive(Debug)]
pub struct StreamState {
    pub reasoning_started: bool,
    pub message_started: bool,
    pub reasoning: String,
    pub text: String,
    pub tool_calls: Vec<(usize, StreamToolCall)>,
    pub usage: JsonValue,
}

/// What a [`StreamState`] stands for.
#[verifier::ext_equal]
pub struct Stream {
    pub reasoning_started: bool,
    pub message_started: bool,
    pub reasoning: Seq<char>,
    pub text: Seq<char>,
    pub calls: Seq<(usize, PartCall)>,
    pub usage: Json,
}

/// What a list of calls stands for.
pub open spec fn part_calls(calls: Seq<(usize, StreamToolCall)>) -> Seq<(usize, PartCall)> {
    Seq::new(calls.len(), |i: int| (calls[i].0, calls[i].1@))
}

impl View for StreamState {
    type V = Stream;

    open spec fn view(&self) -> Stream {
        Stream {
            reasoning_started: self.reasoning_started,
            message_started: self.message_started,
            reasoning: self.reasoning@,
            text: self.text@,
            calls: part_calls(self.tool_calls@),
            usage: self.usage@,
        }
    }
}

/// The state before anything came.
pub open spec fn fresh_stream() -> Stream {
    Stream {
        reasoning_started: false,
        message_started: false,
        reasoning: Seq::empty(),
        text: Seq::empty(),
        calls: Seq::empty(),
        usage: usage_value(upstream_usage(None)),
    }
}

/// The call with the given index, a blank one where there is none yet.
pub open spec fn call_with(calls: Seq<(usize, PartCall)>, index: usize) -> PartCall
    decreases calls.len(),
{
    if calls.len() == 0 {
        PartCall {
            call_id: Seq::empty(),
            name: Seq::empty(),
            arguments: Seq::empty(),
            added: false,
        }
    } else if calls.last().0 == index {
        calls.last().1
    } else {
        call_with(calls.drop_last(), index)
    }
}

/// The calls with `part` under `index`, at its place in ascending order.
pub open spec fn with_call(calls: Seq<(usize, PartCall)>, index: usize, part: PartCall) -> Seq<
    (usize, PartCall),
>
    decreases calls.len(),
{
    if calls.len() == 0 || calls.last().0 < index {
        calls.push((index, part))
    } else if calls.last().0 == index {
        calls.drop_last().push((index, part))
    } else {
        with_call(calls.drop_last(), index, part).push(calls.last())
    }
}

/// Whether calls stand in ascending order of their index, no index twice.
pub open spec fn ascending(calls: Seq<(usize, PartCall)>) -> bool {
    forall|i: int, j: int|
        0 <= i < j < calls.len() ==> (#[trigger] calls[i]).0 < (#[trigger] calls[j]).0
}

/// Putting a call in its place keeps the calls in ascending order, and what is put under
/// an index is found there, while the calls under other indexes stay.
pub proof fn law_calls_are_kept_by_index(
    calls: Seq<(usize, PartCall)>,
    index: usize,
    part: PartCall,
    other: usize,
)
    requires
        ascending(calls),
    ensures
        ascending(with_call(calls, index, part)),
        call_with(with_call(calls, index, part), index) == part,
        other != index ==> call_with(with_call(calls, index, part), other) == call_with(
            calls,
            other,
        ),
    decreases calls.len(),
{
    let after = with_call(calls, index, part);
    if calls.len() == 0 || calls.last().0 < index {
        assert(after.drop_last() =~= calls);
    } else if calls.last().0 == index {
        assert(after.drop_last() =~= calls.drop_last());
    } else {
        law_calls_are_kept_by_index(calls.drop_last(), index, part, other);
        let inner = with_call(calls.drop_last(), index, part);
        assert(after.drop_last() =~= inner);
        lemma_with_call_bound(calls.drop_last(), index, part, calls.last().0);
        assert forall|i: int, j: int| 0 <= i < j < after.len() implies (#[trigger] after[i]).0 < (
        #[trigger] after[j]).0 by {
            assert(after[i] == inner[i]);
            if j < inner.len() {
                assert(after[j] == inner[j]);
            }
        }
    }
}

proof fn lemma_with_call_bound(
    calls: Seq<(usize, PartCall)>,
    index: usize,
    part: PartCall,
    bound: usize,
)
    requires
        forall|i: int| 0 <= i < calls.len() ==> (#[trigger] calls[i]).0 < bound,
        index < bound,
    ensures
        forall|i: int|
            0 <= i < with_call(calls, index, part).len() ==> (#[trigger] with_call(
                calls,
                index,
                part,
            )[i]).0 < bound,
    decreases calls.len(),
{
    if calls.len() > 0 {
        assert(forall|i: int|
            0 <= i < calls.len() - 1 ==> #[trigger] calls.drop_last()[i] == calls[i]);
        lemma_with_call_bound(calls.drop_last(), index, part, bound);
        assert(calls.last() == calls[calls.len() - 1]);
    }
    let after = with_call(calls, index, part);
    assert forall|i: int| 0 <= i < after.len() implies (#[trigger] after[i]).0 < bound by {
        if calls.len() > 0 {
            if calls.last().0 < index {
                if i < calls.len() {
                    assert(after[i] == calls[i]);
                }
            } else if calls.last().0 == index {
                if i < calls.len() - 1 {
                    assert(after[i] == calls[i]);
                }
            } else {
                let inner = with_call(calls.drop_last(), index, part);
                if i < inner.len() {
                    assert(after[i] == inner[i]);
                }
            }
        }
    }
}

/// The turn that a list of calls, a text and a reasoning make.
pub open spec fn turn_of(s: Stream) -> Turn {
    Turn {
        text: s.text,
        reasoning: s.reasoning,
        calls: Seq::new(
            s.calls.len(),
            |i: int|
                Call {
                    call_id: s.calls[i].1.call_id,
                    name: s.calls[i].1.name,
                    arguments: s.calls[i].1.arguments,
                },
        ),
    }
}

impl StreamState {
    pub fn new() -> (s: StreamState)
        ensures
            s@ == fresh_stream(),
    {
        let s = StreamState {
            reasoning_started: false,
            message_started: false,
            reasoning: String::new(),
            text: String::new(),
            tool_calls: Vec::new(),
            usage: empty_usage(),
        };
        assert(part_calls(s.tool_calls@) =~= Seq::empty());
        s
    }

    fn turn_calls(&self) -> (calls: Vec<ToolCall>)
        ensures
            calls_of(calls@) == turn_of(self@).calls,
    {
        let mut calls: Vec<ToolCall> = Vec::new();
        let mut i: usize = 0;
        while i < self.tool_calls.len()
            invariant
                i <= self.tool_calls@.len(),
                calls@.len() == i,
                forall|k: int| 0 <= k < i ==> (#[trigger] calls@[k])@ == turn_of(self@).calls[k],
            decreases self.tool_calls@.len() - i,
        {
            let part = &self.tool_calls[i].1;
            calls.push(
                ToolCall {
                    call_id: part.call_id.clone(),
                    name: part.name.clone(),
                    arguments: part.arguments.clone(),
                },
            );
            i += 1;
        }
        assert(calls_of(calls@) =~= turn_of(self@).calls);
        calls
    }

    /// The turn so far.
    pub fn to_turn(&self) -> (turn: AssistantTurn)
        ensures
            turn@ == turn_of(self@),
    {
        AssistantTurn {
            reasoning: self.reasoning.clone(),
            text: self.text.clone(),
            tool_calls: self.turn_calls(),
        }
    }

    /// The turn so far, whose texts are taken out of the state.
    pub fn take_turn(&mut self) -> (turn: AssistantTurn)
        ensures
            turn@ == turn_of(old(self)@),
            final(self)@ == (Stream {
                reasoning: Seq::empty(),
                text: Seq::empty(),
                ..old(self)@
            }),
    {
        let turn = self.to_turn();
        self.reasoning = String::new();
        self.text = String::new();
        turn
    }

    pub fn has_reasoning(&self) -> (b: bool)
        ensures
            b == (self@.reasoning.len() > 0),
    {
        !self.reasoning.as_str().is_empty()
    }

    pub fn has_message(&self) -> (b: bool)
        ensures
            b == turn_of(self@).has_message(),
    {
        !self.text.as_str().is_empty() || self.tool_calls.len() == 0
    }

    pub(crate) fn call_at(&self, index: usize) -> (part: StreamToolCall)
        ensures
            part@ == call_with(self@.calls, index),
    {
        let ghost all = part_calls(self.tool_calls@);
        let mut n: usize = self.tool_calls.len();
        assert(all.take(n as int) =~= all);
        while n > 0
            invariant
                n <= self.tool_calls@.len(),
                all == part_calls(self.tool_calls@),
                all == self@.calls,
                call_with(all.take(n as int), index) == call_with(all, index),
            decreases n,
        {
            assert(all.take(n as int).drop_last() =~= all.take(n - 1));
            let entry = &self.tool_calls[n - 1];
            assert(all.take(n as int).last() == (entry.0, entry.1@));
            if entry.0 == index {
                return StreamToolCall {
                    call_id: entry.1.call_id.clone(),
                    name: entry.1.name.clone(),
                    arguments: entry.1.arguments.clone(),
                    added: entry.1.added,
                };
            }
            n -= 1;
        }
        StreamToolCall {
            call_id: String::new(),
            name: String::new(),
            arguments: String::new(),
            added: false,
        }
    }

    pub(crate) fn put_call(&mut self, index: usize, part: StreamToolCall)
        ensures
            final(self)@ == (Stream {
                calls: with_call(old(self)@.calls, index, part@),
                ..old(self)@
            }),
    {
        let ghost all = part_calls(self.tool_calls@);
        let mut n: usize = self.tool_calls.len();
        assert(all.take(n as int) =~= all);
        assert(all.skip(n as int) =~= Seq::empty());
        assert(with_call(all.take(n as int), index, part@) + all.skip(n as int) =~= with_call(
            all,
            index,
            part@,
        ));
        while n > 0 && self.tool_calls[n - 1].0 > index
            invariant
                n <= self.tool_calls@.len(),
                all == part_calls(self.tool_calls@),
                with_call(all.take(n as int), index, part@) + all.skip(n as int) == with_call(
                    all,
                    index,
                    part@,
                ),
            decreases n,
        {
            proof {
                let now = all.take(n as int);
                assert(now.drop_last() =~= all.take(n - 1));
                assert(now.last() == all[n - 1]);
                assert(all.skip(n - 1) =~= seq![all[n - 1]] + all.skip(n as int));
                assert(with_call(all.take(n - 1), index, part@) + all.skip(n - 1) =~= with_call(
                    now,
                    index,
                    part@,
                ) + all.skip(n as int));
            }
            n -= 1;
        }
        proof {
            if n > 0 {
                assert(all.take(n as int).last() == all[n - 1]);
            }
        }
        if n > 0 && self.tool_calls[n - 1].0 == index {
            self.tool_calls[n - 1] = (index, part);
            assert(part_calls(self.tool_calls@) =~= with_call(
                all.take(n as int),
                index,
                part@,
            ) + all.skip(n as int));
        } else {
            self.tool_calls.insert(n, (index, part));
            assert(part_calls(self.tool_calls@) =~= with_call(
                all.take(n as int),
                index,
                part@,
            ) + all.skip(n as int));
        }
    }
}

/// Whether two events close the reasoning of a turn: the first says what was thought, and
/// the second carries the whole item.
pub open spec fn closes_reasoning(a: Note, b: Note, turn: Turn, context: Context) -> bool {
    &&& a.name == "response.reasoning_summary_text.done"@
    &&& a.body.get("type"@) == Some(Json::Text(a.name))
    &&& a.body.get("output_index"@) == Some(count(0))
    &&& a.body.get("item_id"@) == Some(Json::Text(context.reasoning_id))
    &&& a.body.get("text"@) == Some(Json::Text(turn.reasoning))
    &&& closes_item(b, 0)
    &&& b.body.get("item"@) matches Some(item)
    &&& tells_reasoning(item, context.reasoning_id, "completed"@, turn.reasoning)
}

/// Whether an event says that the item at a place is complete.
pub open spec fn closes_item(note: Note, place: int) -> bool {
    &&& note.name == "response.output_item.done"@
    &&& note.body.get("type"@) == Some(Json::Text(note.name))
    &&& note.body.get("output_index"@) == Some(count(place as u64))
}

/// Whether three events close the message of a turn: they say what was said, by itself, in
/// its part and in its item.
pub open spec fn closes_message(
    a: Note,
    b: Note,
    c: Note,
    turn: Turn,
    context: Context,
    place: int,
) -> bool {
    &&& a.name == "response.output_text.done"@
    &&& a.body.get("type"@) == Some(Json::Text(a.name))
    &&& a.body.get("output_index"@) == Some(count(place as u64))
    &&& a.body.get("content_index"@) == Some(count(0))
    &&& a.body.get("item_id"@) == Some(Json::Text(context.message_id))
    &&& a.body.get("text"@) == Some(Json::Text(turn.text))
    &&& b.name == "response.content_part.done"@
    &&& b.body.get("type"@) == Some(Json::Text(b.name))
    &&& b.body.get("output_index"@) == Some(count(place as u64))
    &&& b.body.get("content_index"@) == Some(count(0))
    &&& b.body.get("item_id"@) == Some(Json::Text(context.message_id))
    &&& b.body.get("part"@) matches Some(part)
    &&& tells_text(part, turn.text)
    &&& closes_item(c, place)
    &&& c.body.get("item"@) matches Some(item)
    &&& tells_message(item, context.message_id, "completed"@, turn.text)
}

/// Whether two events close a call: the first carries its arguments, and the second the whole
/// item.
pub open spec fn closes_call(a: Note, b: Note, call: Call, place: int) -> bool {
    &&& a.name == "response.function_call_arguments.done"@
    &&& a.body.get("type"@) == Some(Json::Text(a.name))
    &&& a.body.get("output_index"@) == Some(count(place as u64))
    &&& a.body.get("item_id"@) == Some(Json::Text("fc_"@ + call.call_id))
    &&& a.body.get("arguments"@) == Some(Json::Text(call.arguments))
    &&& closes_item(b, place)
    &&& b.body.get("item"@) matches Some(item)
    &&& tells_call(item, call, "completed"@)
}

/// A turn is closed item by item: the reasoning, the message and the calls in their order,
/// each with all that it came to and under its place in the output.
pub proof fn law_closing_events_are_whole(turn: Turn, context: Context)
    requires
        turn.calls.len() + 2 <= usize::MAX,
    ensures
        ({
            let notes = turn_end(turn, context);
            let thought: int = if turn.reasoning.len() > 0 {
                1
            } else {
                0
            };
            let said: int = if turn.text.len() > 0 || turn.calls.len() == 0 {
                1
            } else {
                0
            };
            &&& notes.len() == 2 * thought + 3 * said + 2 * turn.calls.len()
            &&& thought == 1 ==> closes_reasoning(notes[0], notes[1], turn, context)
            &&& said == 1 ==> closes_message(
                notes[2 * thought],
                notes[2 * thought + 1],
                notes[2 * thought + 2],
                turn,
                context,
                thought,
            )
            &&& forall|i: int|
                #![trigger turn.calls[i]]
                0 <= i < turn.calls.len() ==> closes_call(
                    notes[2 * thought + 3 * said + 2 * i],
                    notes[2 * thought + 3 * said + 2 * i + 1],
                    turn.calls[i],
                    thought + said + i,
                )
        }),
{
    lemma_closing_words();
    let notes = turn_end(turn, context);
    let opened = reasoning_end(turn, context) + message_end(turn, context);
    let none = Call { call_id: Seq::empty(), name: Seq::empty(), arguments: Seq::empty() };
    law_items_tell_what_they_hold(context.reasoning_id, "completed"@, turn.reasoning, none);
    law_items_tell_what_they_hold(context.message_id, "completed"@, turn.text, none);
    lemma_calls_end_len(turn, turn.calls.len());
    let base = opened.len() as int;
    assert forall|i: int|
        #![trigger turn.calls[i]]
        0 <= i < turn.calls.len() implies closes_call(
        notes[base + 2 * i],
        notes[base + 2 * i + 1],
        turn.calls[i],
        turn.message_offset() + i,
    ) by {
        lemma_call_end(turn, turn.calls.len(), i);
        assert(notes[base + 2 * i] == calls_end(turn, turn.calls.len())[2 * i]);
        assert(notes[base + 2 * i + 1] == calls_end(turn, turn.calls.len())[2 * i + 1]);
    }
}

proof fn lemma_call_end(turn: Turn, n: nat, i: int)
    requires
        0 <= i < n <= turn.calls.len(),
        turn.calls.len() + 2 <= usize::MAX,
    ensures
        calls_end(turn, n).len() == 2 * n,
        closes_call(
            calls_end(turn, n)[2 * i],
            calls_end(turn, n)[2 * i + 1],
            turn.calls[i],
            turn.message_offset() + i,
        ),
    decreases n,
{
    lemma_calls_end_len(turn, n);
    lemma_calls_end_len(turn, (n - 1) as nat);
    if i < n - 1 {
        lemma_call_end(turn, (n - 1) as nat, i);
    } else {
        lemma_closing_words();
        law_items_tell_what_they_hold(
            Seq::empty(),
            "completed"@,
            Seq::empty(),
            turn.calls[i],
        );
    }
}

proof fn lemma_closing_words()
    ensures
        "type"@ != "output_index"@,
        "type"@ != "item"@,
        "type"@ != "content_index"@,
        "type"@ != "item_id"@,
        "type"@ != "part"@,
        "type"@ != "text"@,
        "type"@ != "logprobs"@,
        "type"@ != "arguments"@,
        "output_index"@ != "item"@,
        "output_index"@ != "content_index"@,
        "output_index"@ != "item_id"@,
        "output_index"@ != "part"@,
        "output_index"@ != "text"@,
        "output_index"@ != "logprobs"@,
        "output_index"@ != "arguments"@,
        "content_index"@ != "item_id"@,
        "content_index"@ != "part"@,
        "content_index"@ != "text"@,
        "content_index"@ != "logprobs"@,
        "item_id"@ != "part"@,
        "item_id"@ != "text"@,
        "item_id"@ != "logprobs"@,
        "item_id"@ != "arguments"@,
        "text"@ != "logprobs"@,
{
    reveal_strlit("type");
    reveal_strlit("output_index");
    reveal_strlit("item");
    reveal_strlit("content_index");
    reveal_strlit("item_id");
    reveal_strlit("part");
    reveal_strlit("text");
    reveal_strlit("logprobs");
    reveal_strlit("arguments");
    assert("type"@.len() == 4);
    assert("output_index"@.len() == 12);
    assert("item"@.len() == 4);
    assert("content_index"@.len() == 13);
    assert("item_id"@.len() == 7);
    assert("part"@.len() == 4);
    assert("text"@.len() == 4);
    assert("logprobs"@.len() == 8);
    assert("arguments"@.len() == 9);
    assert("type"@[0] == 't');
    assert("item"@[0] == 'i');
    assert("part"@[0] == 'p');
    assert("type"@[1] == 'y');
    assert("text"@[1] == 'e');
    assert("text"@[0] == 't');
}

/// The calls of a streamed turn are those that were kept, in the order of their indexes, each
/// with all that came for it.
pub proof fn law_streamed_calls_make_the_turn(s: Stream, i: int)
    requires
        ascending(s.calls),
        0 <= i < s.calls.len(),
    ensures
        turn_of(s).text == s.text,
        turn_of(s).reasoning == s.reasoning,
        turn_of(s).calls.len() == s.calls.len(),
        turn_of(s).calls[i].call_id == call_with(s.calls, s.calls[i].0).call_id,
        turn_of(s).calls[i].name == call_with(s.calls, s.calls[i].0).name,
        turn_of(s).calls[i].arguments == call_with(s.calls, s.calls[i].0).arguments,
{
    lemma_call_found(s.calls, i);
}

proof fn lemma_call_found(calls: Seq<(usize, PartCall)>, i: int)
    requires
        ascending(calls),
        0 <= i < calls.len(),
    ensures
        call_with(calls, calls[i].0) == calls[i].1,
    decreases calls.len(),
{
    if i < calls.len() - 1 {
        assert(calls[i].0 < calls[calls.len() - 1].0);
        let had = calls.drop_last();
        assert(forall|k: int| 0 <= k < had.len() ==> #[trigger] had[k] == calls[k]);
        lemma_call_found(had, i);
    }
}

/// An event carries what its note says, under the name of the note.
pub proof fn law_events_carry_their_notes(notes: Seq<Note>, start: u64, i: int, key: Seq<char>)
    requires
        0 <= i < notes.len(),
    ensures
        numbered(notes, start).len() == notes.len(),
        numbered(notes, start)[i].name == notes[i].name,
        key != "sequence_number"@ ==> numbered(notes, start)[i].payload.get(key)
            == notes[i].body.get(key),
{
}

} // verus!

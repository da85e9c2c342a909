//! Taking a chunk of an upstream's streamed answer into the state of a streamed turn.

use crate::json::{array_of, object_of, Json, JsonValue, Object};
use crate::number::Num;
use crate::reasoning::{
    extract_first_reasoning, first_reasoning, law_reasoning_is_never_empty, or_nothing,
};
use crate::response::{
    build_function_call_item, build_message_item, build_reasoning_item, call_output,
    law_items_tell_what_they_hold, message_output, reasoning_output, tells_call, tells_message,
    tells_reasoning, tells_text,
};
use crate::stream::{
    all_partial, arguments_body, arguments_delta, ascending, call_with, emit, emitted_of,
    is_partial, item_added, item_body, law_calls_are_kept_by_index, lemma_partial_names,
    number_after, numbered, part_added, part_body, reasoning_body, reasoning_delta, text_body,
    text_delta, turn_of, with_call, Note, PartCall, Stream, StreamEvent, StreamState,
};
use crate::translate::{Context, RequestContext};
use crate::turn::{message_output_offset, Call, ToolCall, Turn};
use crate::usage::count;
use vstd::prelude::*;
use vstd::string::*;

verus! {

/// The state of a streamed turn, and the events that led there.
#[verifier::ext_equal]
pub struct Progress {
    pub state: Stream,
    pub notes: Seq<Note>,
}

/// The change that a chunk describes.
pub open spec fn delta_of(chunk: Json) -> Option<Map<Seq<char>, Json>> {
    match chunk.get("choices"@) {
        Some(Json::Array(choices)) => if choices.len() == 0 {
            None
        } else {
            match choices[0].get("delta"@) {
                Some(Json::Object(m)) => Some(m),
                _ => None,
            }
        },
        _ => None,
    }
}

/// What comes of new reasoning. The first piece opens the reasoning item.
pub open spec fn after_reasoning(
    p: Progress,
    delta: Map<Seq<char>, Json>,
    context: Context,
) -> Progress {
    match first_reasoning(delta) {
        None => p,
        Some(r) => {
            let opened = if p.state.reasoning_started {
                p.notes
            } else {
                p.notes.push(
                    item_added(0, reasoning_output(context.reasoning_id, "in_progress"@, ""@)),
                )
            };
            Progress {
                state: Stream {
                    reasoning_started: true,
                    reasoning: p.state.reasoning + r,
                    ..p.state
                },
                notes: opened.push(reasoning_delta(context.reasoning_id, r)),
            }
        },
    }
}

/// The texts of a list of parts, one after the other.
pub open spec fn parts_text(parts: Seq<Json>) -> Seq<char>
    decreases parts.len(),
{
    if parts.len() == 0 {
        Seq::empty()
    } else {
        parts_text(parts.drop_last()) + (match parts.last().text_at("text"@) {
            Some(t) => t,
            None => Seq::empty(),
        })
    }
}

/// The new text that a chunk brings.
pub open spec fn content_text(content: Option<Json>) -> Seq<char> {
    match content {
        Some(Json::Text(t)) => t,
        Some(Json::Array(parts)) => parts_text(parts),
        _ => Seq::empty(),
    }
}

/// The output index of the message.
pub open spec fn message_index(state: Stream) -> u64 {
    if state.reasoning.len() > 0 {
        1
    } else {
        0
    }
}

/// What comes of new text. The first piece opens the message item and its content part.
pub open spec fn after_content(p: Progress, content: Option<Json>, context: Context) -> Progress {
    let text = content_text(content);
    let index = message_index(p.state);
    if text.len() == 0 {
        p
    } else {
        let opened = if p.state.message_started {
            p.notes
        } else {
            p.notes.push(
                item_added(index, message_output(context.message_id, "in_progress"@, ""@)),
            ).push(part_added(index, context.message_id))
        };
        Progress {
            state: Stream { message_started: true, text: p.state.text + text, ..p.state },
            notes: opened.push(text_delta(index, context.message_id, text)),
        }
    }
}

/// The index of the call that a piece belongs to.
pub open spec fn piece_index(piece: Json) -> usize {
    match piece.get("index"@) {
        Some(v) => match v.as_u64() {
            Some(n) => n as usize,
            None => 0,
        },
        None => 0,
    }
}

/// A text in the function of a piece.
pub open spec fn function_text(piece: Json, key: Seq<char>) -> Option<Seq<char>> {
    match piece.get("function"@) {
        Some(f) => f.text_at(key),
        None => None,
    }
}

/// A text, empty where there is none.
pub open spec fn or_empty(t: Option<Seq<char>>) -> Seq<char> {
    match t {
        Some(t) => t,
        None => Seq::empty(),
    }
}

/// A call with one more piece: a new identifier replaces, names and arguments grow.
pub open spec fn grown(part: PartCall, piece: Json) -> PartCall {
    PartCall {
        call_id: match piece.text_at("id"@) {
            Some(id) => id,
            None => part.call_id,
        },
        name: part.name + or_empty(function_text(piece, "name"@)),
        arguments: part.arguments + or_empty(function_text(piece, "arguments"@)),
        added: part.added,
    }
}

/// What comes of one piece of a call. A call is announced once its identifier and its
/// name are known, with the arguments that came until then; after that, each piece of
/// its arguments is passed on.
pub open spec fn after_piece(p: Progress, piece: Json) -> Progress {
    let index = piece_index(piece);
    let before = call_with(p.state.calls, index);
    let part = grown(before, piece);
    let announce = !before.added && part.call_id.len() > 0 && part.name.len() > 0;
    let kept = if announce {
        PartCall { added: true, ..part }
    } else {
        part
    };
    let state = Stream { calls: with_call(p.state.calls, index, kept), ..p.state };
    let place = (turn_of(state).message_offset() as usize).wrapping_add(index) as u64;
    let more = or_empty(function_text(piece, "arguments"@));
    let notes = if announce {
        let call = Call { call_id: part.call_id, name: part.name, arguments: Seq::empty() };
        p.notes.push(item_added(place, call_output(call, "in_progress"@))).push(
            arguments_delta(place, part.call_id, part.arguments),
        )
    } else if before.added && more.len() > 0 {
        p.notes.push(arguments_delta(place, part.call_id, more))
    } else {
        p.notes
    };
    Progress { state, notes }
}

/// What comes of a list of pieces.
pub open spec fn after_pieces(p: Progress, pieces: Seq<Json>) -> Progress
    decreases pieces.len(),
{
    if pieces.len() == 0 {
        p
    } else {
        after_piece(after_pieces(p, pieces.drop_last()), pieces.last())
    }
}

/// What comes of a chunk.
pub open spec fn after_chunk(state: Stream, chunk: Json, context: Context) -> Progress {
    let p = Progress { state, notes: Seq::empty() };
    match delta_of(chunk) {
        None => p,
        Some(delta) => {
            let q = after_content(
                after_reasoning(p, delta, context),
                delta.get("content"@),
                context,
            );
            match delta.get("tool_calls"@) {
                Some(Json::Array(pieces)) => after_pieces(q, pieces),
                _ => q,
            }
        },
    }
}

fn find_delta(chunk: &JsonValue) -> (delta: Option<&Object>)
    ensures
        match delta {
            Some(o) => delta_of(chunk@) == Some(object_of(*o)),
            None => delta_of(chunk@) is None,
        },
{
    let choices = match chunk.get("choices") {
        Some(JsonValue::Array(choices)) => choices,
        _ => return None,
    };
    if choices.len() == 0 {
        return None;
    }
    assert(array_of(choices@)[0] == choices@[0]@);
    match choices[0].get("delta") {
        Some(JsonValue::Object(o)) => Some(o),
        _ => None,
    }
}

/// The new text that a chunk brings.
fn delta_text(content: Option<&JsonValue>) -> (text: String)
    ensures
        text@ == content_text(content.deep_view()),
{
    match content {
        Some(JsonValue::Text(t)) => t.clone(),
        Some(JsonValue::Array(parts)) => {
            let ghost all = array_of(parts@);
            let mut text = String::new();
            let mut i: usize = 0;
            assert(all.take(0) =~= Seq::empty());
            while i < parts.len()
                invariant
                    i <= parts@.len(),
                    all == array_of(parts@),
                    text@ == parts_text(all.take(i as int)),
                decreases parts@.len() - i,
            {
                assert(all.take(i + 1).drop_last() =~= all.take(i as int));
                assert(all[i as int] == parts@[i as int]@);
                match parts[i].text_at("text") {
                    Some(t) => text.append(t),
                    None => {
                        assert(text@ + Seq::<char>::empty() =~= text@);
                    },
                }
                i += 1;
            }
            assert(all.take(i as int) =~= all);
            text
        },
        _ => String::new(),
    }
}

fn apply_reasoning(
    state: &mut StreamState,
    delta: &Object,
    context: &RequestContext,
    events: &mut Vec<StreamEvent>,
    sequence_number: &mut u64,
    Ghost(p): Ghost<Progress>,
    Ghost(start): Ghost<u64>,
)
    requires
        p.state == old(state)@,
        emitted_of(old(events)@) == numbered(p.notes, start),
        *old(sequence_number) == number_after(start, p.notes.len()),
    ensures
        ({
            let q = after_reasoning(p, object_of(*delta), context@);
            &&& q.state == final(state)@
            &&& emitted_of(final(events)@) == numbered(q.notes, start)
            &&& *final(sequence_number) == number_after(start, q.notes.len())
        }),
{
    let reasoning = match extract_first_reasoning(delta) {
        Some(r) => r,
        None => return,
    };
    let ghost mut notes = p.notes;
    if !state.reasoning_started {
        state.reasoning_started = true;
        let name = "response.output_item.added";
        let item = build_reasoning_item(context, "in_progress", "");
        emit(
            events,
            sequence_number,
            name,
            item_body(name, 0, item),
            Ghost(notes),
            Ghost(start),
        );
        proof {
            notes = notes.push(item_added(0, item@));
        }
    }
    state.reasoning.append(reasoning.as_str());
    let name = "response.reasoning_summary_text.delta";
    let body = reasoning_body(
        name,
        context.reasoning_id.as_str(),
        "delta",
        reasoning.as_str(),
    );
    emit(events, sequence_number, name, body, Ghost(notes), Ghost(start));
}

fn apply_content(
    state: &mut StreamState,
    content: Option<&JsonValue>,
    context: &RequestContext,
    events: &mut Vec<StreamEvent>,
    sequence_number: &mut u64,
    Ghost(p): Ghost<Progress>,
    Ghost(start): Ghost<u64>,
)
    requires
        p.state == old(state)@,
        emitted_of(old(events)@) == numbered(p.notes, start),
        *old(sequence_number) == number_after(start, p.notes.len()),
    ensures
        ({
            let q = after_content(p, content.deep_view(), context@);
            &&& q.state == final(state)@
            &&& emitted_of(final(events)@) == numbered(q.notes, start)
            &&& *final(sequence_number) == number_after(start, q.notes.len())
        }),
{
    let text = delta_text(content);
    if text.as_str().is_empty() {
        return;
    }
    let ghost mut notes = p.notes;
    let index: u64 = if state.has_reasoning() {
        1
    } else {
        0
    };
    let id = context.message_id.as_str();
    if !state.message_started {
        state.message_started = true;
        let name = "response.output_item.added";
        let item = build_message_item(context, "in_progress", "");
        emit(
            events,
            sequence_number,
            name,
            item_body(name, index, item),
            Ghost(notes),
            Ghost(start),
        );
        proof {
            notes = notes.push(item_added(index, item@));
        }
        let name = "response.content_part.added";
        emit(
            events,
            sequence_number,
            name,
            part_body(name, index, id, ""),
            Ghost(notes),
            Ghost(start),
        );
        proof {
            notes = notes.push(part_added(index, id@));
        }
    }
    state.text.append(text.as_str());
    let name = "response.output_text.delta";
    let body = text_body(name, index, id, "delta", text.as_str());
    emit(events, sequence_number, name, body, Ghost(notes), Ghost(start));
}

fn text_or_empty(piece: &JsonValue, key: &str) -> (text: String)
    ensures
        text@ == or_empty(function_text(piece@, key@)),
{
    match piece.get("function") {
        Some(f) => match f.text_at(key) {
            Some(t) => t.to_owned(),
            None => String::new(),
        },
        None => String::new(),
    }
}

fn apply_piece(
    state: &mut StreamState,
    piece: &JsonValue,
    events: &mut Vec<StreamEvent>,
    sequence_number: &mut u64,
    Ghost(p): Ghost<Progress>,
    Ghost(start): Ghost<u64>,
)
    requires
        p.state == old(state)@,
        emitted_of(old(events)@) == numbered(p.notes, start),
        *old(sequence_number) == number_after(start, p.notes.len()),
    ensures
        ({
            let q = after_piece(p, piece@);
            &&& q.state == final(state)@
            &&& emitted_of(final(events)@) == numbered(q.notes, start)
            &&& *final(sequence_number) == number_after(start, q.notes.len())
        }),
{
    let ghost mut notes = p.notes;
    let index: usize = match piece.get("index") {
        Some(v) => match v.as_u64() {
            Some(n) => n as usize,
            None => 0,
        },
        None => 0,
    };
    let mut part = state.call_at(index);
    let was_added = part.added;
    if let Some(id) = piece.text_at("id") {
        part.call_id = id.to_owned();
    }
    part.name.append(text_or_empty(piece, "name").as_str());
    let more = text_or_empty(piece, "arguments");
    part.arguments.append(more.as_str());
    assert(part@ == grown(call_with(p.state.calls, index), piece@));
    let announce = !was_added && !part.call_id.as_str().is_empty() && !part.name.as_str().is_empty();
    if announce {
        part.added = true;
    }
    let call_id = part.call_id.clone();
    let name_so_far = part.name.clone();
    let arguments = part.arguments.clone();
    state.put_call(index, part);
    let place: u64 = message_output_offset(&state.to_turn()).wrapping_add(index) as u64;
    if announce {
        let name = "response.output_item.added";
        let call = ToolCall {
            call_id: call_id.clone(),
            name: name_so_far,
            arguments: String::new(),
        };
        let item = build_function_call_item(&call, "in_progress");
        emit(
            events,
            sequence_number,
            name,
            item_body(name, place, item),
            Ghost(notes),
            Ghost(start),
        );
        proof {
            notes = notes.push(item_added(place, item@));
        }
        let name = "response.function_call_arguments.delta";
        let body = arguments_body(name, place, call_id.as_str(), "delta", arguments.as_str());
        emit(events, sequence_number, name, body, Ghost(notes), Ghost(start));
    } else if was_added && !more.as_str().is_empty() {
        let name = "response.function_call_arguments.delta";
        let body = arguments_body(name, place, call_id.as_str(), "delta", more.as_str());
        emit(events, sequence_number, name, body, Ghost(notes), Ghost(start));
    }
}

/// Takes a chunk into the state of a streamed turn, and gives the events that come of it.
pub fn apply_stream_delta(
    state: &mut StreamState,
    value: &JsonValue,
    context: &RequestContext,
    sequence_number: &mut u64,
) -> (events: Vec<StreamEvent>)
    ensures
        ({
            let after = after_chunk(old(state)@, value@, context@);
            &&& final(state)@ == after.state
            &&& emitted_of(events@) == numbered(after.notes, *old(sequence_number))
            &&& *final(sequence_number) == number_after(*old(sequence_number), after.notes.len())
        }),
{
    let ghost start = *sequence_number;
    let ghost first = Progress { state: state@, notes: Seq::empty() };
    let mut events: Vec<StreamEvent> = Vec::new();
    assert(emitted_of(events@) =~= numbered(first.notes, start));
    let delta = match find_delta(value) {
        Some(delta) => delta,
        None => return events,
    };
    apply_reasoning(
        state,
        delta,
        context,
        &mut events,
        sequence_number,
        Ghost(first),
        Ghost(start),
    );
    let ghost thought = after_reasoning(first, object_of(*delta), context@);
    let content = delta.member("content");
    apply_content(
        state,
        content,
        context,
        &mut events,
        sequence_number,
        Ghost(thought),
        Ghost(start),
    );
    let ghost said = after_content(thought, content.deep_view(), context@);
    match delta.member("tool_calls") {
        Some(JsonValue::Array(pieces)) => {
            let ghost all = array_of(pieces@);
            let ghost mut p = said;
            let mut i: usize = 0;
            assert(all.take(0) =~= Seq::empty());
            while i < pieces.len()
                invariant
                    i <= pieces@.len(),
                    all == array_of(pieces@),
                    p == after_pieces(said, all.take(i as int)),
                    p.state == state@,
                    emitted_of(events@) == numbered(p.notes, start),
                    *sequence_number == number_after(start, p.notes.len()),
                decreases pieces@.len() - i,
            {
                assert(all.take(i + 1).drop_last() =~= all.take(i as int));
                assert(all[i as int] == pieces@[i as int]@);
                apply_piece(
                    state,
                    &pieces[i],
                    &mut events,
                    sequence_number,
                    Ghost(p),
                    Ghost(start),
                );
                proof {
                    p = after_piece(p, all[i as int]);
                }
                i += 1;
            }
            assert(all.take(i as int) =~= all);
        },
        _ => {},
    }
    events
}

/// The pieces that the events of one name carry, one after the other.
pub open spec fn pieces_of(notes: Seq<Note>, name: Seq<char>) -> Seq<char>
    decreases notes.len(),
{
    if notes.len() == 0 {
        Seq::empty()
    } else {
        let earlier = pieces_of(notes.drop_last(), name);
        if notes.last().name == name {
            match notes.last().body["delta"@] {
                Json::Text(t) => earlier + t,
                _ => earlier,
            }
        } else {
            earlier
        }
    }
}

proof fn lemma_event_names()
    ensures
        "response.output_text.delta"@ != "response.output_item.added"@,
        "response.output_text.delta"@ != "response.content_part.added"@,
        "response.output_text.delta"@ != "response.reasoning_summary_text.delta"@,
        "response.output_text.delta"@ != "response.function_call_arguments.delta"@,
        "response.reasoning_summary_text.delta"@ != "response.output_item.added"@,
        "response.reasoning_summary_text.delta"@ != "response.content_part.added"@,
        "response.reasoning_summary_text.delta"@ != "response.function_call_arguments.delta"@,
{
    reveal_strlit("response.output_text.delta");
    reveal_strlit("response.output_item.added");
    reveal_strlit("response.content_part.added");
    reveal_strlit("response.reasoning_summary_text.delta");
    reveal_strlit("response.function_call_arguments.delta");
    assert("response.output_text.delta"@[16] == 't');
    assert("response.output_item.added"@[16] == 'i');
    assert("response.content_part.added"@[9] == 'c');
    assert("response.output_text.delta"@[9] == 'o');
    assert("response.reasoning_summary_text.delta"@[9] == 'r');
    assert("response.function_call_arguments.delta"@[9] == 'f');
}

proof fn lemma_member_names()
    ensures
        "delta"@ != "logprobs"@,
{
    reveal_strlit("delta");
    reveal_strlit("logprobs");
    assert("delta"@.len() == 5);
    assert("logprobs"@.len() == 8);
}

proof fn lemma_push_piece(notes: Seq<Note>, note: Note, name: Seq<char>)
    ensures
        pieces_of(notes.push(note), name) == (if note.name == name {
            match note.body["delta"@] {
                Json::Text(t) => pieces_of(notes, name) + t,
                _ => pieces_of(notes, name),
            }
        } else {
            pieces_of(notes, name)
        }),
{
    assert(notes.push(note).drop_last() =~= notes);
}

proof fn lemma_pieces_bring_no_text(p: Progress, pieces: Seq<Json>, name: Seq<char>)
    requires
        name != "response.output_item.added"@,
        name != "response.function_call_arguments.delta"@,
    ensures
        pieces_of(after_pieces(p, pieces).notes, name) == pieces_of(p.notes, name),
        after_pieces(p, pieces).state.text == p.state.text,
        after_pieces(p, pieces).state.reasoning == p.state.reasoning,
    decreases pieces.len(),
{
    if pieces.len() > 0 {
        lemma_pieces_bring_no_text(p, pieces.drop_last(), name);
        let q = after_pieces(p, pieces.drop_last());
        let piece = pieces.last();
        let index = piece_index(piece);
        let before = call_with(q.state.calls, index);
        let part = grown(before, piece);
        let after = after_piece(q, piece);
        let place = (turn_of(after.state).message_offset() as usize).wrapping_add(index) as u64;
        let more = or_empty(function_text(piece, "arguments"@));
        let call = Call { call_id: part.call_id, name: part.name, arguments: Seq::empty() };
        let added = item_added(place, call_output(call, "in_progress"@));
        lemma_push_piece(q.notes, added, name);
        lemma_push_piece(
            q.notes.push(added),
            arguments_delta(place, part.call_id, part.arguments),
            name,
        );
        lemma_push_piece(q.notes, arguments_delta(place, part.call_id, more), name);
    }
}

/// What the events of a chunk carry is what the turn gains: the text pieces are its new
/// text, and the reasoning pieces its new reasoning.
pub proof fn law_pieces_add_up(state: Stream, chunk: Json, context: Context)
    ensures
        ({
            let after = after_chunk(state, chunk, context);
            &&& after.state.text == state.text + pieces_of(
                after.notes,
                "response.output_text.delta"@,
            )
            &&& after.state.reasoning == state.reasoning + pieces_of(
                after.notes,
                "response.reasoning_summary_text.delta"@,
            )
        }),
{
    lemma_event_names();
    lemma_member_names();
    let t = "response.output_text.delta"@;
    let r = "response.reasoning_summary_text.delta"@;
    let p = Progress { state, notes: Seq::empty() };
    assert(state.text + Seq::<char>::empty() =~= state.text);
    assert(state.reasoning + Seq::<char>::empty() =~= state.reasoning);
    if let Some(delta) = delta_of(chunk) {
        let q = after_reasoning(p, delta, context);
        if let Some(piece) = first_reasoning(delta) {
            let opened = item_added(0, reasoning_output(context.reasoning_id, "in_progress"@, ""@));
            let more = reasoning_delta(context.reasoning_id, piece);
            lemma_push_piece(p.notes, opened, t);
            lemma_push_piece(p.notes, opened, r);
            lemma_push_piece(p.notes, more, t);
            lemma_push_piece(p.notes, more, r);
            lemma_push_piece(p.notes.push(opened), more, t);
            lemma_push_piece(p.notes.push(opened), more, r);
            assert(Seq::<char>::empty() + piece =~= piece);
        }
        assert(pieces_of(q.notes, t) =~= Seq::empty());
        assert(q.state.reasoning == state.reasoning + pieces_of(q.notes, r));
        let s = after_content(q, delta.get("content"@), context);
        let text = content_text(delta.get("content"@));
        let index = message_index(q.state);
        if text.len() > 0 {
            let opened = item_added(
                index,
                message_output(context.message_id, "in_progress"@, ""@),
            );
            let part = part_added(index, context.message_id);
            let more = text_delta(index, context.message_id, text);
            lemma_push_piece(q.notes, opened, t);
            lemma_push_piece(q.notes, opened, r);
            lemma_push_piece(q.notes.push(opened), part, t);
            lemma_push_piece(q.notes.push(opened), part, r);
            lemma_push_piece(q.notes.push(opened).push(part), more, t);
            lemma_push_piece(q.notes.push(opened).push(part), more, r);
            lemma_push_piece(q.notes, more, t);
            lemma_push_piece(q.notes, more, r);
            assert(Seq::<char>::empty() + text =~= text);
        }
        assert(s.state.text =~= state.text + pieces_of(s.notes, t));
        if let Some(Json::Array(pieces)) = delta.get("tool_calls"@) {
            lemma_pieces_bring_no_text(s, pieces, t);
            lemma_pieces_bring_no_text(s, pieces, r);
        }
    }
}

/// The pieces of two lists of events, one after the other, are those of both.
pub proof fn lemma_pieces_join(a: Seq<Note>, b: Seq<Note>, name: Seq<char>)
    ensures
        pieces_of(a + b, name) == pieces_of(a, name) + pieces_of(b, name),
    decreases b.len(),
{
    if b.len() == 0 {
        assert(a + b =~= a);
        assert(pieces_of(a, name) + Seq::<char>::empty() =~= pieces_of(a, name));
    } else {
        lemma_pieces_join(a, b.drop_last(), name);
        assert((a + b).drop_last() =~= a + b.drop_last());
        assert((a + b).last() == b.last());
        if b.last().name == name {
            if let Json::Text(t) = b.last().body["delta"@] {
                assert(pieces_of(a, name) + (pieces_of(b.drop_last(), name) + t) =~= pieces_of(
                    a,
                    name,
                ) + pieces_of(b.drop_last(), name) + t);
            }
        }
    }
}

/// What a piece of a call sends on is what the call gains: nothing until it is announced,
/// all of its arguments so far when it is, and each further piece after that.
pub proof fn law_argument_pieces_add_up(p: Progress, piece: Json)
    requires
        ascending(p.state.calls),
    ensures
        ({
            let name = "response.function_call_arguments.delta"@;
            let index = piece_index(piece);
            let before = call_with(p.state.calls, index);
            let q = after_piece(p, piece);
            let after = call_with(q.state.calls, index);
            let had = pieces_of(p.notes, name);
            let sent = pieces_of(q.notes, name);
            &&& before.added ==> after.added && exists|more: Seq<char>|
                after.arguments == #[trigger] (before.arguments + more) && sent == had + more
            &&& !before.added && after.added ==> sent == had + after.arguments
            &&& !after.added ==> sent == had
        }),
{
    reveal_strlit("response.function_call_arguments.delta");
    reveal_strlit("response.output_item.added");
    assert("response.output_item.added"@.len() == 26);
    assert("response.function_call_arguments.delta"@.len() == 38);
    let name = "response.function_call_arguments.delta"@;
    let index = piece_index(piece);
    let before = call_with(p.state.calls, index);
    let part = grown(before, piece);
    let q = after_piece(p, piece);
    let announce = !before.added && part.call_id.len() > 0 && part.name.len() > 0;
    let kept = if announce {
        PartCall { added: true, ..part }
    } else {
        part
    };
    law_calls_are_kept_by_index(p.state.calls, index, kept, index);
    assert(call_with(q.state.calls, index) == kept);
    let place = (turn_of(q.state).message_offset() as usize).wrapping_add(index) as u64;
    let more = or_empty(function_text(piece, "arguments"@));
    let call = Call { call_id: part.call_id, name: part.name, arguments: Seq::empty() };
    let added = item_added(place, call_output(call, "in_progress"@));
    lemma_push_piece(p.notes, added, name);
    lemma_push_piece(
        p.notes.push(added),
        arguments_delta(place, part.call_id, part.arguments),
        name,
    );
    lemma_push_piece(p.notes, arguments_delta(place, part.call_id, more), name);
    if before.added {
        assert(kept.arguments == before.arguments + more);
        if more.len() == 0 {
            assert(pieces_of(p.notes, name) + more =~= pieces_of(p.notes, name));
        }
    }
}

/// Whatever chunks come, the calls of a turn stay in ascending order of their indexes.
pub proof fn law_calls_stay_in_order(state: Stream, chunk: Json, context: Context)
    requires
        ascending(state.calls),
    ensures
        ascending(after_chunk(state, chunk, context).state.calls),
{
    let p = Progress { state, notes: Seq::empty() };
    if let Some(delta) = delta_of(chunk) {
        let q = after_content(
            after_reasoning(p, delta, context),
            delta.get("content"@),
            context,
        );
        if let Some(Json::Array(pieces)) = delta.get("tool_calls"@) {
            lemma_pieces_keep_order(q, pieces);
        }
    }
}

proof fn lemma_pieces_keep_order(p: Progress, pieces: Seq<Json>)
    requires
        ascending(p.state.calls),
    ensures
        ascending(after_pieces(p, pieces).state.calls),
    decreases pieces.len(),
{
    if pieces.len() > 0 {
        lemma_pieces_keep_order(p, pieces.drop_last());
        let q = after_pieces(p, pieces.drop_last());
        let piece = pieces.last();
        let index = piece_index(piece);
        let before = call_with(q.state.calls, index);
        let part = grown(before, piece);
        law_calls_are_kept_by_index(q.state.calls, index, part, index);
        law_calls_are_kept_by_index(
            q.state.calls,
            index,
            PartCall { added: true, ..part },
            index,
        );
    }
}

/// The events that come of a chunk tell of parts of the answer.
pub proof fn lemma_chunk_is_partial(state: Stream, chunk: Json, context: Context)
    ensures
        all_partial(after_chunk(state, chunk, context).notes),
{
    let p = Progress { state, notes: Seq::empty() };
    if let Some(delta) = delta_of(chunk) {
        let thought = after_reasoning(p, delta, context);
        lemma_grown_by_partial(p.notes, thought.notes);
        let q = after_content(thought, delta.get("content"@), context);
        lemma_grown_by_partial(thought.notes, q.notes);
        if let Some(Json::Array(pieces)) = delta.get("tool_calls"@) {
            lemma_pieces_are_partial(q, pieces);
        }
    }
}

/// Events that are added to partial ones, and bear the names of partial ones, leave all of
/// them partial.
proof fn lemma_grown_by_partial(before: Seq<Note>, after: Seq<Note>)
    requires
        all_partial(before),
        before.is_prefix_of(after),
        forall|i: int|
            before.len() <= i < after.len() ==> has_partial_name(#[trigger] after[i]),
    ensures
        all_partial(after),
{
    assert forall|i: int| 0 <= i < after.len() implies is_partial(#[trigger] after[i]) by {
        if i < before.len() {
            assert(after[i] == before[i]);
        } else {
            lemma_partial_names(after[i]);
        }
    }
}

/// Whether an event is one that chunks give.
spec fn has_partial_name(note: Note) -> bool {
    note.name == "response.output_item.added"@ || note.name
        == "response.reasoning_summary_text.delta"@ || note.name == "response.content_part.added"@
        || note.name == "response.output_text.delta"@ || note.name
        == "response.function_call_arguments.delta"@
}

proof fn lemma_pieces_are_partial(p: Progress, pieces: Seq<Json>)
    requires
        all_partial(p.notes),
    ensures
        all_partial(after_pieces(p, pieces).notes),
    decreases pieces.len(),
{
    if pieces.len() > 0 {
        lemma_pieces_are_partial(p, pieces.drop_last());
        let had = after_pieces(p, pieces.drop_last());
        lemma_grown_by_partial(had.notes, after_piece(had, pieces.last()).notes);
    }
}

/// The change in a chunk: that of its first choice.
pub open spec fn first_delta(chunk: Json) -> Option<Json> {
    match chunk.get("choices"@) {
        Some(Json::Array(choices)) => if choices.len() > 0 {
            choices[0].get("delta"@)
        } else {
            None
        },
        _ => None,
    }
}

/// A chunk adds its text and its reasoning to the turn, as they stand in it. A chunk without
/// a change adds nothing, and nothing comes of it.
pub proof fn law_chunks_add_what_they_bring(state: Stream, chunk: Json, context: Context)
    ensures
        ({
            let after = after_chunk(state, chunk, context);
            &&& !(first_delta(chunk) matches Some(Json::Object(_))) ==> after.state == state
                && after.notes.len() == 0
            &&& first_delta(chunk) matches Some(Json::Object(m)) ==> {
                &&& m.get("content"@) matches Some(Json::Text(t)) ==> after.state.text
                    == state.text + t
                &&& m.get("content"@) is None || m.get("content"@) == Some(Json::Null)
                    ==> after.state.text == state.text
                &&& after.state.reasoning == state.reasoning + or_nothing(first_reasoning(m))
                &&& after.state.usage == state.usage
                &&& !(m.get("tool_calls"@) matches Some(Json::Array(_))) ==> after.state.calls
                    == state.calls
            }
        }),
{
    if let Some(Json::Object(m)) = first_delta(chunk) {
        let p = Progress { state, notes: Seq::empty() };
        let q = after_content(after_reasoning(p, m, context), m.get("content"@), context);
        assert(state.reasoning + Seq::<char>::empty() =~= state.reasoning);
        assert(state.text + Seq::<char>::empty() =~= state.text);
        if let Some(Json::Text(t)) = m.get("content"@) {
            if t.len() == 0 {
                assert(state.text + t =~= state.text);
            }
        }
        if let Some(Json::Array(pieces)) = m.get("tool_calls"@) {
            lemma_pieces_keep_the_rest(q, pieces);
        }
    }
}

proof fn lemma_pieces_keep_the_rest(p: Progress, pieces: Seq<Json>)
    ensures
        after_pieces(p, pieces).state == (Stream {
            calls: after_pieces(p, pieces).state.calls,
            ..p.state
        }),
    decreases pieces.len(),
{
    if pieces.len() > 0 {
        lemma_pieces_keep_the_rest(p, pieces.drop_last());
    }
}

/// Text that comes as a list of parts is that of the parts, one after the other.
pub proof fn law_text_parts_are_joined(
    state: Stream,
    parts: Seq<Json>,
    part: Json,
    context: Context,
)
    ensures
        ({
            let p = Progress { state, notes: Seq::empty() };
            let had = after_content(p, Some(Json::Array(parts)), context).state.text;
            let now = after_content(p, Some(Json::Array(parts.push(part))), context).state.text;
            now == had + or_nothing(part.text_at("text"@))
        }),
        after_content(
            (Progress { state, notes: Seq::empty() }),
            Some(Json::Array(Seq::empty())),
            context,
        ).state.text == state.text,
{
    let all = parts.push(part);
    let t = or_nothing(part.text_at("text"@));
    assert(all.drop_last() =~= parts);
    assert(parts_text(all) == parts_text(parts) + t);
    assert(state.text + (parts_text(parts) + t) =~= (state.text + parts_text(parts)) + t);
    if parts_text(parts).len() == 0 {
        assert(state.text + parts_text(parts) =~= state.text);
    }
    if parts_text(all).len() == 0 {
        assert(state.text + parts_text(all) =~= state.text);
    }
}

/// The index of the call that a piece belongs to, the first one where it names none.
pub open spec fn index_in(piece: Json) -> usize {
    match piece.get("index"@) {
        Some(Json::Num(Num::Unsigned(n))) => n as usize,
        _ => 0,
    }
}

/// A text in the function of a piece.
pub open spec fn text_in_function(piece: Json, key: Seq<char>) -> Seq<char> {
    match piece.get("function"@) {
        Some(f) => or_nothing(f.text_at(key)),
        None => Seq::empty(),
    }
}

/// The texts that pieces bring for the call under `index`, one after the other.
pub open spec fn brought(pieces: Seq<Json>, index: usize, key: Seq<char>) -> Seq<char>
    decreases pieces.len(),
{
    if pieces.len() == 0 {
        Seq::empty()
    } else {
        let had = brought(pieces.drop_last(), index, key);
        if index_in(pieces.last()) == index {
            had + text_in_function(pieces.last(), key)
        } else {
            had
        }
    }
}

/// The last identifier that pieces bring for the call under `index`.
pub open spec fn brought_id(pieces: Seq<Json>, index: usize) -> Option<Seq<char>>
    decreases pieces.len(),
{
    if pieces.len() == 0 {
        None
    } else if index_in(pieces.last()) == index && pieces.last().text_at("id"@) is Some {
        pieces.last().text_at("id"@)
    } else {
        brought_id(pieces.drop_last(), index)
    }
}

/// The pieces of a chunk add to the calls that they belong to, each under its index: names
/// and arguments grow by what the pieces bring, in order, and a new identifier replaces the
/// old one.
pub proof fn law_calls_gain_what_their_pieces_bring(
    state: Stream,
    chunk: Json,
    context: Context,
    m: Map<Seq<char>, Json>,
    pieces: Seq<Json>,
    index: usize,
)
    requires
        ascending(state.calls),
        first_delta(chunk) == Some(Json::Object(m)),
        m.get("tool_calls"@) == Some(Json::Array(pieces)),
    ensures
        ({
            let before = call_with(state.calls, index);
            let after = call_with(after_chunk(state, chunk, context).state.calls, index);
            &&& after.name == before.name + brought(pieces, index, "name"@)
            &&& after.arguments == before.arguments + brought(pieces, index, "arguments"@)
            &&& after.call_id == (match brought_id(pieces, index) {
                Some(id) => id,
                None => before.call_id,
            })
        }),
{
    let p = Progress { state, notes: Seq::empty() };
    let q = after_content(after_reasoning(p, m, context), m.get("content"@), context);
    lemma_pieces_gain(q, pieces, index);
}

proof fn lemma_pieces_gain(p: Progress, pieces: Seq<Json>, index: usize)
    requires
        ascending(p.state.calls),
    ensures
        ascending(after_pieces(p, pieces).state.calls),
        ({
            let before = call_with(p.state.calls, index);
            let after = call_with(after_pieces(p, pieces).state.calls, index);
            &&& after.name == before.name + brought(pieces, index, "name"@)
            &&& after.arguments == before.arguments + brought(pieces, index, "arguments"@)
            &&& after.call_id == (match brought_id(pieces, index) {
                Some(id) => id,
                None => before.call_id,
            })
        }),
    decreases pieces.len(),
{
    let before = call_with(p.state.calls, index);
    if pieces.len() == 0 {
        assert(before.name + Seq::<char>::empty() =~= before.name);
        assert(before.arguments + Seq::<char>::empty() =~= before.arguments);
    } else {
        let had = pieces.drop_last();
        let piece = pieces.last();
        lemma_pieces_gain(p, had, index);
        let q = after_pieces(p, had);
        let at = piece_index(piece);
        assert(at == index_in(piece));
        let part = grown(call_with(q.state.calls, at), piece);
        law_calls_are_kept_by_index(q.state.calls, at, part, index);
        law_calls_are_kept_by_index(
            q.state.calls,
            at,
            PartCall { added: true, ..part },
            index,
        );
        if at == index {
            let name = text_in_function(piece, "name"@);
            let more = text_in_function(piece, "arguments"@);
            assert((before.name + brought(had, index, "name"@)) + name =~= before.name + (brought(
                had,
                index,
                "name"@,
            ) + name));
            assert((before.arguments + brought(had, index, "arguments"@)) + more
                =~= before.arguments + (brought(had, index, "arguments"@) + more));
        }
    }
}

/// Whether an event tells of an output item of a kind, at its beginning.
pub open spec fn announces(note: Note, kind: Seq<char>) -> bool {
    &&& note.name == "response.output_item.added"@
    &&& note.body.get("item"@) matches Some(item)
    &&& item.text_at("type"@) == Some(kind)
}

/// The place of the message in the output of a turn: behind the reasoning, if there is any.
pub open spec fn message_place(turn: Turn) -> int {
    if turn.reasoning.len() > 0 {
        1
    } else {
        0
    }
}

/// The place of the first call in the output of a turn: behind the reasoning, and behind the
/// message, which is there if there is text or nothing was called.
pub open spec fn first_call_place(turn: Turn) -> int {
    message_place(turn) + if turn.text.len() > 0 || turn.calls.len() == 0 {
        1int
    } else {
        0int
    }
}

/// Whether an event carries the place and the identifier of the item that it tells of: the
/// reasoning stands first, and the message behind it.
pub open spec fn is_well_placed(note: Note, turn: Turn, context: Context) -> bool {
    &&& note.body.get("type"@) == Some(Json::Text(note.name))
    &&& note.name == "response.reasoning_summary_text.delta"@ ==> {
        &&& note.body.get("output_index"@) == Some(count(0))
        &&& note.body.get("item_id"@) == Some(Json::Text(context.reasoning_id))
    }
    &&& announces(note, "reasoning"@) ==> {
        &&& note.body.get("output_index"@) == Some(count(0))
        &&& tells_reasoning(
            note.body["item"@],
            context.reasoning_id,
            "in_progress"@,
            Seq::empty(),
        )
    }
    &&& note.name == "response.output_text.delta"@ || note.name == "response.content_part.added"@
        ==> {
        &&& note.body.get("output_index"@) == Some(count(message_place(turn) as u64))
        &&& note.body.get("content_index"@) == Some(count(0))
        &&& note.body.get("item_id"@) == Some(Json::Text(context.message_id))
    }
    &&& note.name == "response.content_part.added"@ ==> tells_text(
        note.body["part"@],
        Seq::empty(),
    )
    &&& announces(note, "message"@) ==> {
        &&& note.body.get("output_index"@) == Some(count(message_place(turn) as u64))
        &&& tells_message(note.body["item"@], context.message_id, "in_progress"@, Seq::empty())
    }
}

/// Whether an event tells of a call.
pub open spec fn is_about_a_call(note: Note) -> bool {
    note.name == "response.function_call_arguments.delta"@ || announces(note, "function_call"@)
}

proof fn lemma_delta_words()
    ensures
        "response.output_item.added"@ != "response.content_part.added"@,
        "response.output_item.added"@ != "response.output_text.delta"@,
        "response.output_item.added"@ != "response.reasoning_summary_text.delta"@,
        "response.output_item.added"@ != "response.function_call_arguments.delta"@,
        "response.content_part.added"@ != "response.output_text.delta"@,
        "response.content_part.added"@ != "response.reasoning_summary_text.delta"@,
        "response.content_part.added"@ != "response.function_call_arguments.delta"@,
        "response.output_text.delta"@ != "response.reasoning_summary_text.delta"@,
        "response.output_text.delta"@ != "response.function_call_arguments.delta"@,
        "response.reasoning_summary_text.delta"@ != "response.function_call_arguments.delta"@,
        "message"@ != "reasoning"@,
        "message"@ != "function_call"@,
        "reasoning"@ != "function_call"@,
        "type"@ != "output_index"@,
        "type"@ != "item"@,
        "type"@ != "content_index"@,
        "type"@ != "item_id"@,
        "type"@ != "part"@,
        "type"@ != "delta"@,
        "type"@ != "logprobs"@,
        "output_index"@ != "item"@,
        "output_index"@ != "content_index"@,
        "output_index"@ != "item_id"@,
        "output_index"@ != "part"@,
        "output_index"@ != "delta"@,
        "output_index"@ != "logprobs"@,
        "content_index"@ != "item_id"@,
        "content_index"@ != "part"@,
        "content_index"@ != "delta"@,
        "content_index"@ != "logprobs"@,
        "item_id"@ != "part"@,
        "item_id"@ != "delta"@,
        "item_id"@ != "logprobs"@,
        "item"@ != "item_id"@,
        "delta"@ != "logprobs"@,
        ""@ == Seq::<char>::empty(),
{
    reveal_strlit("");
    assert(""@ =~= Seq::<char>::empty());
    reveal_strlit("response.output_item.added");
    reveal_strlit("response.content_part.added");
    reveal_strlit("response.output_text.delta");
    reveal_strlit("response.reasoning_summary_text.delta");
    reveal_strlit("response.function_call_arguments.delta");
    assert("response.output_item.added"@.len() == 26);
    assert("response.content_part.added"@.len() == 27);
    assert("response.output_text.delta"@.len() == 26);
    assert("response.reasoning_summary_text.delta"@.len() == 37);
    assert("response.function_call_arguments.delta"@.len() == 38);
    assert("response.output_item.added"@[16] == 'i');
    assert("response.output_text.delta"@[16] == 't');
    reveal_strlit("message");
    reveal_strlit("reasoning");
    reveal_strlit("function_call");
    assert("message"@.len() == 7);
    assert("reasoning"@.len() == 9);
    assert("function_call"@.len() == 13);
    reveal_strlit("type");
    reveal_strlit("output_index");
    reveal_strlit("item");
    reveal_strlit("content_index");
    reveal_strlit("item_id");
    reveal_strlit("part");
    reveal_strlit("delta");
    reveal_strlit("logprobs");
    assert("type"@.len() == 4);
    assert("output_index"@.len() == 12);
    assert("item"@.len() == 4);
    assert("content_index"@.len() == 13);
    assert("item_id"@.len() == 7);
    assert("part"@.len() == 4);
    assert("delta"@.len() == 5);
    assert("logprobs"@.len() == 8);
    assert("type"@[0] == 't');
    assert("item"@[0] == 'i');
    assert("part"@[0] == 'p');
}

proof fn lemma_call_notes(p: Progress, pieces: Seq<Json>)
    ensures
        p.notes.is_prefix_of(after_pieces(p, pieces).notes),
        forall|i: int|
            p.notes.len() <= i < after_pieces(p, pieces).notes.len() ==> {
                let note = #[trigger] after_pieces(p, pieces).notes[i];
                &&& is_about_a_call(note)
                &&& note.body.get("type"@) == Some(Json::Text(note.name))
            },
    decreases pieces.len(),
{
    if pieces.len() > 0 {
        lemma_delta_words();
        lemma_call_notes(p, pieces.drop_last());
        let had = after_pieces(p, pieces.drop_last());
        let after = after_pieces(p, pieces);
        assert(had.notes.is_prefix_of(after.notes));
        assert forall|i: int| p.notes.len() <= i < after.notes.len() implies {
            let note = #[trigger] after.notes[i];
            &&& is_about_a_call(note)
            &&& note.body.get("type"@) == Some(Json::Text(note.name))
        } by {
            if i < had.notes.len() {
                assert(after.notes[i] == had.notes[i]);
            } else {
                let piece = pieces.last();
                let part = grown(call_with(had.state.calls, piece_index(piece)), piece);
                law_items_tell_what_they_hold(
                    Seq::empty(),
                    "in_progress"@,
                    Seq::empty(),
                    Call { call_id: part.call_id, name: part.name, arguments: Seq::empty() },
                );
            }
        }
    }
}

/// Every event of a chunk carries the place of its item in the output of the turn so far,
/// and the identifier of the item: the reasoning stands at the first place, and the message
/// behind it.
pub proof fn law_events_carry_the_place_of_their_item(
    state: Stream,
    chunk: Json,
    context: Context,
)
    ensures
        ({
            let after = after_chunk(state, chunk, context);
            forall|i: int|
                0 <= i < after.notes.len() ==> is_well_placed(
                    #[trigger] after.notes[i],
                    turn_of(after.state),
                    context,
                )
        }),
{
    lemma_delta_words();
    let after = after_chunk(state, chunk, context);
    let turn = turn_of(after.state);
    if let Some(delta) = delta_of(chunk) {
        let p = Progress { state, notes: Seq::empty() };
        let q = after_reasoning(p, delta, context);
        let s = after_content(q, delta.get("content"@), context);
        lemma_items_tell_of_nothing(context);
        assert(s.state.reasoning == q.state.reasoning);
        if let Some(Json::Array(pieces)) = delta.get("tool_calls"@) {
            lemma_pieces_keep_the_rest(s, pieces);
            lemma_call_notes(s, pieces);
        }
        assert(turn.reasoning == q.state.reasoning);
        assert(message_index(q.state) == message_place(turn));
        assert forall|i: int| 0 <= i < after.notes.len() implies is_well_placed(
            #[trigger] after.notes[i],
            turn,
            context,
        ) by {
            if i < s.notes.len() {
                assert(after.notes[i] == s.notes[i]);
                lemma_said_is_placed(q, delta.get("content"@), context, i);
                if i < q.notes.len() {
                    assert(s.notes[i] == q.notes[i]);
                    lemma_thought_is_placed(p, delta, context, turn, i);
                }
            }
        }
    }
}

proof fn lemma_items_tell_of_nothing(context: Context)
    ensures
        tells_reasoning(
            reasoning_output(context.reasoning_id, "in_progress"@, ""@),
            context.reasoning_id,
            "in_progress"@,
            Seq::empty(),
        ),
        tells_message(
            message_output(context.message_id, "in_progress"@, ""@),
            context.message_id,
            "in_progress"@,
            Seq::empty(),
        ),
{
    lemma_delta_words();
    let none = Call { call_id: Seq::empty(), name: Seq::empty(), arguments: Seq::empty() };
    law_items_tell_what_they_hold(context.reasoning_id, "in_progress"@, ""@, none);
    law_items_tell_what_they_hold(context.message_id, "in_progress"@, ""@, none);
}

proof fn lemma_thought_is_placed(
    p: Progress,
    delta: Map<Seq<char>, Json>,
    context: Context,
    turn: Turn,
    i: int,
)
    requires
        p.notes.len() == 0,
        0 <= i < after_reasoning(p, delta, context).notes.len(),
    ensures
        is_well_placed(after_reasoning(p, delta, context).notes[i], turn, context),
{
    lemma_delta_words();
    lemma_items_tell_of_nothing(context);
}

proof fn lemma_said_is_placed(q: Progress, content: Option<Json>, context: Context, i: int)
    requires
        q.notes.len() <= i < after_content(q, content, context).notes.len() || 0 <= i
            < q.notes.len(),
    ensures
        q.notes.len() <= i < after_content(q, content, context).notes.len() ==> is_well_placed(
            after_content(q, content, context).notes[i],
            turn_of(q.state),
            context,
        ),
        q.notes.is_prefix_of(after_content(q, content, context).notes),
{
    lemma_delta_words();
    lemma_items_tell_of_nothing(context);
}

/// The reasoning and the message are announced when their first piece comes, once and right
/// before it, and not again.
pub proof fn law_items_are_announced_once(state: Stream, chunk: Json, context: Context)
    ensures
        ({
            let after = after_chunk(state, chunk, context);
            let notes = after.notes;
            let said = after.state.text.len() > state.text.len();
            let thought = after.state.reasoning.len() > state.reasoning.len();
            &&& after.state.message_started == (state.message_started || said)
            &&& thought ==> after.state.reasoning_started
            &&& state.reasoning_started ==> after.state.reasoning_started
            &&& (exists|i: int| 0 <= i < notes.len() && announces(#[trigger] notes[i], "message"@))
                <==> !state.message_started && after.state.message_started
            &&& (exists|i: int|
                0 <= i < notes.len() && announces(#[trigger] notes[i], "reasoning"@))
                <==> !state.reasoning_started && after.state.reasoning_started
            &&& forall|i: int|
                0 <= i < notes.len() && announces(#[trigger] notes[i], "message"@) ==> {
                    &&& i + 2 < notes.len()
                    &&& notes[i + 1].name == "response.content_part.added"@
                    &&& notes[i + 2].name == "response.output_text.delta"@
                }
            &&& forall|i: int|
                0 <= i < notes.len() && announces(#[trigger] notes[i], "reasoning"@) ==> i + 1
                    < notes.len() && notes[i + 1].name
                    == "response.reasoning_summary_text.delta"@
            &&& forall|i: int, j: int|
                0 <= i < notes.len() && 0 <= j < notes.len() && announces(
                    #[trigger] notes[i],
                    "message"@,
                ) && announces(#[trigger] notes[j], "message"@) ==> i == j
            &&& forall|i: int|
                0 <= i < notes.len() && (#[trigger] notes[i]).name
                    == "response.content_part.added"@ ==> 0 < i && announces(
                    notes[i - 1],
                    "message"@,
                )
        }),
{
    lemma_delta_words();
    let after = after_chunk(state, chunk, context);
    if let Some(delta) = delta_of(chunk) {
        let p = Progress { state, notes: Seq::empty() };
        let q = after_reasoning(p, delta, context);
        let s = after_content(q, delta.get("content"@), context);
        lemma_items_tell_of_nothing(context);
        if let Some(r) = first_reasoning(delta) {
            lemma_first_reasoning_is_not_empty(delta);
        }
        if let Some(Json::Array(pieces)) = delta.get("tool_calls"@) {
            lemma_pieces_keep_the_rest(s, pieces);
            lemma_call_notes(s, pieces);
        }
        let notes = after.notes;
        assert(forall|i: int| 0 <= i < s.notes.len() ==> #[trigger] notes[i] == s.notes[i]);
        assert(forall|i: int|
            s.notes.len() <= i < notes.len() ==> is_about_a_call(#[trigger] notes[i]));
        assert(forall|i: int| 0 <= i < q.notes.len() ==> #[trigger] s.notes[i] == q.notes[i]);
        if !state.reasoning_started && q.state.reasoning_started {
            assert(announces(notes[0], "reasoning"@)) by {
                assert(notes[0] == q.notes[0]);
            }
        }
        if !state.message_started && s.state.message_started {
            let k = q.notes.len() as int;
            assert(announces(notes[k], "message"@)) by {
                assert(notes[k] == s.notes[k]);
            }
            assert(notes[k + 1] == s.notes[k + 1]);
            assert(notes[k + 2] == s.notes[k + 2]);
        }
    }
}

proof fn lemma_first_reasoning_is_not_empty(m: Map<Seq<char>, Json>)
    ensures
        first_reasoning(m) matches Some(t) ==> t.len() > 0,
{
    if let Some(v) = m.get("reasoning_content"@) {
        law_reasoning_is_never_empty(v);
    }
    if let Some(v) = m.get("reasoning"@) {
        law_reasoning_is_never_empty(v);
    }
    if let Some(v) = m.get("thinking"@) {
        law_reasoning_is_never_empty(v);
    }
    if let Some(v) = m.get("reasoning_summary"@) {
        law_reasoning_is_never_empty(v);
    }
}

/// The events of a piece carry the place of the call that the piece belongs to, behind the
/// reasoning and the message, and its identifier. A call is announced once, when its
/// identifier and its name are known.
pub proof fn law_call_events_carry_the_place_of_the_call(p: Progress, piece: Json)
    requires
        ascending(p.state.calls),
        first_call_place(turn_of(after_piece(p, piece).state)) + index_in(piece) <= usize::MAX,
    ensures
        ({
            let q = after_piece(p, piece);
            let before = call_with(p.state.calls, index_in(piece));
            let call = call_with(q.state.calls, index_in(piece));
            let place = first_call_place(turn_of(q.state)) + index_in(piece);
            &&& p.notes.is_prefix_of(q.notes)
            &&& call.added <==> before.added || (call.call_id.len() > 0 && call.name.len() > 0)
            &&& forall|i: int|
                p.notes.len() <= i < q.notes.len() ==> {
                    let note = #[trigger] q.notes[i];
                    &&& is_about_a_call(note)
                    &&& note.body.get("type"@) == Some(Json::Text(note.name))
                    &&& note.body.get("output_index"@) == Some(count(place as u64))
                    &&& note.name == "response.function_call_arguments.delta"@ ==> note.body.get(
                        "item_id"@,
                    ) == Some(Json::Text("fc_"@ + call.call_id))
                    &&& announces(note, "function_call"@) ==> i == p.notes.len() && tells_call(
                        note.body["item"@],
                        Call { call_id: call.call_id, name: call.name, arguments: Seq::empty() },
                        "in_progress"@,
                    )
                }
            &&& (call.added && !before.added) <==> (q.notes.len() > p.notes.len() && announces(
                q.notes[p.notes.len() as int],
                "function_call"@,
            ))
        }),
{
    lemma_delta_words();
    let q = after_piece(p, piece);
    let index = piece_index(piece);
    assert(index == index_in(piece));
    let before = call_with(p.state.calls, index);
    let part = grown(before, piece);
    let announce = !before.added && part.call_id.len() > 0 && part.name.len() > 0;
    let kept = if announce {
        PartCall { added: true, ..part }
    } else {
        part
    };
    law_calls_are_kept_by_index(p.state.calls, index, kept, index);
    assert(call_with(q.state.calls, index) == kept);
    assert(turn_of(q.state).message_offset() == first_call_place(turn_of(q.state)));
    law_items_tell_what_they_hold(
        Seq::empty(),
        "in_progress"@,
        Seq::empty(),
        Call { call_id: part.call_id, name: part.name, arguments: Seq::empty() },
    );
}

} // verus!

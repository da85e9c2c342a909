//! Answering a request with a stream of events.

use crate::codec::{parse, parsed_json};
use crate::delta::{
    after_chunk, announces, apply_stream_delta, first_delta, law_chunks_add_what_they_bring,
    law_events_carry_the_place_of_their_item, law_pieces_add_up, lemma_chunk_is_partial,
    lemma_pieces_join, message_place, pieces_of,
};
use crate::json::{array_of, object, object_of, Json, JsonValue, Object};
use crate::reasoning::{first_reasoning, or_nothing};
use crate::response::{
    build_cancelled_response, build_failed_response, build_in_progress_response, build_response,
    cancelled_response, completed_response, failed_response, in_progress_response,
    law_cancelled_responses_tell_the_turn, law_completed_responses_tell_the_turn,
    law_failed_responses_tell_the_error,
};
use crate::sse::{blocks, events_data, remainder, SseParser};
use crate::stream::{
    all_partial, closes_item, emit, emitted_of, finalize_stream_items, fresh_stream, is_partial, item_added,
    item_body, item_done, law_numbering_goes_on, law_numbers_are_consecutive, lemma_partial_names,
    lemma_turn_end_is_partial, number_after, numbered, turn_end, turn_of, Emitted, Note, Stream,
    StreamEvent, StreamState,
};
use crate::text::{concat, from_utf8_lossy, lossy_text, same_text, texts};
use crate::translate::{Context, RequestContext};
use crate::turn::{AssistantTurn, Turn};
use crate::usage::{
    count, law_reported_counts_are_shown, reported, shows, upstream_usage,
    usage_from_upstream, usage_value,
};
use vstd::prelude::*;
use vstd::string::*;

verus! {

/// Why the reading of a streamed answer ended.
#[derive(Debug, PartialEq)]
pub enum ReadEnd {
    /// The upstream said that the answer is complete.
    Finished,
    /// The request was cancelled.
    Cancelled,
    /// The connection broke.
    Broken(String),
    /// An event could not be read.
    Unreadable(String),
}

/// What a [`ReadEnd`] stands for.
#[verifier::ext_equal]
pub enum Ending {
    Finished,
    Cancelled,
    Broken(Seq<char>),
    Unreadable(Seq<char>),
}

impl View for ReadEnd {
    type V = Ending;

    open spec fn view(&self) -> Ending {
        match *self {
            ReadEnd::Finished => Ending::Finished,
            ReadEnd::Cancelled => Ending::Cancelled,
            ReadEnd::Broken(m) => Ending::Broken(m@),
            ReadEnd::Unreadable(m) => Ending::Unreadable(m@),
        }
    }
}

impl DeepView for ReadEnd {
    type V = Ending;

    open spec fn deep_view(&self) -> Ending {
        self@
    }
}

/// A streamed answer that is being read: the text that is no whole event yet, the events
/// that were not looked at yet, the turn so far, and the end once it came.
#[verifier::ext_equal]
pub struct Reading {
    pub buffer: Seq<char>,
    pub pending: Seq<Seq<char>>,
    pub state: Stream,
    pub ending: Option<Ending>,
}

/// Nothing was read yet.
pub open spec fn fresh_reading() -> Reading {
    Reading { buffer: Seq::empty(), pending: Seq::empty(), state: fresh_stream(), ending: None }
}

/// What comes of bytes that arrive, or of a broken connection.
pub open spec fn after_arrival(
    r: Reading,
    cancelled: bool,
    chunk: Result<Seq<u8>, Seq<char>>,
) -> Reading {
    if r.ending is Some {
        r
    } else if cancelled {
        Reading { ending: Some(Ending::Cancelled), ..r }
    } else {
        match chunk {
            Ok(bytes) => {
                let all = r.buffer + lossy_text(bytes);
                Reading {
                    buffer: remainder(all),
                    pending: r.pending + events_data(blocks(all)),
                    ..r
                }
            },
            Err(e) => Reading { ending: Some(Ending::Broken(e)), ..r },
        }
    }
}

/// The turn so far, with the usage that a chunk reports.
pub open spec fn with_usage(state: Stream, chunk: Json) -> Stream {
    match chunk.get("usage"@) {
        Some(u) => Stream { usage: usage_value(upstream_usage(Some(u))), ..state },
        None => state,
    }
}

/// What comes of the next event: the reading, and the events that go to the client.
pub open spec fn after_event(r: Reading, cancelled: bool, context: Context) -> (
    Reading,
    Seq<Note>,
) {
    if r.ending is Some || r.pending.len() == 0 {
        (r, Seq::empty())
    } else if cancelled {
        (Reading { ending: Some(Ending::Cancelled), ..r }, Seq::empty())
    } else {
        let data = r.pending[0];
        let rest = Reading { pending: r.pending.skip(1), ..r };
        if data == "[DONE]"@ {
            (Reading { ending: Some(Ending::Finished), ..rest }, Seq::empty())
        } else {
            match parsed_json(data) {
                Ok(chunk) => {
                    let after = after_chunk(with_usage(r.state, chunk), chunk, context);
                    (Reading { state: after.state, ..rest }, after.notes)
                },
                Err(e) => (
                    Reading {
                        ending: Some(
                            Ending::Unreadable("failed to parse upstream SSE JSON: "@ + e),
                        ),
                        ..rest
                    },
                    Seq::empty(),
                ),
            }
        }
    }
}

/// Takes the outcome of parsing an event into the turn: the events that go to the
/// client, or what is wrong with the event.
pub fn take_chunk(
    state: &mut StreamState,
    parsed: Result<JsonValue, String>,
    context: &RequestContext,
    sequence_number: &mut u64,
) -> (r: Result<Vec<StreamEvent>, String>)
    ensures
        match parsed {
            Ok(chunk) => {
                let after = after_chunk(with_usage(old(state)@, chunk@), chunk@, context@);
                &&& r matches Ok(events)
                &&& emitted_of(events@) == numbered(after.notes, *old(sequence_number))
                &&& final(state)@ == after.state
                &&& *final(sequence_number) == number_after(
                    *old(sequence_number),
                    after.notes.len(),
                )
            },
            Err(e) => {
                &&& r matches Err(m)
                &&& m@ == "failed to parse upstream SSE JSON: "@ + e@
                &&& final(state)@ == old(state)@
                &&& *final(sequence_number) == *old(sequence_number)
            },
        },
{
    match parsed {
        Ok(chunk) => {
            if let Some(usage) = chunk.get("usage") {
                state.usage = usage_from_upstream(Some(usage));
            }
            Ok(apply_stream_delta(state, &chunk, context, sequence_number))
        },
        Err(e) => Err(concat("failed to parse upstream SSE JSON: ", e.as_str())),
    }
}

/// A streamed answer that is being read.
#[derive(Debug)]
pub struct StreamReader {
    parser: SseParser,
    events: Vec<String>,
    next: usize,
    state: StreamState,
    ending: Option<ReadEnd>,
}

impl View for StreamReader {
    type V = Reading;

    closed spec fn view(&self) -> Reading {
        Reading {
            buffer: self.parser@,
            pending: texts(self.events@).skip(self.next as int),
            state: self.state@,
            ending: self.ending.deep_view(),
        }
    }
}

impl StreamReader {
    #[verifier::type_invariant]
    spec fn well_formed(self) -> bool {
        self.next <= self.events@.len()
    }

    /// Begins to read.
    pub fn new() -> (reader: StreamReader)
        ensures
            reader@ == fresh_reading(),
    {
        let reader = StreamReader {
            parser: SseParser::default(),
            events: Vec::new(),
            next: 0,
            state: StreamState::new(),
            ending: None,
        };
        assert(texts(reader.events@).skip(0) =~= Seq::empty());
        reader
    }

    /// Takes in bytes that arrived, or the news that the connection broke.
    pub fn accept(&mut self, cancelled: bool, chunk: Result<Vec<u8>, String>)
        ensures
            final(self)@ == after_arrival(
                old(self)@,
                cancelled,
                match chunk {
                    Ok(bytes) => Ok(bytes@),
                    Err(e) => Err(e@),
                },
            ),
    {
        proof {
            use_type_invariant(&*self);
        }
        if self.ending.is_some() {
            return;
        }
        if cancelled {
            self.ending = Some(ReadEnd::Cancelled);
            return;
        }
        match chunk {
            Ok(bytes) => {
                let text = from_utf8_lossy(&bytes);
                let mut parser = SseParser::default();
                std::mem::swap(&mut parser, &mut self.parser);
                let found = parser.push(text.as_str());
                self.parser = parser;
                let mut events: Vec<String> = Vec::new();
                let mut i: usize = self.next;
                let ghost before = texts(self.events@);
                assert(texts(events@) =~= before.subrange(self.next as int, i as int));
                while i < self.events.len()
                    invariant
                        self.next <= i <= self.events@.len(),
                        before == texts(self.events@),
                        texts(events@) == before.subrange(self.next as int, i as int),
                    decreases self.events@.len() - i,
                {
                    let ghost had = texts(events@);
                    events.push(self.events[i].clone());
                    assert(texts(events@) =~= had.push(before[i as int]));
                    assert(had.push(before[i as int]) =~= before.subrange(
                        self.next as int,
                        i + 1,
                    ));
                    i += 1;
                }
                let ghost kept = texts(events@);
                assert(kept =~= before.skip(self.next as int));
                let mut more = found;
                let ghost fresh = texts(more@);
                events.append(&mut more);
                assert(texts(events@) =~= kept + fresh);
                self.next = 0;
                self.events = events;
                assert(texts(self.events@).skip(0) =~= texts(self.events@));
            },
            Err(e) => {
                self.ending = Some(ReadEnd::Broken(e));
            },
        }
    }

    /// Whether an event waits to be looked at.
    pub fn has_pending(&self) -> (b: bool)
        ensures
            b == (self@.ending is None && self@.pending.len() > 0),
    {
        proof {
            use_type_invariant(self);
        }
        self.ending.is_none() && self.next < self.events.len()
    }

    /// Whether the answer has come to its end.
    pub fn is_over(&self) -> (b: bool)
        ensures
            b == (self@.ending is Some),
    {
        self.ending.is_some()
    }

    /// Looks at the next event. What goes to the client is numbered from
    /// `sequence_number` on.
    pub fn advance(
        &mut self,
        cancelled: bool,
        context: &RequestContext,
        sequence_number: &mut u64,
    ) -> (events: Vec<StreamEvent>)
        ensures
            ({
                let (after, notes) = after_event(old(self)@, cancelled, context@);
                &&& final(self)@ == after
                &&& emitted_of(events@) == numbered(notes, *old(sequence_number))
                &&& *final(sequence_number) == number_after(
                    *old(sequence_number),
                    notes.len(),
                )
            }),
    {
        proof {
            use_type_invariant(&*self);
        }
        let none: Vec<StreamEvent> = Vec::new();
        assert(emitted_of(none@) =~= numbered(Seq::empty(), *sequence_number));
        if self.ending.is_some() || self.next >= self.events.len() {
            return none;
        }
        if cancelled {
            self.ending = Some(ReadEnd::Cancelled);
            return none;
        }
        let data = self.events[self.next].clone();
        let ghost all = texts(self.events@);
        assert(all.skip(self.next as int)[0] == data@);
        assert(all.skip(self.next as int).skip(1) =~= all.skip(self.next + 1));
        self.next = self.next + 1;
        if same_text(data.as_str(), "[DONE]") {
            self.ending = Some(ReadEnd::Finished);
            return none;
        }
        let mut state = StreamState::new();
        std::mem::swap(&mut state, &mut self.state);
        let taken = take_chunk(&mut state, parse(data.as_str()), context, sequence_number);
        self.state = state;
        match taken {
            Ok(events) => events,
            Err(e) => {
                self.ending = Some(ReadEnd::Unreadable(e));
                none
            },
        }
    }

    /// The turn so far.
    pub fn turn(&self) -> (turn: AssistantTurn)
        ensures
            turn@ == turn_of(self@.state),
    {
        self.state.to_turn()
    }

    /// The usage so far.
    pub fn usage(&self) -> (usage: JsonValue)
        ensures
            usage@ == self@.state.usage,
    {
        self.state.usage.clone()
    }

    /// Why the answer came to its end: because there was no more of it, unless
    /// something else is known.
    pub fn ending(&self) -> (ending: ReadEnd)
        ensures
            ending@ == (match self@.ending {
                Some(e) => e,
                None => Ending::Finished,
            }),
    {
        match &self.ending {
            Some(ReadEnd::Cancelled) => ReadEnd::Cancelled,
            Some(ReadEnd::Broken(m)) => ReadEnd::Broken(m.clone()),
            Some(ReadEnd::Unreadable(m)) => ReadEnd::Unreadable(m.clone()),
            _ => ReadEnd::Finished,
        }
    }
}

/// How an answer ends.
#[derive(Debug, PartialEq)]
pub enum AnswerEnd {
    Completed,
    Cancelled,
    Failed(String),
}

/// What an [`AnswerEnd`] stands for.
#[verifier::ext_equal]
pub enum End {
    Completed,
    Cancelled,
    Failed(Seq<char>),
}

impl View for AnswerEnd {
    type V = End;

    open spec fn view(&self) -> End {
        match *self {
            AnswerEnd::Completed => End::Completed,
            AnswerEnd::Cancelled => End::Cancelled,
            AnswerEnd::Failed(m) => End::Failed(m@),
        }
    }
}

/// An event that carries a whole response.
pub open spec fn response_note(name: Seq<char>, response: Json) -> Note {
    Note { name, body: map!["type"@ => Json::Text(name), "response"@ => response] }
}

fn response_body(name: &str, response: JsonValue) -> (o: Object)
    ensures
        object_of(o) == map!["type"@ => Json::Text(name@), "response"@ => response@],
{
    object().with("type", JsonValue::text(name)).with("response", response)
}

/// The events for the first `n` items of hosted tools, each of which is complete at once.
pub open spec fn hosted_notes(items: Seq<Json>, n: nat) -> Seq<Note>
    decreases n,
{
    if n == 0 {
        Seq::empty()
    } else {
        let i = (n - 1) as nat;
        hosted_notes(items, i).push(item_added(i as u64, items[i as int])).push(
            item_done(i as u64, items[i as int]),
        )
    }
}

/// The events with which an answer begins.
pub open spec fn opening_notes(context: Context) -> Seq<Note> {
    seq![response_note("response.created"@, in_progress_response(context))] + hosted_notes(
        context.hosted_output_items,
        context.hosted_output_items.len(),
    )
}

/// The response with which an answer ends.
pub open spec fn end_response(context: Context, turn: Turn, usage: Json, end: End, now: i64) -> Json {
    match end {
        End::Completed => completed_response(context, turn, usage, now),
        End::Cancelled => cancelled_response(context, turn, usage, now),
        End::Failed(m) => failed_response(context, turn, now, m, "upstream_stream_error"@),
    }
}

/// The events with which an answer ends.
pub open spec fn closing_notes(
    context: Context,
    turn: Turn,
    usage: Json,
    end: End,
    now: i64,
) -> Seq<Note> {
    let response = end_response(context, turn, usage, end, now);
    match end {
        End::Completed => turn_end(turn, context).push(
            response_note("response.completed"@, response),
        ),
        End::Cancelled => seq![response_note("response.completed"@, response)],
        End::Failed(_) => seq![response_note("response.failed"@, response)],
    }
}

/// The events with which an answer begins, numbered from nought.
pub fn open_stream(context: &RequestContext, sequence_number: &mut u64) -> (events: Vec<
    StreamEvent,
>)
    ensures
        emitted_of(events@) == numbered(opening_notes(context@), *old(sequence_number)),
        *final(sequence_number) == number_after(
            *old(sequence_number),
            opening_notes(context@).len(),
        ),
{
    let ghost start = *sequence_number;
    let ghost items = context@.hosted_output_items;
    let mut events: Vec<StreamEvent> = Vec::new();
    let ghost mut notes = Seq::<Note>::empty();
    assert(emitted_of(events@) =~= numbered(notes, start));
    emit(
        &mut events,
        sequence_number,
        "response.created",
        response_body("response.created", build_in_progress_response(context)),
        Ghost(notes),
        Ghost(start),
    );
    let ghost first = response_note("response.created"@, in_progress_response(context@));
    proof {
        notes = notes.push(first);
        assert(notes =~= seq![first] + hosted_notes(items, 0));
    }
    let mut i: usize = 0;
    while i < context.hosted_output_items.len()
        invariant
            i <= items.len(),
            items == array_of(context.hosted_output_items@),
            notes == seq![first] + hosted_notes(items, i as nat),
            emitted_of(events@) == numbered(notes, start),
            *sequence_number == number_after(start, notes.len()),
        decreases items.len() - i,
    {
        let item = &context.hosted_output_items[i];
        assert(items[i as int] == item@);
        let name = "response.output_item.added";
        let body = item_body(name, i as u64, item.clone());
        emit(&mut events, sequence_number, name, body, Ghost(notes), Ghost(start));
        proof {
            notes = notes.push(item_added(i as u64, item@));
        }
        let name = "response.output_item.done";
        let body = item_body(name, i as u64, item.clone());
        emit(&mut events, sequence_number, name, body, Ghost(notes), Ghost(start));
        proof {
            notes = notes.push(item_done(i as u64, item@));
            assert(notes =~= seq![first] + hosted_notes(items, (i + 1) as nat));
        }
        i += 1;
    }
    events
}

/// An answer that has come to its end.
#[derive(Debug)]
pub struct ClosedStream {
    pub events: Vec<StreamEvent>,
    pub response: JsonValue,
    pub end: AnswerEnd,
}

/// Ends an answer: the last events, and the response that is kept.
pub fn close_stream(
    context: &RequestContext,
    turn: &AssistantTurn,
    usage: JsonValue,
    end: AnswerEnd,
    now: i64,
    sequence_number: &mut u64,
) -> (closed: ClosedStream)
    ensures
        closed.end@ == end@,
        closed.response@ == end_response(context@, turn@, usage@, end@, now),
        emitted_of(closed.events@) == numbered(
            closing_notes(context@, turn@, usage@, end@, now),
            *old(sequence_number),
        ),
        *final(sequence_number) == number_after(
            *old(sequence_number),
            closing_notes(context@, turn@, usage@, end@, now).len(),
        ),
{
    let ghost start = *sequence_number;
    let mut events: Vec<StreamEvent> = Vec::new();
    let ghost mut notes = Seq::<Note>::empty();
    assert(emitted_of(events@) =~= numbered(notes, start));
    let (name, response) = match &end {
        AnswerEnd::Completed => {
            events = finalize_stream_items(turn, context, sequence_number);
            proof {
                notes = turn_end(turn@, context@);
            }
            ("response.completed", build_response(context, turn, usage, now))
        },
        AnswerEnd::Cancelled => (
            "response.completed",
            build_cancelled_response(context, turn, usage, now),
        ),
        AnswerEnd::Failed(m) => (
            "response.failed",
            build_failed_response(context, turn, now, m.as_str(), "upstream_stream_error"),
        ),
    };
    emit(
        &mut events,
        sequence_number,
        name,
        response_body(name, response.clone()),
        Ghost(notes),
        Ghost(start),
    );
    proof {
        let last = response_note(name@, response@);
        if !(end@ is Completed) {
            assert(notes.push(last) =~= seq![last]);
        }
    }
    ClosedStream { events, response, end }
}

/// How an answer ends when the reading of the upstream's answer has ended.
pub open spec fn end_of(ending: Ending) -> End {
    match ending {
        Ending::Finished => End::Completed,
        Ending::Cancelled => End::Cancelled,
        Ending::Broken(m) => End::Failed(m),
        Ending::Unreadable(m) => End::Failed(m),
    }
}

/// How an answer ends when what was read of the upstream's answer is all there is.
pub open spec fn reached_end(r: Reading) -> End {
    end_of(
        match r.ending {
            Some(e) => e,
            None => Ending::Finished,
        },
    )
}

/// An answer that is passed on while it is read.
#[derive(Debug)]
pub struct StreamSession {
    context: RequestContext,
    reader: StreamReader,
    sequence_number: u64,
}

impl StreamSession {
    /// The request that is answered.
    pub closed spec fn spec_context(self) -> Context {
        self.context@
    }

    /// What was read so far.
    pub closed spec fn reading(self) -> Reading {
        self.reader@
    }

    /// The number of the next event.
    pub closed spec fn next_number(self) -> u64 {
        self.sequence_number
    }

    /// Begins an answer.
    pub fn open(context: RequestContext) -> (r: (StreamSession, Vec<StreamEvent>))
        ensures
            r.0.spec_context() == context@,
            r.0.reading() == fresh_reading(),
            r.0.next_number() == number_after(0, opening_notes(context@).len()),
            emitted_of(r.1@) == numbered(opening_notes(context@), 0),
    {
        let mut sequence_number: u64 = 0;
        let events = open_stream(&context, &mut sequence_number);
        (StreamSession { context, reader: StreamReader::new(), sequence_number }, events)
    }

    /// Takes in bytes that arrived, or the news that the connection broke.
    pub fn accept(&mut self, cancelled: bool, chunk: Result<Vec<u8>, String>)
        ensures
            final(self).reading() == after_arrival(
                old(self).reading(),
                cancelled,
                match chunk {
                    Ok(bytes) => Ok(bytes@),
                    Err(e) => Err(e@),
                },
            ),
            final(self).spec_context() == old(self).spec_context(),
            final(self).next_number() == old(self).next_number(),
    {
        self.reader.accept(cancelled, chunk);
    }

    /// Whether an event waits to be looked at.
    pub fn has_pending(&self) -> (b: bool)
        ensures
            b == (self.reading().ending is None && self.reading().pending.len() > 0),
    {
        self.reader.has_pending()
    }

    /// Whether the answer has come to its end.
    pub fn is_over(&self) -> (b: bool)
        ensures
            b == (self.reading().ending is Some),
    {
        self.reader.is_over()
    }

    /// Looks at the next event, and says what goes to the client.
    pub fn advance(&mut self, cancelled: bool) -> (events: Vec<StreamEvent>)
        ensures
            ({
                let (after, notes) = after_event(
                    old(self).reading(),
                    cancelled,
                    old(self).spec_context(),
                );
                &&& final(self).reading() == after
                &&& emitted_of(events@) == numbered(notes, old(self).next_number())
                &&& final(self).next_number() == number_after(
                    old(self).next_number(),
                    notes.len(),
                )
                &&& final(self).spec_context() == old(self).spec_context()
            }),
    {
        self.reader.advance(cancelled, &self.context, &mut self.sequence_number)
    }

    /// Ends the answer.
    pub fn close(self, now: i64) -> (closed: ClosedStream)
        ensures
            ({
                let r = self.reading();
                let end = reached_end(r);
                let turn = turn_of(r.state);
                &&& closed.end@ == end
                &&& closed.response@ == end_response(
                    self.spec_context(),
                    turn,
                    r.state.usage,
                    end,
                    now,
                )
                &&& emitted_of(closed.events@) == numbered(
                    closing_notes(self.spec_context(), turn, r.state.usage, end, now),
                    self.next_number(),
                )
            }),
    {
        let turn = self.reader.turn();
        let usage = self.reader.usage();
        let end = match self.reader.ending() {
            ReadEnd::Finished => AnswerEnd::Completed,
            ReadEnd::Cancelled => AnswerEnd::Cancelled,
            ReadEnd::Broken(m) => AnswerEnd::Failed(m),
            ReadEnd::Unreadable(m) => AnswerEnd::Failed(m),
        };
        let mut sequence_number = self.sequence_number;
        close_stream(&self.context, &turn, usage, end, now, &mut sequence_number)
    }
}

/// What comes of the next `n` events of an answer that is not cancelled.
pub open spec fn after_events(r: Reading, context: Context, n: nat) -> (Reading, Seq<Note>)
    decreases n,
{
    if n == 0 {
        (r, Seq::empty())
    } else {
        let (earlier, notes) = after_events(r, context, (n - 1) as nat);
        let (last, more) = after_event(earlier, false, context);
        (last, notes + more)
    }
}

/// What a client reads piece by piece is the text and the reasoning of the turn.
pub proof fn law_streamed_pieces_are_the_turn(r: Reading, context: Context, n: nat)
    ensures
        ({
            let (after, notes) = after_events(r, context, n);
            &&& after.state.text == r.state.text + pieces_of(
                notes,
                "response.output_text.delta"@,
            )
            &&& after.state.reasoning == r.state.reasoning + pieces_of(
                notes,
                "response.reasoning_summary_text.delta"@,
            )
        }),
    decreases n,
{
    let t = "response.output_text.delta"@;
    let s = "response.reasoning_summary_text.delta"@;
    if n == 0 {
        assert(r.state.text + Seq::<char>::empty() =~= r.state.text);
        assert(r.state.reasoning + Seq::<char>::empty() =~= r.state.reasoning);
    } else {
        law_streamed_pieces_are_the_turn(r, context, (n - 1) as nat);
        let (earlier, notes) = after_events(r, context, (n - 1) as nat);
        let (last, more) = after_event(earlier, false, context);
        lemma_pieces_join(notes, more, t);
        lemma_pieces_join(notes, more, s);
        if earlier.ending is None && earlier.pending.len() > 0 && earlier.pending[0]
            != "[DONE]"@ {
            if let Ok(chunk) = parsed_json(earlier.pending[0]) {
                law_pieces_add_up(with_usage(earlier.state, chunk), chunk, context);
            }
        }
        assert(last.state.text =~= r.state.text + (pieces_of(notes, t) + pieces_of(more, t)));
        assert(last.state.reasoning =~= r.state.reasoning + (pieces_of(notes, s) + pieces_of(
            more,
            s,
        )));
    }
}

/// Every answer begins with the response under way and ends with the response as it is
/// kept, whatever came of it.
pub proof fn law_streams_begin_and_end_with_the_response(
    context: Context,
    turn: Turn,
    usage: Json,
    end: End,
    now: i64,
)
    ensures
        opening_notes(context).len() > 0,
        opening_notes(context).first() == response_note(
            "response.created"@,
            in_progress_response(context),
        ),
        closing_notes(context, turn, usage, end, now).len() > 0,
        closing_notes(context, turn, usage, end, now).last() == response_note(
            if end is Failed {
                "response.failed"@
            } else {
                "response.completed"@
            },
            end_response(context, turn, usage, end, now),
        ),
{
}

/// A step of an answer that is passed on while it is read.
pub enum Step {
    /// Bytes arrived, or the connection broke.
    Arrived { cancelled: bool, chunk: Result<Seq<u8>, Seq<char>> },
    /// The next event was looked at.
    Looked { cancelled: bool },
}

/// What comes of a step.
pub open spec fn after_step(r: Reading, step: Step, context: Context) -> (Reading, Seq<Note>) {
    match step {
        Step::Arrived { cancelled, chunk } => (after_arrival(r, cancelled, chunk), Seq::empty()),
        Step::Looked { cancelled } => after_event(r, cancelled, context),
    }
}

/// What was read after some steps.
pub open spec fn reading_after(context: Context, steps: Seq<Step>) -> Reading
    decreases steps.len(),
{
    if steps.len() == 0 {
        fresh_reading()
    } else {
        after_step(reading_after(context, steps.drop_last()), steps.last(), context).0
    }
}

/// The events of the last one of some steps.
pub open spec fn last_notes(context: Context, steps: Seq<Step>) -> Seq<Note> {
    after_step(reading_after(context, steps.drop_last()), steps.last(), context).1
}

/// The number that comes next after some steps.
pub open spec fn number_reached(context: Context, steps: Seq<Step>) -> u64
    decreases steps.len(),
{
    if steps.len() == 0 {
        number_after(0, opening_notes(context).len())
    } else {
        number_after(
            number_reached(context, steps.drop_last()),
            last_notes(context, steps).len(),
        )
    }
}

/// What the client was sent when the answer began and in some steps, one batch after the
/// other.
pub open spec fn sent_in(context: Context, steps: Seq<Step>) -> Seq<Emitted>
    decreases steps.len(),
{
    if steps.len() == 0 {
        numbered(opening_notes(context), 0)
    } else {
        sent_in(context, steps.drop_last()) + numbered(
            last_notes(context, steps),
            number_reached(context, steps.drop_last()),
        )
    }
}

/// What the client was sent in all, once the answer has ended.
pub open spec fn sent_in_all(context: Context, steps: Seq<Step>, now: i64) -> Seq<Emitted> {
    let r = reading_after(context, steps);
    sent_in(context, steps) + numbered(
        closing_notes(context, turn_of(r.state), r.state.usage, reached_end(r), now),
        number_reached(context, steps),
    )
}

/// The name of the event with which an answer ends.
pub open spec fn last_name(end: End) -> Seq<char> {
    if end is Failed {
        "response.failed"@
    } else {
        "response.completed"@
    }
}

/// Whether the events make up a whole stream: the first one, and it alone, says that the
/// response was created; the last one, and it alone, says that it is completed or failed;
/// and as long as the machine's range suffices they are numbered from 0 without a gap.
pub open spec fn is_whole_stream(events: Seq<Emitted>, end: End) -> bool {
    &&& events.len() >= 2
    &&& events.first().name == "response.created"@
    &&& events.last().name == last_name(end)
    &&& forall|i: int|
        0 < i < events.len() ==> (#[trigger] events[i]).name != "response.created"@
    &&& forall|i: int|
        0 <= i < events.len() - 1 ==> (#[trigger] events[i]).name != "response.completed"@
            && events[i].name != "response.failed"@
    &&& events.len() <= u64::MAX ==> forall|i: int|
        0 <= i < events.len() ==> (#[trigger] events[i]).payload.get("sequence_number"@) == Some(
            count(i as u64),
        )
}

/// Whatever arrives and in whatever steps it is read, what the client is sent from the
/// beginning of an answer to its end is a whole stream.
pub proof fn law_streams_are_whole(context: Context, steps: Seq<Step>, now: i64)
    ensures
        is_whole_stream(
            sent_in_all(context, steps, now),
            reached_end(reading_after(context, steps)),
        ),
{
    let r = reading_after(context, steps);
    let turn = turn_of(r.state);
    let end = reached_end(r);
    let closing = closing_notes(context, turn, r.state.usage, end, now);
    let middle = lemma_steps_are_partial(context, steps);
    law_numbering_goes_on(opening_notes(context) + middle, closing, 0);
    lemma_whole_stream(context, middle, turn, r.state.usage, end, now);
}

/// What is sent in some steps is numbered as one list, whose events behind the opening
/// tell of parts of the answer.
proof fn lemma_steps_are_partial(context: Context, steps: Seq<Step>) -> (middle: Seq<Note>)
    ensures
        all_partial(middle),
        sent_in(context, steps) == numbered(opening_notes(context) + middle, 0),
        number_reached(context, steps) == number_after(
            0,
            (opening_notes(context) + middle).len(),
        ),
    decreases steps.len(),
{
    let opening = opening_notes(context);
    if steps.len() == 0 {
        let none = Seq::<Note>::empty();
        assert(opening + none =~= opening);
        none
    } else {
        let had = lemma_steps_are_partial(context, steps.drop_last());
        let more = last_notes(context, steps);
        let r = reading_after(context, steps.drop_last());
        if steps.last() is Looked && r.ending is None && r.pending.len() > 0 {
            if let Ok(chunk) = parsed_json(r.pending[0]) {
                lemma_chunk_is_partial(with_usage(r.state, chunk), chunk, context);
            }
        }
        law_numbering_goes_on(opening + had, more, 0);
        assert((opening + had) + more =~= opening + (had + more));
        had + more
    }
}

proof fn lemma_hosted_is_partial(items: Seq<Json>, n: nat)
    ensures
        all_partial(hosted_notes(items, n)),
    decreases n,
{
    if n > 0 {
        lemma_hosted_is_partial(items, (n - 1) as nat);
        let notes = hosted_notes(items, n);
        lemma_partial_names(notes[notes.len() - 2]);
        lemma_partial_names(notes[notes.len() - 1]);
    }
}

/// An opening, events that tell of parts of the answer, and a close make up a whole stream.
pub proof fn lemma_whole_stream(
    context: Context,
    middle: Seq<Note>,
    turn: Turn,
    usage: Json,
    end: End,
    now: i64,
)
    requires
        all_partial(middle),
    ensures
        is_whole_stream(
            numbered(
                opening_notes(context) + middle + closing_notes(context, turn, usage, end, now),
                0,
            ),
            end,
        ),
{
    reveal_strlit("response.created");
    reveal_strlit("response.completed");
    reveal_strlit("response.failed");
    assert("response.created"@.len() == 16);
    assert("response.completed"@.len() == 18);
    assert("response.failed"@.len() == 15);
    let hosted = hosted_notes(context.hosted_output_items, context.hosted_output_items.len());
    let opening = opening_notes(context);
    let closing = closing_notes(context, turn, usage, end, now);
    let notes = opening + middle + closing;
    lemma_hosted_is_partial(context.hosted_output_items, context.hosted_output_items.len());
    lemma_turn_end_is_partial(turn, context);
    assert forall|i: int| 0 < i < notes.len() - 1 implies is_partial(#[trigger] notes[i]) by {
        if i < opening.len() {
            assert(notes[i] == hosted[i - 1]);
        } else if i < opening.len() + middle.len() {
            assert(notes[i] == middle[i - opening.len()]);
        } else {
            assert(notes[i] == closing[i - opening.len() - middle.len()]);
            assert(closing[i - opening.len() - middle.len()] == turn_end(turn, context)[i
                - opening.len() - middle.len()]);
        }
    }
    assert(notes.last() == closing.last());
    let events = numbered(notes, 0);
    assert forall|i: int| 0 < i < events.len() implies (#[trigger] events[i]).name
        != "response.created"@ by {
        assert(events[i].name == notes[i].name);
    }
    assert forall|i: int| 0 <= i < events.len() - 1 implies (#[trigger] events[i]).name
        != "response.completed"@ && events[i].name != "response.failed"@ by {
        assert(events[i].name == notes[i].name);
    }
    if notes.len() <= u64::MAX {
        law_numbers_are_consecutive(notes, 0);
    }
}

/// The next event of an answer ends it where it says that the answer is done, and where it
/// cannot be read; any other one is taken into the turn, with the usage that it reports.
pub proof fn law_events_end_the_answer_or_add_to_it(r: Reading, context: Context)
    requires
        r.ending is None,
        r.pending.len() > 0,
    ensures
        ({
            let (after, notes) = after_event(r, false, context);
            let data = r.pending[0];
            &&& after.pending == r.pending.skip(1)
            &&& after.buffer == r.buffer
            &&& data == "[DONE]"@ ==> after.ending == Some(Ending::Finished) && notes.len() == 0
                && after.state == r.state
            &&& data != "[DONE]"@ ==> match parsed_json(data) {
                Err(e) => {
                    &&& after.ending == Some(
                        Ending::Unreadable("failed to parse upstream SSE JSON: "@ + e),
                    )
                    &&& notes.len() == 0
                    &&& after.state == r.state
                },
                Ok(chunk) => {
                    &&& after.ending is None
                    &&& chunk.get("usage"@) matches Some(report) ==> shows(
                        after.state.usage,
                        reported(Some(report)),
                    )
                    &&& chunk.get("usage"@) is None ==> after.state.usage == r.state.usage
                    &&& !(first_delta(chunk) matches Some(Json::Object(_))) ==> after.state.text
                        == r.state.text && notes.len() == 0
                    &&& first_delta(chunk) matches Some(Json::Object(m)) ==> {
                        &&& m.get("content"@) matches Some(Json::Text(t)) ==> after.state.text
                            == r.state.text + t
                        &&& after.state.reasoning == r.state.reasoning + or_nothing(
                            first_reasoning(m),
                        )
                    }
                },
            }
        }),
{
    if let Ok(chunk) = parsed_json(r.pending[0]) {
        law_chunks_add_what_they_bring(with_usage(r.state, chunk), chunk, context);
        law_reported_counts_are_shown(chunk.get("usage"@));
    }
}

/// What arrives is taken in as long as the answer has not ended: whole events wait to be
/// looked at, behind those that wait already. A request that is cancelled ends, and so does
/// one whose connection breaks; after its end nothing changes any more.
pub proof fn law_arrivals_wait_their_turn(
    r: Reading,
    cancelled: bool,
    chunk: Result<Seq<u8>, Seq<char>>,
    context: Context,
)
    ensures
        r.ending is Some ==> after_arrival(r, cancelled, chunk) == r && after_event(
            r,
            cancelled,
            context,
        ) == (r, Seq::<Note>::empty()),
        r.ending is None && cancelled ==> after_arrival(r, cancelled, chunk).ending == Some(
            Ending::Cancelled,
        ),
        r.ending is None && cancelled && r.pending.len() > 0 ==> after_event(
            r,
            cancelled,
            context,
        ).0.ending == Some(Ending::Cancelled) && after_event(r, cancelled, context).1.len() == 0,
        r.ending is None && !cancelled ==> match chunk {
            Err(e) => after_arrival(r, cancelled, chunk).ending == Some(Ending::Broken(e)),
            Ok(bytes) => {
                let after = after_arrival(r, cancelled, chunk);
                let all = r.buffer + lossy_text(bytes);
                &&& after.ending is None
                &&& after.state == r.state
                &&& after.buffer == remainder(all)
                &&& after.pending == r.pending + events_data(blocks(all))
            },
        },
        after_arrival(r, cancelled, chunk).state == r.state,
{
}

/// Whether an event tells of the message of an answer.
pub open spec fn is_about_the_message(note: Note) -> bool {
    note.name == "response.output_text.delta"@ || note.name == "response.content_part.added"@
        || announces(note, "message"@)
}

/// The events on the message carry the place that the message has in the end: where no more
/// reasoning comes after a step, each of its events on the message carries the place at which
/// the message is closed.
pub proof fn law_message_keeps_its_place(context: Context, steps: Seq<Step>, more: Seq<Step>)
    requires
        steps.len() > 0,
        reading_after(context, steps + more).state.reasoning == reading_after(
            context,
            steps,
        ).state.reasoning,
    ensures
        ({
            let turn = turn_of(reading_after(context, steps + more).state);
            let notes = last_notes(context, steps);
            forall|i: int|
                0 <= i < notes.len() && is_about_the_message(#[trigger] notes[i])
                    ==> notes[i].body.get("output_index"@) == Some(
                    count(message_place(turn) as u64),
                )
        }),
{
    let r = reading_after(context, steps.drop_last());
    if steps.last() is Looked && r.ending is None && r.pending.len() > 0 {
        if let Ok(chunk) = parsed_json(r.pending[0]) {
            law_events_carry_the_place_of_their_item(
                with_usage(r.state, chunk),
                chunk,
                context,
            );
        }
    }
}

/// An answer that is done is complete, one that was cancelled is cancelled, and one whose
/// connection broke or that could not be read has failed. The last event carries the
/// response.
pub proof fn law_answers_end_as_they_were_read(
    context: Context,
    r: Reading,
    usage: Json,
    now: i64,
)
    ensures
        ({
            let turn = turn_of(r.state);
            let end = reached_end(r);
            let notes = closing_notes(context, turn, usage, end, now);
            let response = end_response(context, turn, usage, end, now);
            &&& r.ending is None || r.ending == Some(Ending::Finished) ==> end == End::Completed
                && response.get("status"@) == Some(Json::Text("completed"@)) && response.get(
                "usage"@,
            ) == Some(usage)
            &&& r.ending == Some(Ending::Cancelled) ==> end == End::Cancelled && response.get(
                "status"@,
            ) == Some(Json::Text("cancelled"@))
            &&& r.ending matches Some(Ending::Broken(m)) ==> response.get("status"@) == Some(
                Json::Text("failed"@),
            ) && (response.get("error"@) matches Some(e) && e.get("message"@) == Some(
                Json::Text(m),
            ))
            &&& r.ending matches Some(Ending::Unreadable(m)) ==> response.get("status"@) == Some(
                Json::Text("failed"@),
            ) && (response.get("error"@) matches Some(e) && e.get("message"@) == Some(
                Json::Text(m),
            ))
            &&& response.get("output_text"@) == Some(Json::Text(turn.text))
            &&& notes.len() > 0
            &&& notes.last().body.get("response"@) == Some(response)
            &&& notes.last().body.get("type"@) == Some(Json::Text(notes.last().name))
            &&& end is Completed ==> notes.drop_last() == turn_end(turn, context)
            &&& !(end is Completed) ==> notes.len() == 1
        }),
{
    reveal_strlit("type");
    reveal_strlit("response");
    assert("type"@.len() == 4);
    assert("response"@.len() == 8);
    let turn = turn_of(r.state);
    law_completed_responses_tell_the_turn(context, turn, usage, now);
    law_cancelled_responses_tell_the_turn(context, turn, usage, now);
    if let Some(Ending::Broken(m)) = r.ending {
        law_failed_responses_tell_the_error(context, turn, now, m, "upstream_stream_error"@);
    }
    if let Some(Ending::Unreadable(m)) = r.ending {
        law_failed_responses_tell_the_error(context, turn, now, m, "upstream_stream_error"@);
    }
    let end = reached_end(r);
    let notes = closing_notes(context, turn, usage, end, now);
    if end is Completed {
        assert(notes.drop_last() =~= turn_end(turn, context));
    }
}

/// An answer begins with the response under way and the items of hosted tools, each of them
/// announced and complete under its place.
pub proof fn law_hosted_items_are_told_first(context: Context, i: int)
    requires
        0 <= i < context.hosted_output_items.len(),
    ensures
        ({
            let notes = opening_notes(context);
            let item = context.hosted_output_items[i];
            &&& notes.len() == 1 + 2 * context.hosted_output_items.len()
            &&& notes[0].body.get("response"@) == Some(in_progress_response(context))
            &&& notes[1 + 2 * i].name == "response.output_item.added"@
            &&& notes[1 + 2 * i].body.get("output_index"@) == Some(count(i as u64))
            &&& notes[1 + 2 * i].body.get("item"@) == Some(item)
            &&& closes_item(notes[2 + 2 * i], i)
            &&& notes[2 + 2 * i].body.get("item"@) == Some(item)
        }),
{
    reveal_strlit("type");
    reveal_strlit("response");
    reveal_strlit("output_index");
    reveal_strlit("item");
    assert("type"@.len() == 4);
    assert("response"@.len() == 8);
    assert("output_index"@.len() == 12);
    assert("item"@.len() == 4);
    assert("type"@[0] == 't');
    assert("item"@[0] == 'i');
    let hosted = context.hosted_output_items;
    lemma_hosted_at(hosted, hosted.len(), i);
    let notes = opening_notes(context);
    assert(notes[1 + 2 * i] == hosted_notes(hosted, hosted.len())[2 * i]);
    assert(notes[2 + 2 * i] == hosted_notes(hosted, hosted.len())[2 * i + 1]);
}

proof fn lemma_hosted_at(items: Seq<Json>, n: nat, i: int)
    requires
        0 <= i < n <= items.len(),
    ensures
        hosted_notes(items, n).len() == 2 * n,
        hosted_notes(items, n)[2 * i] == item_added(i as u64, items[i]),
        hosted_notes(items, n)[2 * i + 1] == item_done(i as u64, items[i]),
    decreases n,
{
    if i < n - 1 {
        lemma_hosted_at(items, (n - 1) as nat, i);
    } else if n > 1 {
        lemma_hosted_at(items, (n - 1) as nat, 0);
    } else {
        assert(hosted_notes(items, 0).len() == 0);
    }
}

} // verus!

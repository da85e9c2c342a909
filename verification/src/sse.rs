//! Reading server-sent events from a stream of text chunks.

use crate::text::{
    find_from, from_chars, has_prefix, is_space, join, joined, occurs_at, strip_prefix, texts, to_chars,
    trim_start, trimmed_start,
};
use vstd::prelude::*;
use vstd::string::*;

verus! {

/// Whether an empty line ends at `i`: two line feeds stand there.
pub open spec fn is_break(s: Seq<char>, i: int) -> bool {
    0 <= i && i + 2 <= s.len() && s[i] == '\n' && s[i + 1] == '\n'
}

/// Where the first break at or after `from` stands.
pub open spec fn break_at(s: Seq<char>, from: int) -> Option<int>
    decreases s.len() - from,
{
    if from < 0 || from + 2 > s.len() {
        None
    } else if is_break(s, from) {
        Some(from)
    } else {
        break_at(s, from + 1)
    }
}

/// The complete blocks of a stream, each with the break that ends it.
pub open spec fn blocks(s: Seq<char>) -> Seq<Seq<char>>
    decreases s.len(),
{
    match break_at(s, 0) {
        None => Seq::empty(),
        Some(i) => if 0 <= i && i + 2 <= s.len() {
            seq![s.take(i + 2)] + blocks(s.skip(i + 2))
        } else {
            Seq::empty()
        },
    }
}

/// What follows the last complete block.
pub open spec fn remainder(s: Seq<char>) -> Seq<char>
    decreases s.len(),
{
    match break_at(s, 0) {
        None => s,
        Some(i) => if 0 <= i && i + 2 <= s.len() {
            remainder(s.skip(i + 2))
        } else {
            s
        },
    }
}

/// Where the first line feed at or after `from` stands.
pub open spec fn newline_at(s: Seq<char>, from: int) -> Option<int>
    decreases s.len() - from,
{
    if from < 0 || from >= s.len() {
        None
    } else if s[from] == '\n' {
        Some(from)
    } else {
        newline_at(s, from + 1)
    }
}

/// A line without the carriage return at its end.
pub open spec fn without_return(line: Seq<char>) -> Seq<char> {
    if line.len() > 0 && line.last() == '\r' {
        line.drop_last()
    } else {
        line
    }
}

/// The lines of a text. A line ends with a line feed, with or without a carriage return
/// before it; the last line need not end with one.
pub open spec fn lines_of(s: Seq<char>) -> Seq<Seq<char>>
    decreases s.len(),
{
    if s.len() == 0 {
        Seq::empty()
    } else {
        match newline_at(s, 0) {
            None => seq![s],
            Some(i) => if 0 <= i < s.len() {
                seq![without_return(s.take(i))] + lines_of(s.skip(i + 1))
            } else {
                seq![s]
            },
        }
    }
}

/// The data that lines carry.
pub open spec fn data_of(lines: Seq<Seq<char>>) -> Seq<Seq<char>>
    decreases lines.len(),
{
    if lines.len() == 0 {
        Seq::empty()
    } else {
        let earlier = data_of(lines.drop_last());
        if has_prefix(lines.last(), "data:"@) {
            earlier.push(trimmed_start(lines.last().skip("data:"@.len() as int)))
        } else {
            earlier
        }
    }
}

/// The data of an event: its data lines, one per line; nothing where it has none.
pub open spec fn event_data(block: Seq<char>) -> Option<Seq<char>> {
    let data = data_of(lines_of(block));
    if data.len() == 0 {
        None
    } else {
        Some(joined(data, "\n"@))
    }
}

/// The data of a sequence of blocks.
pub open spec fn events_data(blocks: Seq<Seq<char>>) -> Seq<Seq<char>>
    decreases blocks.len(),
{
    if blocks.len() == 0 {
        Seq::empty()
    } else {
        let earlier = events_data(blocks.drop_last());
        match event_data(blocks.last()) {
            Some(d) => earlier.push(d),
            None => earlier,
        }
    }
}

proof fn lemma_break(s: Seq<char>, from: int)
    requires
        0 <= from,
    ensures
        match break_at(s, from) {
            Some(i) => from <= i && is_break(s, i) && forall|j: int|
                from <= j < i ==> !#[trigger] is_break(s, j),
            None => forall|j: int| from <= j ==> !#[trigger] is_break(s, j),
        },
    decreases s.len() - from,
{
    if from + 2 <= s.len() && !is_break(s, from) {
        lemma_break(s, from + 1);
        assert forall|j: int| from <= j && (break_at(s, from) matches Some(i) ==> j < i) implies
            !#[trigger] is_break(s, j) by {
            if j > from {
                assert(from + 1 <= j);
            }
        }
    }
}

proof fn lemma_break_found(s: Seq<char>, i: int)
    requires
        0 <= i,
        is_break(s, i),
        forall|j: int| 0 <= j < i ==> !#[trigger] is_break(s, j),
    ensures
        break_at(s, 0) == Some(i),
{
    lemma_break(s, 0);
    match break_at(s, 0) {
        Some(k) => {
            if k < i {
                assert(is_break(s, k));
            } else if i < k {
                assert(is_break(s, i));
            }
        },
        None => {
            assert(is_break(s, i));
        },
    }
}

proof fn lemma_break_none(s: Seq<char>)
    requires
        forall|j: int| 0 <= j ==> !#[trigger] is_break(s, j),
    ensures
        break_at(s, 0) is None,
{
    lemma_break(s, 0);
}

proof fn lemma_events_data_concat(a: Seq<Seq<char>>, b: Seq<Seq<char>>)
    ensures
        events_data(a + b) == events_data(a) + events_data(b),
    decreases b.len(),
{
    if b.len() == 0 {
        assert(a + b =~= a);
        assert(events_data(a) + events_data(b) =~= events_data(a));
    } else {
        assert((a + b).drop_last() =~= a + b.drop_last());
        lemma_events_data_concat(a, b.drop_last());
        assert(events_data(a + b) =~= events_data(a) + events_data(b));
    }
}

/// How a stream is cut into chunks does not matter: text that comes in two chunks gives
/// the blocks, and leaves the remainder, that it gives and leaves in one.
pub proof fn law_chunks_do_not_matter(a: Seq<char>, b: Seq<char>)
    ensures
        blocks(a + b) == blocks(a) + blocks(remainder(a) + b),
        remainder(a + b) == remainder(remainder(a) + b),
        events_data(blocks(a + b)) == events_data(blocks(a)) + events_data(
            blocks(remainder(a) + b),
        ),
    decreases a.len(),
{
    match break_at(a, 0) {
        None => {
            assert(blocks(a) + blocks(a + b) =~= blocks(a + b));
        },
        Some(i) => {
            lemma_break(a, 0);
            let s = a + b;
            assert(is_break(s, i));
            assert forall|j: int| 0 <= j < i implies !#[trigger] is_break(s, j) by {
                assert(!is_break(a, j));
            }
            lemma_break_found(s, i);
            assert(s.take(i + 2) =~= a.take(i + 2));
            assert(s.skip(i + 2) =~= a.skip(i + 2) + b);
            law_chunks_do_not_matter(a.skip(i + 2), b);
            assert(blocks(s) =~= blocks(a) + blocks(remainder(a) + b));
        },
    }
    lemma_events_data_concat(blocks(a), blocks(remainder(a) + b));
}

proof fn lemma_newline(s: Seq<char>, from: int)
    requires
        0 <= from,
    ensures
        match newline_at(s, from) {
            Some(i) => from <= i < s.len() && s[i] == '\n' && forall|j: int|
                from <= j < i ==> s[j] != '\n',
            None => forall|j: int| from <= j < s.len() ==> s[j] != '\n',
        },
    decreases s.len() - from,
{
    if from < s.len() && s[from] != '\n' {
        lemma_newline(s, from + 1);
    }
}

proof fn lemma_newline_found(s: Seq<char>, i: int)
    requires
        0 <= i,
        i < s.len(),
        s[i] == '\n',
        forall|j: int| 0 <= j < i ==> s[j] != '\n',
    ensures
        newline_at(s, 0) == Some(i),
{
    lemma_newline(s, 0);
}

proof fn lemma_data_concat(a: Seq<Seq<char>>, b: Seq<Seq<char>>)
    ensures
        data_of(a + b) == data_of(a) + data_of(b),
    decreases b.len(),
{
    if b.len() == 0 {
        assert(a + b =~= a);
        assert(data_of(a) + data_of(b) =~= data_of(a));
    } else {
        assert((a + b).drop_last() =~= a + b.drop_last());
        lemma_data_concat(a, b.drop_last());
        assert(data_of(a + b) =~= data_of(a) + data_of(b));
    }
}

proof fn lemma_data_single(line: Seq<char>)
    ensures
        data_of(seq![line]) == (if has_prefix(line, "data:"@) {
            seq![trimmed_start(line.skip("data:"@.len() as int))]
        } else {
            Seq::empty()
        }),
{
    reveal_with_fuel(data_of, 2);
    assert(seq![line].drop_last() =~= Seq::empty());
    assert(data_of(seq![line]) =~= (if has_prefix(line, "data:"@) {
        seq![trimmed_start(line.skip("data:"@.len() as int))]
    } else {
        Seq::empty()
    }));
}

/// Adds the data of a line, if it carries some.
fn take_line(data: &mut Vec<String>, line: &str)
    ensures
        texts(final(data)@) == texts(old(data)@) + data_of(seq![line@]),
{
    proof {
        lemma_data_single(line@);
    }
    match strip_prefix(line, "data:") {
        Some(value) => {
            let trimmed = trim_start(value.as_str());
            data.push(trimmed);
        },
        None => {},
    }
    assert(texts(data@) =~= texts(old(data)@) + data_of(seq![line@]));
}

/// The data of an event.
pub fn parse_sse_event(raw: &str) -> (data: Option<String>)
    ensures
        data.deep_view() == event_data(raw@),
{
    let chars = to_chars(raw);
    let ghost all = chars@;
    let mut data: Vec<String> = Vec::new();
    let mut start: usize = 0;
    let mut i: usize = 0;
    assert(all.skip(0) =~= all);
    assert(texts(data@) + data_of(lines_of(all)) =~= data_of(lines_of(all)));
    while i < chars.len()
        invariant
            start <= i <= all.len(),
            all == chars@,
            forall|j: int| start <= j < i ==> all[j] != '\n',
            texts(data@) + data_of(lines_of(all.skip(start as int))) == data_of(lines_of(all)),
        decreases all.len() - i,
    {
        if chars[i] == '\n' {
            let end: usize = if i > start && chars[i - 1] == '\r' {
                i - 1
            } else {
                i
            };
            let line = from_chars(&chars, start, end);
            let ghost before = texts(data@);
            proof {
                let s = all.skip(start as int);
                lemma_newline_found(s, i - start);
                assert(s.take(i - start) =~= all.subrange(start as int, i as int));
                assert(without_return(s.take(i - start)) =~= line@);
                assert(s.skip(i - start + 1) =~= all.skip(i + 1));
                lemma_data_concat(seq![line@], lines_of(all.skip(i + 1)));
            }
            take_line(&mut data, line.as_str());
            assert(texts(data@) + data_of(lines_of(all.skip(i + 1))) =~= before + (data_of(
                seq![line@],
            ) + data_of(lines_of(all.skip(i + 1)))));
            start = i + 1;
        }
        i += 1;
    }
    let ghost s = all.skip(start as int);
    if start < chars.len() {
        let line = from_chars(&chars, start, chars.len());
        proof {
            lemma_newline(s, 0);
            assert(newline_at(s, 0) is None) by {
                if let Some(k) = newline_at(s, 0) {
                    assert(all[start + k] == '\n');
                }
            }
            assert(line@ =~= s);
        }
        take_line(&mut data, line.as_str());
    } else {
        assert(s.len() == 0);
        assert(texts(data@) + data_of(lines_of(s)) =~= texts(data@));
    }
    if data.len() == 0 {
        None
    } else {
        Some(join(&data, "\n"))
    }
}

/// A reader of server-sent events that is fed chunk by chunk.
#[derive(Debug)]
pub struct SseParser {
    buffer: String,
}

impl View for SseParser {
    type V = Seq<char>;

    /// The text that waits for the rest of its block.
    closed spec fn view(&self) -> Seq<char> {
        self.buffer@
    }
}

impl Default for SseParser {
    fn default() -> (p: Self)
        ensures
            p@ == Seq::<char>::empty(),
    {
        SseParser { buffer: String::new() }
    }
}

impl SseParser {
    /// Takes one more chunk, and gives the data of the events that are complete now.
    pub fn push(&mut self, chunk: &str) -> (events: Vec<String>)
        ensures
            texts(events@) == events_data(blocks(old(self)@ + chunk@)),
            final(self)@ == remainder(old(self)@ + chunk@),
    {
        self.buffer.append(chunk);
        let chars = to_chars(self.buffer.as_str());
        let pattern = to_chars("\n\n");
        let ghost all = chars@;
        proof {
            reveal_strlit("\n\n");
        }
        let mut events: Vec<String> = Vec::new();
        let mut from: usize = 0;
        assert(all.skip(0) =~= all);
        assert(texts(events@) + events_data(blocks(all)) =~= events_data(blocks(all)));
        loop
            invariant
                from <= all.len(),
                all == chars@,
                all == old(self)@ + chunk@,
                pattern@ == "\n\n"@,
                "\n\n"@ =~= seq!['\n', '\n'],
                texts(events@) + events_data(blocks(all.skip(from as int))) == events_data(
                    blocks(all),
                ),
                remainder(all.skip(from as int)) == remainder(all),
            ensures
                break_at(all.skip(from as int), 0) is None,
            decreases all.len() - from,
        {
            let ghost s = all.skip(from as int);
            assert forall|j: int| 0 <= j implies is_break(s, j) == #[trigger] occurs_at(
                all,
                pattern@,
                from + j,
            ) by {
                if from + j + 2 <= all.len() {
                    let part = all.subrange(from + j, from + j + 2);
                    assert(part[0] == s[j] && part[1] == s[j + 1]);
                    assert(part.len() == 2);
                    if is_break(s, j) {
                        assert(part =~= pattern@);
                    }
                }
            }
            match find_from(&chars, &pattern, from) {
                None => {
                    proof {
                        assert forall|j: int| 0 <= j implies !#[trigger] is_break(s, j) by {
                            assert(!occurs_at(all, pattern@, from + j));
                        }
                        lemma_break_none(s);
                    }
                    break;
                },
                Some(at) => {
                    let ghost i = at - from;
                    proof {
                        assert(is_break(s, i)) by {
                            assert(occurs_at(all, pattern@, from + i));
                        }
                        assert forall|j: int| 0 <= j < i implies !#[trigger] is_break(s, j) by {
                            assert(!occurs_at(all, pattern@, from + j));
                        }
                        lemma_break_found(s, i);
                    }
                    assert(at + 2 <= chars.len());
                    let raw = from_chars(&chars, from, at + 2);
                    let ghost before = texts(events@);
                    proof {
                        assert(s.take(i + 2) =~= raw@);
                        assert(s.skip(i + 2) =~= all.skip(at + 2));
                        lemma_events_data_concat(seq![raw@], blocks(all.skip(at + 2)));
                        lemma_events_data_single(raw@);
                    }
                    if let Some(event) = parse_sse_event(raw.as_str()) {
                        events.push(event);
                    }
                    assert(texts(events@) =~= before + events_data(seq![raw@]));
                    assert(texts(events@) + events_data(blocks(all.skip(at + 2))) =~= before + (
                    events_data(seq![raw@]) + events_data(blocks(all.skip(at + 2)))));
                    from = at + 2;
                },
            }
        }
        assert(texts(events@) + events_data(blocks(all.skip(from as int))) =~= texts(events@));
        assert(all.subrange(from as int, all.len() as int) =~= all.skip(from as int));
        self.buffer = from_chars(&chars, from, chars.len());
        events
    }
}

proof fn lemma_events_data_single(block: Seq<char>)
    ensures
        events_data(seq![block]) == (match event_data(block) {
            Some(d) => seq![d],
            None => Seq::empty(),
        }),
{
    reveal_with_fuel(events_data, 2);
    assert(seq![block].drop_last() =~= Seq::empty());
    assert(events_data(seq![block]) =~= (match event_data(block) {
        Some(d) => seq![d],
        None => Seq::empty(),
    }));
}

/// Lines one after the other, each with a line feed behind it.
pub open spec fn written_lines(lines: Seq<Seq<char>>) -> Seq<char>
    decreases lines.len(),
{
    if lines.len() == 0 {
        Seq::empty()
    } else {
        lines[0] + seq!['\n'] + written_lines(lines.skip(1))
    }
}

/// The text of an event: its lines, and an empty one.
pub open spec fn written_event(lines: Seq<Seq<char>>) -> Seq<char> {
    written_lines(lines) + seq!['\n']
}

/// Whether a text is one line that is not empty, without a line feed in it and without a
/// carriage return at its end.
pub open spec fn is_plain_line(line: Seq<char>) -> bool {
    &&& line.len() > 0
    &&& line.last() != '\r'
    &&& forall|i: int| 0 <= i < line.len() ==> #[trigger] line[i] != '\n'
}

/// Whether all lines are plain ones.
pub open spec fn are_plain_lines(lines: Seq<Seq<char>>) -> bool {
    forall|i: int| 0 <= i < lines.len() ==> is_plain_line(#[trigger] lines[i])
}

/// The line that carries a piece of data.
pub open spec fn data_line(data: Seq<char>) -> Seq<char> {
    "data: "@ + data
}

proof fn lemma_first_line(line: Seq<char>, rest: Seq<char>)
    requires
        forall|i: int| 0 <= i < line.len() ==> #[trigger] line[i] != '\n',
        line.len() > 0 ==> line.last() != '\r',
    ensures
        lines_of(line + seq!['\n'] + rest) == seq![line] + lines_of(rest),
{
    let s = line + seq!['\n'] + rest;
    let n = line.len() as int;
    assert(s[n] == '\n');
    assert forall|j: int| 0 <= j < n implies s[j] != '\n' by {
        assert(s[j] == line[j]);
    }
    lemma_newline_found(s, n);
    assert(s.take(n) =~= line);
    assert(s.skip(n + 1) =~= rest);
}

proof fn lemma_written_lines(lines: Seq<Seq<char>>)
    requires
        are_plain_lines(lines),
    ensures
        lines_of(written_event(lines)) == lines.push(Seq::empty()),
    decreases lines.len(),
{
    if lines.len() == 0 {
        let none = Seq::<char>::empty();
        lemma_first_line(none, none);
        assert(written_event(lines) =~= none + seq!['\n'] + none);
        assert(lines_of(none) =~= Seq::empty());
        assert(seq![none] + Seq::empty() =~= lines.push(none));
    } else {
        let rest = lines.skip(1);
        assert(forall|i: int| 0 <= i < rest.len() ==> #[trigger] rest[i] == lines[i + 1]);
        lemma_written_lines(rest);
        assert(is_plain_line(lines[0]));
        lemma_first_line(lines[0], written_event(rest));
        assert(written_event(lines) =~= lines[0] + seq!['\n'] + written_event(rest));
        assert(seq![lines[0]] + rest.push(Seq::empty()) =~= lines.push(Seq::empty()));
    }
}

/// The text of an event holds no break but the one at its end.
proof fn lemma_no_early_break(lines: Seq<Seq<char>>, tail: Seq<char>)
    requires
        are_plain_lines(lines),
        lines.len() > 0,
    ensures
        ({
            let s = written_event(lines) + tail;
            let n = written_event(lines).len();
            &&& n >= 2
            &&& is_break(s, n - 2)
            &&& forall|j: int| 0 <= j < n - 2 ==> !#[trigger] is_break(s, j)
        }),
    decreases lines.len(),
{
    let line = lines[0];
    let rest = lines.skip(1);
    assert(is_plain_line(line));
    let s = written_event(lines) + tail;
    let n = line.len() as int;
    if rest.len() == 0 {
        assert(written_lines(rest) =~= Seq::empty());
        assert(written_event(lines) =~= line + seq!['\n', '\n']);
        assert forall|j: int| 0 <= j < n implies !#[trigger] is_break(s, j) by {
            assert(s[j] == line[j]);
        }
    } else {
        assert(forall|i: int| 0 <= i < rest.len() ==> #[trigger] rest[i] == lines[i + 1]);
        lemma_no_early_break(rest, tail);
        let inner = written_event(rest) + tail;
        assert(written_event(lines) =~= line + seq!['\n'] + written_event(rest));
        assert(s =~= line + seq!['\n'] + inner);
        let m = written_event(rest).len();
        assert(forall|j: int| 0 <= j < inner.len() ==> #[trigger] inner[j] == s[n + 1 + j]);
        assert(is_plain_line(rest[0]));
        assert(inner[0] == rest[0][0]);
        assert forall|j: int| 0 <= j < written_event(lines).len() - 2 implies
            !#[trigger] is_break(s, j) by {
            if j < n {
                assert(s[j] == line[j]);
            } else if j == n {
                assert(s[n + 1] == inner[0]);
            } else {
                assert(!is_break(inner, j - n - 1));
                assert(inner[j - n - 1] == s[j]);
                assert(inner[j - n] == s[j + 1]);
            }
        }
        assert(is_break(inner, m - 2));
        assert(inner[m - 2] == s[n + 1 + m - 2]);
        assert(inner[m - 1] == s[n + 1 + m - 1]);
    }
}

/// Events are taken from the stream one after the other, in the order in which they are
/// sent, and what follows an event is read as if it stood alone.
pub proof fn law_events_are_taken_in_order(lines: Seq<Seq<char>>, tail: Seq<char>)
    requires
        are_plain_lines(lines),
        lines.len() > 0,
    ensures
        events_data(blocks(written_event(lines) + tail)) == (match event_data(
            written_event(lines),
        ) {
            Some(data) => seq![data],
            None => Seq::empty(),
        }) + events_data(blocks(tail)),
        remainder(written_event(lines) + tail) == remainder(tail),
{
    let block = written_event(lines);
    let s = block + tail;
    lemma_no_early_break(lines, tail);
    let n = block.len() as int;
    lemma_break_found(s, n - 2);
    assert(s.take(n) =~= block);
    assert(s.skip(n) =~= tail);
    lemma_events_data_concat(seq![block], blocks(tail));
    lemma_events_data_single(block);
}

/// Text without an empty line in it is no event yet: it waits for the rest.
pub proof fn law_unfinished_events_wait(s: Seq<char>)
    requires
        forall|i: int| 0 <= i < s.len() - 1 ==> !(#[trigger] s[i] == '\n' && s[i + 1] == '\n'),
    ensures
        events_data(blocks(s)).len() == 0,
        remainder(s) == s,
{
    assert forall|j: int| 0 <= j implies !#[trigger] is_break(s, j) by {
        if j < s.len() - 1 {
            assert(!(s[j] == '\n' && s[j + 1] == '\n'));
        }
    }
    lemma_break_none(s);
}

/// An event gives the data that was put into it: one piece as it is, and several pieces one
/// per line.
pub proof fn law_data_is_read_as_it_was_sent(data: Seq<Seq<char>>)
    requires
        data.len() > 0,
        forall|i: int|
            0 <= i < data.len() ==> is_plain_line(#[trigger] data[i]) && !is_space(data[i][0]),
    ensures
        event_data(written_event(Seq::new(data.len(), |i: int| data_line(data[i])))) == Some(
            joined(data, "\n"@),
        ),
        data.len() == 1 ==> event_data(written_event(seq![data_line(data[0])])) == Some(data[0]),
{
    let lines = Seq::new(data.len(), |i: int| data_line(data[i]));
    reveal_strlit("data: ");
    assert("data: "@.len() == 6);
    assert forall|i: int| 0 <= i < lines.len() implies is_plain_line(#[trigger] lines[i]) by {
        let line = lines[i];
        assert(is_plain_line(data[i]));
        assert(line.last() == data[i].last());
        assert forall|j: int| 0 <= j < line.len() implies #[trigger] line[j] != '\n' by {
            if j >= 6 {
                assert(line[j] == data[i][j - 6]);
            } else {
                assert(line[j] == "data: "@[j]);
            }
        }
    }
    lemma_written_lines(lines);
    lemma_data_lines(data);
    lemma_data_concat(lines, seq![Seq::empty()]);
    lemma_data_single(Seq::empty());
    reveal_strlit("data:");
    assert("data:"@.len() == 5);
    assert(lines.push(Seq::empty()) =~= lines + seq![Seq::empty()]);
    assert(data_of(lines) + Seq::empty() =~= data_of(lines));
    if data.len() == 1 {
        assert(lines =~= seq![data_line(data[0])]);
    }
}

proof fn lemma_data_lines(data: Seq<Seq<char>>)
    requires
        forall|i: int|
            0 <= i < data.len() ==> is_plain_line(#[trigger] data[i]) && !is_space(data[i][0]),
    ensures
        data_of(Seq::new(data.len(), |i: int| data_line(data[i]))) == data,
    decreases data.len(),
{
    let lines = Seq::new(data.len(), |i: int| data_line(data[i]));
    if data.len() == 0 {
        assert(lines =~= Seq::empty());
        assert(data =~= Seq::empty());
    } else {
        let had = data.drop_last();
        assert(forall|i: int| 0 <= i < had.len() ==> #[trigger] had[i] == data[i]);
        lemma_data_lines(had);
        assert(lines.drop_last() =~= Seq::new(had.len(), |i: int| data_line(had[i])));
        let last = data.last();
        assert(last == data[data.len() - 1]);
        reveal_strlit("data:");
        reveal_strlit("data: ");
        let line = data_line(last);
        assert(line.take(5) =~= "data:"@);
        let value = line.skip(5);
        assert(value[0] == ' ');
        assert(is_space(' '));
        assert(value.skip(1) =~= last);
        assert(!is_space(last[0]));
        assert(trimmed_start(last) == last);
        assert(trimmed_start(value) == trimmed_start(value.skip(1)));
        assert(had.push(last) =~= data);
    }
}

/// Lines that carry no data, such as the name of the event, change nothing.
pub proof fn law_other_lines_carry_no_data(
    before: Seq<Seq<char>>,
    line: Seq<char>,
    after: Seq<Seq<char>>,
)
    requires
        are_plain_lines(before),
        are_plain_lines(after),
        is_plain_line(line),
        line.len() < 5 || line.take(5) != "data:"@,
    ensures
        event_data(written_event(before.push(line) + after)) == event_data(
            written_event(before + after),
        ),
{
    reveal_strlit("data:");
    assert("data:"@.len() == 5);
    let with = before.push(line) + after;
    let without = before + after;
    assert forall|i: int| 0 <= i < with.len() implies is_plain_line(#[trigger] with[i]) by {
        if i < before.len() {
            assert(with[i] == before[i]);
        } else if i > before.len() {
            assert(with[i] == after[i - before.len() - 1]);
        }
    }
    assert forall|i: int| 0 <= i < without.len() implies is_plain_line(#[trigger] without[i]) by {
        if i < before.len() {
            assert(without[i] == before[i]);
        } else {
            assert(without[i] == after[i - before.len()]);
        }
    }
    lemma_written_lines(with);
    lemma_written_lines(without);
    let end = after.push(Seq::empty());
    assert(with.push(Seq::empty()) =~= (before + seq![line]) + end);
    assert(without.push(Seq::empty()) =~= before + end);
    lemma_data_concat(before + seq![line], end);
    lemma_data_concat(before, seq![line]);
    lemma_data_concat(before, end);
    lemma_data_single(line);
    assert(data_of(before) + Seq::empty() =~= data_of(before));
}

/// A line may end in a carriage return and a newline: it is read without either.
pub proof fn law_returns_are_no_part_of_a_line(line: Seq<char>, rest: Seq<char>)
    requires
        is_plain_line(line),
    ensures
        lines_of(line + seq!['\r', '\n'] + rest) == seq![line] + lines_of(rest),
        lines_of(line + seq!['\n'] + rest) == seq![line] + lines_of(rest),
{
    let a = line + seq!['\r', '\n'] + rest;
    let n = line.len() as int;
    assert(a[n] == '\r' && a[n + 1] == '\n');
    lemma_newline_found(a, n + 1);
    assert(a.take(n + 1).drop_last() =~= line);
    assert(a.take(n + 1).last() == '\r');
    assert(a.skip(n + 2) =~= rest);
    let b = line + seq!['\n'] + rest;
    assert(b[n] == '\n');
    lemma_newline_found(b, n);
    assert(b.take(n) =~= line);
    assert(b.skip(n + 1) =~= rest);
}

} // verus!

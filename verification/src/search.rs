//! Searching files for keywords.

use crate::hosted::{system_message, system_value, HostedToolSection, Section};
use crate::json::{array_of, object, Json, JsonValue};
use crate::text::{
    concat, concat3, contains, decimal, decimal_text, find_from, from_chars, has_part,
    is_ascii_text, is_space, is_whitespace, join, joined, law_parts_have_surroundings,
    law_told_texts_are_found, lowercased, occurs_at, same_text, starts_with, texts, to_chars,
    to_lowercase, trimmed_start,
};
use vstd::prelude::*;
use vstd::string::*;

verus! {

/// The number of characters before the first white space.
pub open spec fn word_len(s: Seq<char>) -> nat
    decreases s.len(),
{
    if s.len() == 0 || is_space(s[0]) {
        0
    } else {
        1 + word_len(s.skip(1))
    }
}

proof fn lemma_word_len(s: Seq<char>)
    ensures
        word_len(s) <= s.len(),
        forall|i: int| 0 <= i < word_len(s) ==> !is_space(#[trigger] s[i]),
        word_len(s) < s.len() ==> is_space(s[word_len(s) as int]),
        s.len() > 0 && !is_space(s[0]) ==> word_len(s) > 0,
    decreases s.len(),
{
    if s.len() > 0 && !is_space(s[0]) {
        lemma_word_len(s.skip(1));
        assert forall|i: int| 0 <= i < word_len(s) implies !is_space(#[trigger] s[i]) by {
            if i > 0 {
                assert(s.skip(1)[i - 1] == s[i]);
            }
        }
    }
}

/// The words of a text: what stands between white space.
pub open spec fn words_of(s: Seq<char>) -> Seq<Seq<char>>
    decreases s.len(),
    via words_end
{
    let t = trimmed_start(s);
    if t.len() == 0 {
        Seq::empty()
    } else {
        let n = word_len(t);
        seq![t.take(n as int)] + words_of(t.skip(n as int))
    }
}

#[via_fn]
proof fn words_end(s: Seq<char>) {
    lemma_trimmed(s);
    let t = trimmed_start(s);
    if t.len() > 0 {
        lemma_word_len(t);
    }
}

proof fn lemma_trimmed(s: Seq<char>)
    ensures
        trimmed_start(s).len() <= s.len(),
        trimmed_start(s).len() > 0 ==> !is_space(trimmed_start(s)[0]),
    decreases s.len(),
{
    if s.len() > 0 && is_space(s[0]) {
        lemma_trimmed(s.skip(1));
    }
}

/// The number of bytes that a character takes in UTF-8.
pub open spec fn char_width(c: char) -> nat {
    let u = c as u32;
    if u < 0x80 {
        1
    } else if u < 0x800 {
        2
    } else if u < 0x10000 {
        3
    } else {
        4
    }
}

/// The number of bytes that a text takes in UTF-8.
pub open spec fn byte_len(s: Seq<char>) -> nat
    decreases s.len(),
{
    if s.len() == 0 {
        0
    } else {
        byte_len(s.drop_last()) + char_width(s.last())
    }
}

/// The keywords among words: those of more than one byte, in lower case.
pub open spec fn keywords_in(words: Seq<Seq<char>>) -> Seq<Seq<char>>
    decreases words.len(),
{
    if words.len() == 0 {
        Seq::empty()
    } else {
        let earlier = keywords_in(words.drop_last());
        if byte_len(words.last()) > 1 {
            earlier.push(lowercased(words.last()))
        } else {
            earlier
        }
    }
}

/// The keywords of a query.
pub open spec fn keywords_of(query: Seq<char>) -> Seq<Seq<char>> {
    keywords_in(words_of(query))
}

fn width(c: char) -> (n: usize)
    ensures
        n == char_width(c),
{
    let u = c as u32;
    if u < 0x80 {
        1
    } else if u < 0x800 {
        2
    } else if u < 0x10000 {
        3
    } else {
        4
    }
}

/// The words of a text.
pub fn split_whitespace(s: &str) -> (words: Vec<String>)
    ensures
        texts(words@) == words_of(s@),
{
    let chars = to_chars(s);
    let ghost all = chars@;
    let mut words: Vec<String> = Vec::new();
    let mut i: usize = 0;
    assert(all.skip(0) =~= all);
    assert(texts(words@) + words_of(all) =~= words_of(all));
    loop
        invariant
            i <= all.len(),
            all == chars@,
            texts(words@) + words_of(all.skip(i as int)) == words_of(all),
        ensures
            texts(words@) == words_of(all),
        decreases all.len() - i,
    {
        let ghost rest = all.skip(i as int);
        let mut start: usize = i;
        assert(all.skip(start as int) =~= rest);
        while start < chars.len() && is_whitespace(chars[start])
            invariant
                i <= start <= all.len(),
                all == chars@,
                rest == all.skip(i as int),
                trimmed_start(all.skip(start as int)) == trimmed_start(rest),
            decreases all.len() - start,
        {
            assert(all.skip(start as int).skip(1) =~= all.skip(start + 1));
            start += 1;
        }
        let ghost t = all.skip(start as int);
        assert(trimmed_start(rest) == t);
        if start == chars.len() {
            assert(texts(words@) + words_of(rest) =~= texts(words@));
            break;
        }
        let mut end: usize = start;
        while end < chars.len() && !is_whitespace(chars[end])
            invariant
                start <= end <= all.len(),
                all == chars@,
                forall|k: int| start <= k < end ==> !is_space(#[trigger] all[k]),
            decreases all.len() - end,
        {
            end += 1;
        }
        let word = from_chars(&chars, start, end);
        let ghost before = texts(words@);
        proof {
            lemma_word_len(t);
            let n = word_len(t);
            assert(n == end - start) by {
                if n < end - start {
                    assert(is_space(t[n as int]));
                    assert(all[start + n] == t[n as int]);
                } else if n > end - start {
                    assert(!is_space(t[end - start]));
                    assert(t[end - start] == all[end as int]);
                }
            }
            assert(t.take(n as int) =~= word@);
            assert(t.skip(n as int) =~= all.skip(end as int));
        }
        words.push(word);
        assert(texts(words@) =~= before.push(word@));
        assert(before.push(word@) + words_of(all.skip(end as int)) =~= before + (seq![word@]
            + words_of(all.skip(end as int))));
        i = end;
    }
    words
}

fn is_longer_than_one_byte(word: &str) -> (b: bool)
    ensures
        b == (byte_len(word@) > 1),
{
    let chars = to_chars(word);
    proof {
        reveal_with_fuel(byte_len, 3);
        if chars@.len() >= 2 {
            lemma_byte_len_grows(chars@.drop_last());
        } else if chars@.len() == 1 {
            assert(chars@.drop_last() =~= Seq::empty());
        }
    }
    if chars.len() >= 2 {
        true
    } else if chars.len() == 1 {
        width(chars[0]) > 1
    } else {
        false
    }
}

proof fn lemma_byte_len_grows(s: Seq<char>)
    ensures
        byte_len(s) >= s.len(),
    decreases s.len(),
{
    if s.len() > 0 {
        lemma_byte_len_grows(s.drop_last());
    }
}

/// The keywords of a query.
pub fn find_keywords(query: &str) -> (keywords: Vec<String>)
    ensures
        texts(keywords@) == keywords_of(query@),
{
    let words = split_whitespace(query);
    let ghost all = texts(words@);
    let mut keywords: Vec<String> = Vec::new();
    let mut i: usize = 0;
    assert(texts(keywords@) =~= Seq::empty());
    assert(all.take(0) =~= Seq::empty());
    while i < words.len()
        invariant
            i <= words@.len(),
            all == texts(words@),
            texts(keywords@) == keywords_in(all.take(i as int)),
        decreases words@.len() - i,
    {
        assert(all.take(i + 1).drop_last() =~= all.take(i as int));
        if is_longer_than_one_byte(words[i].as_str()) {
            let ghost before = texts(keywords@);
            let lower = to_lowercase(words[i].as_str());
            keywords.push(lower);
            assert(texts(keywords@) =~= before.push(lower@));
        }
        i += 1;
    }
    assert(all.take(i as int) =~= all);
    keywords
}

/// Whether one of the keywords occurs in a text.
pub open spec fn mentions(s: Seq<char>, keywords: Seq<Seq<char>>) -> bool {
    exists|i: int| 0 <= i < keywords.len() && has_part(s, #[trigger] keywords[i])
}

/// Whether a directory is left out of the search.
pub open spec fn is_skipped_directory(name: Seq<char>) -> bool {
    (name.len() > 0 && name[0] == '.') || name == "node_modules"@ || name == "target"@
}

/// Whether a directory is left out of the search.
pub fn skips_directory(name: &str) -> (b: bool)
    ensures
        b == is_skipped_directory(name@),
{
    proof {
        reveal_strlit(".");
        if name@.len() > 0 {
            assert(name@.take(1)[0] == name@[0]);
            if name@[0] == '.' {
                assert(name@.take(1) =~= "."@);
            }
        }
        assert("."@[0] == '.');
    }
    starts_with(name, ".") || same_text(name, "node_modules") || same_text(name, "target")
}

/// Whether a file of the given size is searched.
pub fn is_searchable_size(bytes: u64) -> (b: bool)
    ensures
        b == (bytes <= 1_000_000),
{
    bytes <= 1_000_000
}

/// The last place at or before a byte position at which a character begins.
pub open spec fn floor_place(s: Seq<char>, pos: int) -> nat
    decreases s.len(),
{
    if s.len() == 0 || byte_len(s) <= pos {
        s.len()
    } else {
        floor_place(s.drop_last(), pos)
    }
}

/// The first place at or after a byte position at which a character begins.
pub open spec fn ceil_place(s: Seq<char>, pos: int) -> nat
    decreases s.len(),
{
    if s.len() == 0 || byte_len(s.drop_last()) < pos {
        s.len()
    } else {
        ceil_place(s.drop_last(), pos)
    }
}

/// A text on one line.
pub open spec fn on_one_line(s: Seq<char>) -> Seq<char> {
    Seq::new(
        s.len(),
        |i: int|
            if s[i] == '\n' {
                ' '
            } else {
                s[i]
            },
    )
}

/// The surroundings of a keyword: up to 80 bytes on either side of the place where it
/// stands in the lower-case text, on one line.
pub open spec fn surroundings(content: Seq<char>, at: nat, keyword_bytes: nat) -> Seq<char> {
    let start = if at < 80 {
        0int
    } else {
        at - 80
    };
    let wanted = at + keyword_bytes + 80;
    let end = if wanted < byte_len(content) {
        wanted as int
    } else {
        byte_len(content) as int
    };
    let from = floor_place(content, start);
    let to = ceil_place(content, end);
    "..."@ + on_one_line(content.subrange(from as int, to as int)) + "..."@
}

/// Where `part` stands in `s` for the first time.
pub open spec fn first_place(s: Seq<char>, part: Seq<char>, from: nat) -> Option<nat>
    decreases s.len() + 1 - from,
{
    if from > s.len() {
        None
    } else if occurs_at(s, part, from as int) {
        Some(from)
    } else {
        first_place(s, part, from + 1)
    }
}

/// The snippet for the first of the keywords that occurs in a file's text.
pub open spec fn snippet_for(
    content: Seq<char>,
    lower: Seq<char>,
    keywords: Seq<Seq<char>>,
) -> Option<Seq<char>>
    decreases keywords.len(),
{
    if keywords.len() == 0 {
        None
    } else {
        match first_place(lower, keywords[0], 0) {
            Some(at) => Some(
                surroundings(content, byte_len(lower.take(at as int)), byte_len(keywords[0])),
            ),
            None => snippet_for(content, lower, keywords.skip(1)),
        }
    }
}

proof fn lemma_first_place(s: Seq<char>, part: Seq<char>, from: nat)
    ensures
        match first_place(s, part, from) {
            Some(i) => from <= i <= s.len() && occurs_at(s, part, i as int) && forall|j: int|
                from <= j < i ==> !#[trigger] occurs_at(s, part, j),
            None => forall|j: int| from <= j ==> !#[trigger] occurs_at(s, part, j),
        },
    decreases s.len() + 1 - from,
{
    if from <= s.len() && !occurs_at(s, part, from as int) {
        lemma_first_place(s, part, from + 1);
        assert forall|j: int|
            from <= j && (first_place(s, part, from) matches Some(i) ==> j < i) implies
            !#[trigger] occurs_at(s, part, j) by {
            if j > from {
                assert(from + 1 <= j);
            }
        }
    }
}

proof fn lemma_places_within(s: Seq<char>, low: int, high: int)
    ensures
        floor_place(s, low) <= s.len(),
        ceil_place(s, high) <= s.len(),
    decreases s.len(),
{
    if s.len() > 0 {
        lemma_places_within(s.drop_last(), low, high);
    }
}

/// The last character that begins at or before `low` comes no later than the first one
/// that begins at or after `high`.
proof fn lemma_places_ordered(s: Seq<char>, low: int, high: int)
    requires
        0 <= low <= high,
    ensures
        floor_place(s, low) <= ceil_place(s, high),
    decreases s.len(),
{
    if s.len() > 0 {
        let init = s.drop_last();
        assert(byte_len(s) > byte_len(init));
        lemma_places_ordered(init, low, high);
        lemma_places_within(init, low, high);
    }
}

/// The number of bytes of the first `n` characters.
fn bytes_before(chars: &Vec<char>, n: usize) -> (bytes: u128)
    requires
        n <= chars@.len(),
    ensures
        bytes == byte_len(chars@.take(n as int)),
        bytes <= 4 * n,
{
    let mut bytes: u128 = 0;
    let mut i: usize = 0;
    assert(chars@.take(0) =~= Seq::empty());
    while i < n
        invariant
            i <= n <= chars@.len(),
            bytes == byte_len(chars@.take(i as int)),
            bytes <= 4 * i,
        decreases n - i,
    {
        assert(chars@.take(i + 1).drop_last() =~= chars@.take(i as int));
        bytes = bytes + width(chars[i]) as u128;
        i += 1;
    }
    bytes
}

fn find_floor(chars: &Vec<char>, pos: u128) -> (place: usize)
    ensures
        place == floor_place(chars@, pos as int),
        place <= chars@.len(),
{
    let mut n: usize = chars.len();
    let mut bytes: u128 = bytes_before(chars, n);
    assert(chars@.take(n as int) =~= chars@);
    while n > 0 && bytes > pos
        invariant
            n <= chars@.len(),
            bytes == byte_len(chars@.take(n as int)),
            floor_place(chars@.take(n as int), pos as int) == floor_place(chars@, pos as int),
        decreases n,
    {
        assert(chars@.take(n as int).drop_last() =~= chars@.take(n - 1));
        bytes = bytes - width(chars[n - 1]) as u128;
        n -= 1;
    }
    assert(chars@.take(n as int).len() == n);
    n
}

fn find_ceil(chars: &Vec<char>, pos: u128) -> (place: usize)
    ensures
        place == ceil_place(chars@, pos as int),
        place <= chars@.len(),
{
    let mut n: usize = chars.len();
    let mut bytes: u128 = bytes_before(chars, n);
    assert(chars@.take(n as int) =~= chars@);
    while n > 0 && bytes - width(chars[n - 1]) as u128 >= pos
        invariant
            n <= chars@.len(),
            bytes == byte_len(chars@.take(n as int)),
            ceil_place(chars@.take(n as int), pos as int) == ceil_place(chars@, pos as int),
            n > 0 ==> bytes >= char_width(chars@[n - 1]),
        decreases n,
    {
        assert(chars@.take(n as int).drop_last() =~= chars@.take(n - 1));
        bytes = bytes - width(chars[n - 1]) as u128;
        n -= 1;
        proof {
            if n > 0 {
                assert(chars@.take(n as int).drop_last() =~= chars@.take(n - 1));
                assert(chars@.take(n as int).last() == chars@[n - 1]);
            }
        }
    }
    proof {
        if n > 0 {
            assert(chars@.take(n as int).drop_last() =~= chars@.take(n - 1));
        }
        assert(chars@.take(n as int).len() == n);
    }
    n
}

fn flatten(chars: &Vec<char>, from: usize, to: usize) -> (s: String)
    requires
        from <= to <= chars@.len(),
    ensures
        s@ == on_one_line(chars@.subrange(from as int, to as int)),
{
    let mut s = String::new();
    let mut i: usize = from;
    while i < to
        invariant
            from <= i <= to <= chars@.len(),
            s@ == on_one_line(chars@.subrange(from as int, i as int)),
        decreases to - i,
    {
        let c = if chars[i] == '\n' {
            ' '
        } else {
            chars[i]
        };
        s.push(c);
        i += 1;
        assert(s@ =~= on_one_line(chars@.subrange(from as int, i as int)));
    }
    s
}

fn build_surroundings(content: &Vec<char>, at: u128, keyword_bytes: u128) -> (s: String)
    requires
        at <= 4 * usize::MAX,
        keyword_bytes <= 4 * usize::MAX,
    ensures
        s@ == surroundings(content@, at as nat, keyword_bytes as nat),
{
    let start: u128 = if at < 80 {
        0
    } else {
        at - 80
    };
    let total = bytes_before(content, content.len());
    assert(content@.take(content@.len() as int) =~= content@);
    let wanted: u128 = at + keyword_bytes + 80;
    let end: u128 = if wanted < total {
        wanted
    } else {
        total
    };
    let from = find_floor(content, start);
    let to = find_ceil(content, end);
    proof {
        if start <= end {
            lemma_places_ordered(content@, start as int, end as int);
        } else {
            assert(end == total);
        }
    }
    concat3("...", flatten(content, from, to).as_str(), "...")
}

/// The snippet for the first of the keywords that occurs in a file's text, given the
/// lower-case form of that text.
pub fn snippet_in(content: &str, lower: &str, keywords: &Vec<String>) -> (snippet: Option<String>)
    ensures
        snippet.deep_view() == snippet_for(content@, lower@, texts(keywords@)),
{
    let chars = to_chars(content);
    let low = to_chars(lower);
    let ghost all = texts(keywords@);
    let mut i: usize = 0;
    assert(all.skip(0) =~= all);
    while i < keywords.len()
        invariant
            i <= keywords@.len(),
            all == texts(keywords@),
            chars@ == content@,
            low@ == lower@,
            snippet_for(content@, lower@, all.skip(i as int)) == snippet_for(
                content@,
                lower@,
                all,
            ),
        decreases keywords@.len() - i,
    {
        let keyword = to_chars(keywords[i].as_str());
        proof {
            assert(all.skip(i as int)[0] == keyword@);
            assert(all.skip(i as int).skip(1) =~= all.skip(i + 1));
            lemma_first_place(low@, keyword@, 0);
        }
        match find_from(&low, &keyword, 0) {
            Some(at) => {
                proof {
                    match first_place(low@, keyword@, 0) {
                        Some(k) => {
                            if k < at {
                                assert(occurs_at(low@, keyword@, k as int));
                            } else if at < k {
                                assert(occurs_at(low@, keyword@, at as int));
                            }
                        },
                        None => {
                            assert(occurs_at(low@, keyword@, at as int));
                        },
                    }
                }
                let position = bytes_before(&low, at);
                let length = bytes_before(&keyword, keyword.len());
                assert(keyword@.take(keyword@.len() as int) =~= keyword@);
                return Some(build_surroundings(&chars, position, length));
            },
            None => {
                proof {
                    if let Some(k) = first_place(low@, keyword@, 0) {
                        assert(occurs_at(low@, keyword@, k as int));
                    }
                }
            },
        }
        i += 1;
    }
    None
}

/// The snippet for the first of the keywords that occurs in a file's text.
pub fn match_content(content: &str, keywords: &Vec<String>) -> (snippet: Option<String>)
    ensures
        snippet.deep_view() == snippet_for(content@, lowercased(content@), texts(keywords@)),
{
    let lower = to_lowercase(content);
    snippet_in(content, lower.as_str(), keywords)
}

/// Whether one of the keywords occurs in a text.
fn mentions_any(s: &str, keywords: &Vec<String>) -> (b: bool)
    ensures
        b == mentions(s@, texts(keywords@)),
{
    let ghost all = texts(keywords@);
    let mut i: usize = 0;
    while i < keywords.len()
        invariant
            i <= keywords@.len(),
            all == texts(keywords@),
            forall|k: int| 0 <= k < i ==> !has_part(s@, #[trigger] all[k]),
        decreases keywords@.len() - i,
    {
        assert(all[i as int] == keywords@[i as int]@);
        if contains(s, keywords[i].as_str()) {
            return true;
        }
        i += 1;
    }
    false
}

/// A file that was found.
pub open spec fn file_match(path: Seq<char>, snippet: Seq<char>) -> Json {
    Json::Object(map!["path"@ => Json::Text(path), "snippet"@ => Json::Text(snippet)])
}

/// Whether the name or the path of a file mentions a keyword.
pub open spec fn name_matches(
    file_name: Seq<char>,
    path: Seq<char>,
    keywords: Seq<Seq<char>>,
) -> bool {
    mentions(lowercased(file_name), keywords) || mentions(lowercased(path), keywords)
}

/// A search of files under way.
#[derive(Debug)]
pub struct FileSearch {
    keywords: Vec<String>,
    limit: usize,
    matches: Vec<(String, String)>,
}

/// What files that were found stand for: their paths and snippets.
pub open spec fn found_files(matches: Seq<(String, String)>) -> Seq<(Seq<char>, Seq<char>)> {
    Seq::new(matches.len(), |i: int| (matches[i].0@, matches[i].1@))
}

/// How a file is told: its number, its path and its snippet.
pub open spec fn file_text(number: nat, file: (Seq<char>, Seq<char>)) -> Seq<char> {
    decimal(number) + ". "@ + file.0 + "\n   "@ + file.1
}

/// What a file search adds.
pub open spec fn file_section(
    query: Seq<char>,
    files: Seq<(Seq<char>, Seq<char>)>,
    id: Seq<char>,
) -> Section {
    let base = map![
        "id"@ => Json::Text(id),
        "type"@ => Json::Text("file_search_call"@),
        "status"@ => Json::Text("completed"@),
        "query"@ => Json::Text(query),
    ];
    if files.len() == 0 {
        Section {
            message: Some(
                system_message("File search for `"@ + query + "`:\nNo matching files found."@),
            ),
            output_item: Some(Json::Object(base)),
        }
    } else {
        Section {
            message: Some(
                system_message(
                    "File search results for `"@ + query + "`:\n"@ + joined(
                        Seq::new(
                            files.len(),
                            |i: int| file_text((i + 1) as nat, files[i]),
                        ),
                        "\n\n"@,
                    ),
                ),
            ),
            output_item: Some(
                Json::Object(
                    base.insert(
                        "results"@,
                        Json::Array(
                            Seq::new(
                                files.len(),
                                |i: int| file_match(files[i].0, files[i].1),
                            ),
                        ),
                    ),
                ),
            ),
        }
    }
}

/// The first files, as many as allowed.
pub open spec fn first_files(files: Seq<(Seq<char>, Seq<char>)>, limit: nat) -> Seq<
    (Seq<char>, Seq<char>),
> {
    if files.len() <= limit {
        files
    } else {
        files.take(limit as int)
    }
}

impl FileSearch {
    /// The keywords that are searched for.
    pub closed spec fn wanted(self) -> Seq<Seq<char>> {
        texts(self.keywords@)
    }

    /// How many files are wanted.
    pub closed spec fn spec_limit(self) -> usize {
        self.limit
    }

    /// The files that were found.
    pub closed spec fn found(self) -> Seq<(Seq<char>, Seq<char>)> {
        found_files(self.matches@)
    }

    /// Begins a search; a query without keywords has none.
    pub fn start(query: &str, max_results: usize) -> (search: Option<FileSearch>)
        ensures
            search is None <==> keywords_of(query@).len() == 0,
            search matches Some(s) ==> s.wanted() == keywords_of(query@) && s.spec_limit()
                == max_results && s.found().len() == 0,
    {
        let keywords = find_keywords(query);
        assert(texts(keywords@).len() == keywords@.len());
        if keywords.len() == 0 {
            return None;
        }
        Some(FileSearch { keywords, limit: max_results, matches: Vec::new() })
    }

    /// Whether enough files were found.
    pub fn is_full(&self) -> (b: bool)
        ensures
            b == (self.found().len() >= self.spec_limit()),
    {
        self.matches.len() >= self.limit
    }

    /// Looks at the name of a file. Where it matches, the file is found, and its text
    /// need not be looked at.
    pub fn visit_name(&mut self, file_name: &str, path: &str) -> (matched: bool)
        ensures
            matched == name_matches(file_name@, path@, old(self).wanted()),
            final(self).found() == (if matched {
                old(self).found().push((path@, Seq::<char>::empty()))
            } else {
                old(self).found()
            }),
            final(self).wanted() == old(self).wanted(),
            final(self).spec_limit() == old(self).spec_limit(),
    {
        let name = to_lowercase(file_name);
        let whole = to_lowercase(path);
        let matched = mentions_any(name.as_str(), &self.keywords) || mentions_any(
            whole.as_str(),
            &self.keywords,
        );
        if matched {
            self.matches.push((path.to_owned(), String::new()));
            assert(self.found() =~= old(self).found().push((path@, Seq::<char>::empty())));
        }
        matched
    }

    /// Looks at the text of a file.
    pub fn visit_content(&mut self, path: &str, content: &str)
        ensures
            final(self).found() == (match snippet_for(
                content@,
                lowercased(content@),
                old(self).wanted(),
            ) {
                Some(snippet) => old(self).found().push((path@, snippet)),
                None => old(self).found(),
            }),
            final(self).wanted() == old(self).wanted(),
            final(self).spec_limit() == old(self).spec_limit(),
    {
        if let Some(snippet) = match_content(content, &self.keywords) {
            self.matches.push((path.to_owned(), snippet));
            assert(self.found() =~= old(self).found().push((path@, snippet@)));
        }
    }

    /// What the search adds, with the identifier `id` for its output item.
    pub fn conclude(&self, query: &str, id: &str) -> (section: HostedToolSection)
        ensures
            section@ == file_section(
                query@,
                first_files(self.found(), self.spec_limit() as nat),
                id@,
            ),
    {
        let ghost files = first_files(self.found(), self.spec_limit() as nat);
        let n: usize = if self.matches.len() <= self.limit {
            self.matches.len()
        } else {
            self.limit
        };
        let mut item = object().with("id", JsonValue::text(id)).with(
            "type",
            JsonValue::text("file_search_call"),
        ).with("status", JsonValue::text("completed")).with("query", JsonValue::text(query));
        if n == 0 {
            let content = concat3(
                "File search for `",
                query,
                "`:\nNo matching files found.",
            );
            return HostedToolSection {
                message: Some(system_value(content)),
                output_item: Some(JsonValue::Object(item)),
            };
        }
        let mut told: Vec<String> = Vec::new();
        let mut values: Vec<JsonValue> = Vec::new();
        let mut i: usize = 0;
        while i < n
            invariant
                i <= n == files.len(),
                n <= self.matches@.len(),
                files == first_files(self.found(), self.spec_limit() as nat),
                told@.len() == i,
                values@.len() == i,
                forall|k: int|
                    0 <= k < i ==> (#[trigger] told@[k])@ == file_text((k + 1) as nat, files[k]),
                forall|k: int|
                    0 <= k < i ==> (#[trigger] values@[k])@ == file_match(files[k].0, files[k].1),
            decreases n - i,
        {
            let (path, snippet) = (&self.matches[i].0, &self.matches[i].1);
            assert(files[i as int] == (path@, snippet@));
            let mut line = concat(decimal_text((i + 1) as u64).as_str(), ". ");
            line.append(path.as_str());
            line.append("\n   ");
            line.append(snippet.as_str());
            told.push(line);
            values.push(
                JsonValue::Object(
                    object().with("path", JsonValue::Text(path.clone())).with(
                        "snippet",
                        JsonValue::Text(snippet.clone()),
                    ),
                ),
            );
            i += 1;
        }
        assert(texts(told@) =~= Seq::new(
            files.len(),
            |k: int| file_text((k + 1) as nat, files[k]),
        ));
        assert(array_of(values@) =~= Seq::new(
            files.len(),
            |k: int| file_match(files[k].0, files[k].1),
        ));
        item.set("results", JsonValue::Array(values));
        let content = concat(
            concat3("File search results for `", query, "`:\n").as_str(),
            join(&told, "\n\n").as_str(),
        );
        HostedToolSection {
            message: Some(system_value(content)),
            output_item: Some(JsonValue::Object(item)),
        }
    }
}

proof fn lemma_words_step(s: Seq<char>)
    ensures
        s.len() == 0 ==> words_of(s).len() == 0,
        s.len() > 0 && is_space(s[0]) ==> words_of(s) == words_of(s.skip(1)),
        s.len() > 0 && !is_space(s[0]) ==> words_of(s) == seq![s.take(word_len(s) as int)]
            + words_of(s.skip(word_len(s) as int)),
{
}

proof fn lemma_word_ends(a: Seq<char>, c: char, b: Seq<char>)
    requires
        is_space(c),
    ensures
        word_len(a + seq![c] + b) == word_len(a),
    decreases a.len(),
{
    let s = a + seq![c] + b;
    if a.len() > 0 {
        assert(s[0] == a[0]);
        assert(s.skip(1) =~= a.skip(1) + seq![c] + b);
        lemma_word_ends(a.skip(1), c, b);
    } else {
        assert(s[0] == c);
    }
}

/// The words of a text are what stands between blanks: a text without blanks is a word of
/// its own, and a blank parts the words before it from those behind it.
pub proof fn law_blanks_part_words(a: Seq<char>, c: char, b: Seq<char>, word: Seq<char>)
    requires
        is_space(c),
    ensures
        words_of(Seq::empty()).len() == 0,
        word.len() > 0 && (forall|i: int| 0 <= i < word.len() ==> !is_space(#[trigger] word[i]))
            ==> words_of(word) == seq![word],
        words_of(a + seq![c] + b) == words_of(a) + words_of(b),
    decreases a.len(),
{
    lemma_words_step(Seq::empty());
    if word.len() > 0 && (forall|i: int| 0 <= i < word.len() ==> !is_space(#[trigger] word[i])) {
        lemma_words_step(word);
        lemma_word_len(word);
        assert(!is_space(word[0]));
        if word_len(word) < word.len() {
            assert(!is_space(word[word_len(word) as int]));
        }
        assert(word.take(word.len() as int) =~= word);
        assert(word.skip(word.len() as int) =~= Seq::empty());
        assert(words_of(word) =~= seq![word]);
    }
    let s = a + seq![c] + b;
    lemma_words_step(s);
    lemma_words_step(a);
    if a.len() == 0 {
        assert(s[0] == c);
        assert(s.skip(1) =~= b);
        assert(words_of(a) + words_of(b) =~= words_of(b));
    } else if is_space(a[0]) {
        assert(s[0] == a[0]);
        assert(s.skip(1) =~= a.skip(1) + seq![c] + b);
        law_blanks_part_words(a.skip(1), c, b, Seq::empty());
    } else {
        assert(s[0] == a[0]);
        lemma_word_ends(a, c, b);
        lemma_word_len(a);
        let n = word_len(a) as int;
        assert(s.take(n) =~= a.take(n));
        assert(s.skip(n) =~= a.skip(n) + seq![c] + b);
        law_blanks_part_words(a.skip(n), c, b, Seq::empty());
        assert(words_of(s) =~= words_of(a) + words_of(b));
    }
}

/// The keywords of a query are its words of more than one byte, in lower case.
pub proof fn law_longer_words_are_keywords(words: Seq<Seq<char>>, i: int)
    ensures
        0 <= i < words.len() && byte_len(words[i]) > 1 ==> keywords_in(words).contains(
            lowercased(words[i]),
        ),
        (forall|k: int| 0 <= k < words.len() ==> byte_len(#[trigger] words[k]) > 1) ==> keywords_in(
            words,
        ) == Seq::new(words.len(), |k: int| lowercased(words[k])),
        (forall|k: int| 0 <= k < words.len() ==> byte_len(#[trigger] words[k]) <= 1)
            ==> keywords_in(words).len() == 0,
    decreases words.len(),
{
    if words.len() > 0 {
        let n = words.len() - 1;
        let front = words.drop_last();
        law_longer_words_are_keywords(front, i);
        assert(words.last() == words[n]);
        assert(forall|k: int| 0 <= k < n ==> front[k] == words[k]);
        let earlier = keywords_in(front);
        let all = keywords_in(words);
        if 0 <= i < n && byte_len(words[i]) > 1 {
            let x = choose|x: int| 0 <= x < earlier.len() && earlier[x] == lowercased(words[i]);
            assert(all[x] == lowercased(words[i]));
        }
        if i == n && byte_len(words[i]) > 1 {
            assert(all[all.len() - 1] == lowercased(words[i]));
        }
        if forall|k: int| 0 <= k < words.len() ==> byte_len(#[trigger] words[k]) > 1 {
            assert(byte_len(words[n]) > 1);
            assert forall|k: int| 0 <= k < front.len() implies byte_len(#[trigger] front[k])
                > 1 by {
                assert(byte_len(words[k]) > 1);
            }
            assert(all =~= Seq::new(words.len(), |k: int| lowercased(words[k])));
        }
        if forall|k: int| 0 <= k < words.len() ==> byte_len(#[trigger] words[k]) <= 1 {
            assert(byte_len(words[n]) <= 1);
            assert forall|k: int| 0 <= k < front.len() implies byte_len(#[trigger] front[k])
                <= 1 by {
                assert(byte_len(words[k]) <= 1);
            }
        }
    } else {
        assert(keywords_in(words) =~= Seq::new(words.len(), |k: int| lowercased(words[k])));
    }
}

/// A file gives a snippet if and only if its text mentions a keyword.
pub proof fn law_mentions_give_snippets(
    content: Seq<char>,
    lower: Seq<char>,
    keywords: Seq<Seq<char>>,
)
    ensures
        snippet_for(content, lower, keywords) is Some <==> exists|i: int|
            0 <= i < keywords.len() && has_part(lower, #[trigger] keywords[i]),
    decreases keywords.len(),
{
    if keywords.len() > 0 {
        lemma_first_place(lower, keywords[0], 0);
        let rest = keywords.skip(1);
        law_mentions_give_snippets(content, lower, rest);
        if first_place(lower, keywords[0], 0) is Some {
            assert(has_part(lower, keywords[0]));
        } else {
            assert(!has_part(lower, keywords[0]));
            if exists|i: int| 0 <= i < keywords.len() && has_part(lower, #[trigger] keywords[i]) {
                let i = choose|i: int|
                    0 <= i < keywords.len() && has_part(lower, #[trigger] keywords[i]);
                assert(rest[i - 1] == keywords[i]);
            }
            if exists|i: int| 0 <= i < rest.len() && has_part(lower, #[trigger] rest[i]) {
                let i = choose|i: int| 0 <= i < rest.len() && has_part(lower, #[trigger] rest[i]);
                assert(keywords[i + 1] == rest[i]);
            }
        }
    }
}

proof fn lemma_ascii_places(s: Seq<char>, pos: int)
    requires
        is_ascii_text(s),
    ensures
        byte_len(s) == s.len(),
        0 <= pos ==> floor_place(s, pos) == (if pos < s.len() {
            pos
        } else {
            s.len() as int
        }),
        0 <= pos <= s.len() ==> ceil_place(s, pos) == pos,
    decreases s.len(),
{
    if s.len() > 0 {
        let front = s.drop_last();
        assert forall|i: int| 0 <= i < front.len() implies (#[trigger] front[i] as u32) < 128 by {
            assert(front[i] == s[i]);
        }
        assert((s[s.len() - 1] as u32) < 128);
        lemma_ascii_places(front, pos);
    }
}

/// In a text of ASCII characters, the snippet for a keyword is the first place where it
/// stands, with up to 80 characters before and behind it, on one line.
pub proof fn law_snippets_surround_the_keyword(
    content: Seq<char>,
    lower: Seq<char>,
    keyword: Seq<char>,
    at: int,
)
    requires
        is_ascii_text(content),
        is_ascii_text(lower),
        is_ascii_text(keyword),
        content.len() == lower.len(),
        occurs_at(lower, keyword, at),
        forall|k: int| 0 <= k < at ==> !#[trigger] occurs_at(lower, keyword, k),
    ensures
        ({
            let from = if at < 80 {
                0
            } else {
                at - 80
            };
            let to = if at + keyword.len() + 80 < content.len() {
                at + keyword.len() + 80
            } else {
                content.len() as int
            };
            &&& snippet_for(content, lower, seq![keyword]) matches Some(snippet)
            &&& snippet.len() == to - from + 6
            &&& forall|k: int|
                from <= k < to ==> #[trigger] snippet[k - from + 3] == (if content[k] == '\n' {
                    ' '
                } else {
                    content[k]
                })
        }),
{
    reveal_strlit("...");
    lemma_reached_first(lower, keyword, 0, at);
    assert(seq![keyword][0] == keyword);
    let head = lower.take(at);
    assert forall|i: int| 0 <= i < head.len() implies (#[trigger] head[i] as u32) < 128 by {
        assert(head[i] == lower[i]);
    }
    lemma_ascii_places(head, 0);
    lemma_ascii_places(keyword, 0);
    let from = if at < 80 {
        0
    } else {
        at - 80
    };
    let to = if at + keyword.len() + 80 < content.len() {
        at + keyword.len() + 80
    } else {
        content.len() as int
    };
    lemma_ascii_places(content, from);
    lemma_ascii_places(content, to);
    assert(floor_place(content, from) == from);
    assert(ceil_place(content, to) == to);
    let snippet = snippet_for(content, lower, seq![keyword])->0;
    assert(snippet == surroundings(content, at as nat, keyword.len()));
    assert(snippet == "..."@ + on_one_line(content.subrange(from, to)) + "..."@);
}

proof fn lemma_reached_first(s: Seq<char>, part: Seq<char>, from: int, at: int)
    requires
        0 <= from <= at,
        occurs_at(s, part, at),
        forall|k: int| from <= k < at ==> !#[trigger] occurs_at(s, part, k),
    ensures
        first_place(s, part, from as nat) == Some(at as nat),
    decreases at - from,
{
    if from < at {
        assert(!occurs_at(s, part, from));
        lemma_reached_first(s, part, from + 1, at);
    }
}

/// The files that were found go upstream in a message of the system, each with its path
/// and its snippet, and stand in the output item.
pub proof fn law_found_files_are_told(
    query: Seq<char>,
    files: Seq<(Seq<char>, Seq<char>)>,
    id: Seq<char>,
    i: int,
)
    ensures
        ({
            let section = file_section(query, files, id);
            &&& section.message matches Some(message)
            &&& section.output_item matches Some(item)
            &&& message.get("role"@) == Some(Json::Text("system"@))
            &&& message.get("content"@) matches Some(Json::Text(content))
            &&& has_part(content, query)
            &&& 0 <= i < files.len() ==> has_part(content, files[i].0) && has_part(
                content,
                files[i].1,
            )
            &&& item.get("id"@) == Some(Json::Text(id))
            &&& item.get("type"@) == Some(Json::Text("file_search_call"@))
            &&& item.get("status"@) == Some(Json::Text("completed"@))
            &&& item.get("query"@) == Some(Json::Text(query))
            &&& files.len() == 0 ==> item.get("results"@) is None
            &&& 0 <= i < files.len() ==> {
                &&& item.get("results"@) matches Some(Json::Array(results))
                &&& results.len() == files.len()
                &&& results[i].get("path"@) == Some(Json::Text(files[i].0))
                &&& results[i].get("snippet"@) == Some(Json::Text(files[i].1))
            }
        }),
{
    reveal_strlit("role");
    reveal_strlit("content");
    reveal_strlit("id");
    reveal_strlit("type");
    reveal_strlit("status");
    reveal_strlit("query");
    reveal_strlit("results");
    reveal_strlit("path");
    reveal_strlit("snippet");
    assert("role"@.len() == 4);
    assert("content"@.len() == 7);
    assert("id"@.len() == 2);
    assert("type"@.len() == 4);
    assert("status"@.len() == 6);
    assert("query"@.len() == 5);
    assert("results"@.len() == 7);
    assert("path"@.len() == 4);
    assert("snippet"@.len() == 7);
    assert("role"@[0] == 'r');
    assert("type"@[0] == 't');
    assert("path"@[0] == 'p');
    assert("content"@[0] == 'c');
    assert("results"@[0] == 'r');
    assert("snippet"@[0] == 's');
    if files.len() == 0 {
        let a = "File search for `"@;
        let b = "`:\nNo matching files found."@;
        law_parts_have_surroundings(a, query, b, Seq::empty());
    } else {
        let told = Seq::new(files.len(), |k: int| file_text((k + 1) as nat, files[k]));
        let a = "File search results for `"@;
        let rest = joined(told, "\n\n"@);
        law_parts_have_surroundings(a, query, "`:\n"@ + rest, Seq::empty());
        assert(a + query + ("`:\n"@ + rest) =~= a + query + "`:\n"@ + rest);
        if 0 <= i < files.len() {
            let file = files[i];
            let number = decimal((i + 1) as nat) + ". "@;
            let text = file_text((i + 1) as nat, file);
            assert(told[i] == text);
            law_parts_have_surroundings(number, file.0, "\n   "@ + file.1, text);
            assert(number + file.0 + ("\n   "@ + file.1) =~= text);
            law_parts_have_surroundings(number + file.0 + "\n   "@, file.1, Seq::empty(), text);
            assert(number + file.0 + "\n   "@ + file.1 + Seq::empty() =~= text);
            law_told_texts_are_found(a + query + "`:\n"@, told, "\n\n"@, i, file.0);
            law_told_texts_are_found(a + query + "`:\n"@, told, "\n\n"@, i, file.1);
        }
    }
}

/// The first files are told, as many as are wanted.
pub proof fn law_no_more_files_than_wanted(files: Seq<(Seq<char>, Seq<char>)>, limit: nat, i: int)
    ensures
        files.len() <= limit ==> first_files(files, limit) == files,
        files.len() > limit ==> first_files(files, limit).len() == limit,
        0 <= i < first_files(files, limit).len() ==> first_files(files, limit)[i] == files[i],
{
}

/// A file is found by its name or by its path, in either of which a keyword occurs.
pub proof fn law_files_are_found_by_name(
    file_name: Seq<char>,
    path: Seq<char>,
    keywords: Seq<Seq<char>>,
    i: int,
)
    ensures
        0 <= i < keywords.len() && (has_part(lowercased(file_name), keywords[i]) || has_part(
            lowercased(path),
            keywords[i],
        )) ==> name_matches(file_name, path, keywords),
        (forall|k: int|
            0 <= k < keywords.len() ==> !has_part(lowercased(file_name), #[trigger] keywords[k])
                && !has_part(lowercased(path), keywords[k])) ==> !name_matches(
            file_name,
            path,
            keywords,
        ),
{
}

/// Hidden directories are left out of the search, and so are those that hold packages and
/// those that hold what was built.
pub proof fn law_some_directories_are_left_out(name: Seq<char>)
    ensures
        name.len() > 0 && name[0] == '.' ==> is_skipped_directory(name),
        is_skipped_directory("node_modules"@),
        is_skipped_directory("target"@),
        (name.len() == 0 || name[0] != '.') && name != "node_modules"@ && name != "target"@
            ==> !is_skipped_directory(name),
{
}

} // verus!

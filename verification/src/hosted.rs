//! Tools that the proxy itself offers to the model: searching the web and files.

use crate::conversation::push_value;
use crate::error::{is_status, status_text, Failure, ProxyError};
use crate::json::{array_of, object, object_of, Json, JsonValue, Object};
use crate::normalize::member_text;
use crate::text::{
    concat, concat3, decimal, decimal_text, has_part, join, joined, law_parts_have_surroundings,
    law_told_texts_are_found, same_text, texts,
};
use vstd::prelude::*;
use vstd::string::*;

verus! {

/// Whether a tool is one that the proxy itself may offer.
pub open spec fn is_hosted_type(kind: Seq<char>) -> bool {
    kind == "web_search"@ || kind == "web_search_preview"@ || kind == "file_search"@ || kind
        == "computer_use"@ || kind == "computer_use_preview"@
}

/// The kinds of hosted tools in a list of tools, those in namespaces among them.
pub open spec fn hosted_types(tools: Json) -> Seq<Seq<char>>
    decreases tools,
{
    match tools {
        Json::Array(list) => hosted_in(list),
        _ => Seq::empty(),
    }
}

/// The kinds of hosted tools in a list.
pub open spec fn hosted_in(list: Seq<Json>) -> Seq<Seq<char>>
    decreases list,
{
    if list.len() == 0 {
        Seq::empty()
    } else {
        hosted_in(list.drop_last()) + hosted_of(list.last())
    }
}

/// The kinds of hosted tools that one entry stands for.
pub open spec fn hosted_of(tool: Json) -> Seq<Seq<char>>
    decreases tool,
{
    match tool {
        Json::Object(m) => {
            let kind = match member_text(m.get("type"@)) {
                Some(k) => k,
                None => "function"@,
            };
            let own = if is_hosted_type(kind) {
                seq![kind]
            } else {
                Seq::empty()
            };
            if kind == "namespace"@ {
                if m.contains_key("tools"@) {
                    own + hosted_types(m["tools"@])
                } else if m.contains_key("items"@) {
                    own + hosted_types(m["items"@])
                } else {
                    own
                }
            } else {
                own
            }
        },
        _ => Seq::empty(),
    }
}

fn append_texts(list: &mut Vec<String>, more: Vec<String>)
    ensures
        texts(final(list)@) == texts(old(list)@) + texts(more@),
{
    let mut rest = more;
    list.append(&mut rest);
    assert(texts(list@) =~= texts(old(list)@) + texts(more@));
}

fn hosted_kind(kind: &str) -> (b: bool)
    ensures
        b == is_hosted_type(kind@),
{
    same_text(kind, "web_search") || same_text(kind, "web_search_preview") || same_text(
        kind,
        "file_search",
    ) || same_text(kind, "computer_use") || same_text(kind, "computer_use_preview")
}

fn collect_from_tool(tool: &JsonValue) -> (found: Vec<String>)
    ensures
        texts(found@) == hosted_of(tool@),
    decreases tool@, 1nat,
{
    let mut found: Vec<String> = Vec::new();
    assert(texts(found@) =~= Seq::empty());
    let map = match tool.as_object() {
        Some(map) => map,
        None => return found,
    };
    let kind = match map.member("type") {
        Some(JsonValue::Text(kind)) => kind.as_str(),
        _ => "function",
    };
    if hosted_kind(kind) {
        found.push(kind.to_owned());
        assert(texts(found@) =~= seq![kind@]);
    }
    if same_text(kind, "namespace") {
        if let Some(nested) = map.member("tools") {
            assert(decreases_to!(tool@ => nested@));
            append_texts(&mut found, collect_from_value(nested));
        } else if let Some(nested) = map.member("items") {
            assert(decreases_to!(tool@ => nested@));
            append_texts(&mut found, collect_from_value(nested));
        }
    }
    found
}

fn collect_from_value(tools: &JsonValue) -> (found: Vec<String>)
    ensures
        texts(found@) == hosted_types(tools@),
    decreases tools@, 2nat,
{
    let mut found: Vec<String> = Vec::new();
    assert(texts(found@) =~= Seq::empty());
    if let JsonValue::Array(list) = tools {
        let ghost all = array_of(list@);
        let mut i: usize = 0;
        assert(all.take(0) =~= Seq::empty());
        while i < list.len()
            invariant
                i <= list@.len(),
                all == array_of(list@),
                tools@ == Json::Array(all),
                texts(found@) == hosted_in(all.take(i as int)),
            decreases list@.len() - i,
        {
            proof {
                assert(all.take(i + 1).drop_last() =~= all.take(i as int));
                assert(all[i as int] == list@[i as int]@);
                assert(decreases_to!(tools@ => tools@->Array_0));
                assert(decreases_to!(all => all[i as int]));
            }
            append_texts(&mut found, collect_from_tool(&list[i]));
            i += 1;
        }
        assert(all.take(i as int) =~= all);
    }
    found
}

/// The kinds of hosted tools among a request's tools.
pub fn collect_hosted_tool_types(tools: Option<&JsonValue>) -> (found: Vec<String>)
    ensures
        texts(found@) == (match tools.deep_view() {
            Some(t) => hosted_types(t),
            None => Seq::empty(),
        }),
{
    match tools {
        Some(t) => collect_from_value(t),
        None => {
            let none: Vec<String> = Vec::new();
            assert(texts(none@) =~= Seq::empty());
            none
        },
    }
}

/// The texts of a list of parts.
pub open spec fn texts_in(parts: Seq<Json>) -> Seq<Seq<char>>
    decreases parts.len(),
{
    if parts.len() == 0 {
        Seq::empty()
    } else {
        let earlier = texts_in(parts.drop_last());
        match parts.last().text_at("text"@) {
            Some(t) => earlier.push(t),
            None => earlier,
        }
    }
}

/// The texts of one input item.
pub open spec fn item_texts(item: Json) -> Seq<Seq<char>> {
    match item.get("content"@) {
        Some(Json::Text(t)) => seq![t],
        Some(Json::Array(parts)) => texts_in(parts),
        _ => Seq::empty(),
    }
}

/// The texts of a list of input items.
pub open spec fn query_texts(items: Seq<Json>) -> Seq<Seq<char>>
    decreases items.len(),
{
    if items.len() == 0 {
        Seq::empty()
    } else {
        query_texts(items.drop_last()) + item_texts(items.last())
    }
}

/// What a request's input asks for: its texts, with blanks between them.
pub open spec fn query_of(input: Option<Json>) -> Seq<char> {
    match input {
        Some(Json::Text(t)) => t,
        Some(Json::Array(items)) => joined(query_texts(items), " "@),
        _ => Seq::empty(),
    }
}

fn read_item_texts(item: &JsonValue) -> (found: Vec<String>)
    ensures
        texts(found@) == item_texts(item@),
{
    let mut found: Vec<String> = Vec::new();
    assert(texts(found@) =~= Seq::empty());
    match item.get("content") {
        Some(JsonValue::Text(t)) => {
            found.push(t.clone());
            assert(texts(found@) =~= seq![t@]);
        },
        Some(JsonValue::Array(parts)) => {
            let ghost all = array_of(parts@);
            let mut i: usize = 0;
            assert(all.take(0) =~= Seq::empty());
            while i < parts.len()
                invariant
                    i <= parts@.len(),
                    all == array_of(parts@),
                    texts(found@) == texts_in(all.take(i as int)),
                decreases parts@.len() - i,
            {
                assert(all.take(i + 1).drop_last() =~= all.take(i as int));
                assert(all[i as int] == parts@[i as int]@);
                if let Some(t) = parts[i].text_at("text") {
                    let ghost before = texts(found@);
                    found.push(t.to_owned());
                    assert(texts(found@) =~= before.push(t@));
                }
                i += 1;
            }
            assert(all.take(i as int) =~= all);
        },
        _ => {},
    }
    found
}

/// What a request's input asks for.
pub fn extract_query_text(input: Option<&JsonValue>) -> (query: String)
    ensures
        query@ == query_of(input.deep_view()),
{
    match input {
        Some(JsonValue::Text(t)) => t.clone(),
        Some(JsonValue::Array(items)) => {
            let ghost all = array_of(items@);
            let mut found: Vec<String> = Vec::new();
            let mut i: usize = 0;
            assert(texts(found@) =~= Seq::empty());
            assert(all.take(0) =~= Seq::empty());
            while i < items.len()
                invariant
                    i <= items@.len(),
                    all == array_of(items@),
                    texts(found@) == query_texts(all.take(i as int)),
                decreases items@.len() - i,
            {
                assert(all.take(i + 1).drop_last() =~= all.take(i as int));
                assert(all[i as int] == items@[i as int]@);
                append_texts(&mut found, read_item_texts(&items[i]));
                i += 1;
            }
            assert(all.take(i as int) =~= all);
            join(&found, " ")
        },
        _ => String::new(),
    }
}

/// A result of a web search.
#[verifier::ext_equal]
pub struct Hit {
    pub title: Seq<char>,
    pub url: Seq<char>,
    pub snippet: Seq<char>,
}

/// A text, empty where there is none.
pub open spec fn or_blank(t: Option<Seq<char>>) -> Seq<char> {
    match t {
        Some(t) => t,
        None => Seq::empty(),
    }
}

/// The result that an entry stands for; one without title and address is none.
pub open spec fn hit_of(entry: Json) -> Option<Hit> {
    match entry {
        Json::Object(m) => {
            let title = or_blank(member_text(m.get("title"@)));
            let url = or_blank(member_text(m.get("url"@)));
            let snippet = or_blank(
                match m.get("content"@) {
                    Some(v) => v.as_str(),
                    None => member_text(m.get("snippet"@)),
                },
            );
            if title.len() == 0 && url.len() == 0 {
                None
            } else {
                Some(Hit { title, url, snippet })
            }
        },
        _ => None,
    }
}

/// The results that entries stand for.
pub open spec fn hits_in(entries: Seq<Json>) -> Seq<Hit>
    decreases entries.len(),
{
    if entries.len() == 0 {
        Seq::empty()
    } else {
        let earlier = hits_in(entries.drop_last());
        match hit_of(entries.last()) {
            Some(hit) => earlier.push(hit),
            None => earlier,
        }
    }
}

/// The results among the first `max` entries of a search engine's answer.
pub open spec fn search_hits(results: Option<Json>, max: nat) -> Seq<Hit> {
    match results {
        Some(Json::Array(list)) => if list.len() <= max {
            hits_in(list)
        } else {
            hits_in(list.take(max as int))
        },
        _ => Seq::empty(),
    }
}

/// A result as a value.
pub open spec fn hit_value(hit: Hit) -> Json {
    Json::Object(
        map![
            "title"@ => Json::Text(hit.title),
            "url"@ => Json::Text(hit.url),
            "snippet"@ => Json::Text(hit.snippet),
        ],
    )
}

/// A result of a web search.
#[derive(Debug, PartialEq)]
pub struct SearchHit {
    pub title: String,
    pub url: String,
    pub snippet: String,
}

impl View for SearchHit {
    type V = Hit;

    open spec fn view(&self) -> Hit {
        Hit { title: self.title@, url: self.url@, snippet: self.snippet@ }
    }
}

/// What results stand for.
pub open spec fn hits_of(hits: Seq<SearchHit>) -> Seq<Hit> {
    Seq::new(hits.len(), |i: int| hits[i]@)
}

fn member_or_blank(map: &Object, key: &str) -> (s: String)
    ensures
        s@ == or_blank(member_text(object_of(*map).get(key@))),
{
    match map.member(key) {
        Some(JsonValue::Text(t)) => t.clone(),
        _ => String::new(),
    }
}

fn read_hit(entry: &JsonValue) -> (hit: Option<SearchHit>)
    ensures
        match hit {
            Some(h) => hit_of(entry@) == Some(h@),
            None => hit_of(entry@) is None,
        },
{
    let map = match entry.as_object() {
        Some(map) => map,
        None => return None,
    };
    let title = member_or_blank(map, "title");
    let url = member_or_blank(map, "url");
    let snippet = match map.member("content") {
        Some(v) => match v.as_str() {
            Some(t) => t.to_owned(),
            None => String::new(),
        },
        None => member_or_blank(map, "snippet"),
    };
    if title.as_str().is_empty() && url.as_str().is_empty() {
        None
    } else {
        Some(SearchHit { title, url, snippet })
    }
}

/// The results among the first entries of a search engine's answer.
pub fn find_search_hits(results: Option<&JsonValue>, max_results: usize) -> (hits: Vec<SearchHit>)
    ensures
        hits_of(hits@) == search_hits(results.deep_view(), max_results as nat),
{
    let mut hits: Vec<SearchHit> = Vec::new();
    assert(hits_of(hits@) =~= Seq::empty());
    let list = match results {
        Some(JsonValue::Array(list)) => list,
        _ => return hits,
    };
    let ghost all = array_of(list@);
    let mut i: usize = 0;
    assert(all.take(0) =~= Seq::empty());
    while i < list.len() && i < max_results
        invariant
            i <= list@.len(),
            i <= max_results,
            all == array_of(list@),
            hits_of(hits@) == hits_in(all.take(i as int)),
        decreases list@.len() - i,
    {
        assert(all.take(i + 1).drop_last() =~= all.take(i as int));
        assert(all[i as int] == list@[i as int]@);
        if let Some(hit) = read_hit(&list[i]) {
            let ghost before = hits@;
            hits.push(hit);
            assert(hits_of(hits@) =~= hits_of(before).push(hit@));
        }
        i += 1;
    }
    proof {
        if list@.len() <= max_results {
            assert(all.take(i as int) =~= all);
        }
    }
    hits
}

/// The results of a web search, as values.
pub fn normalize_search_results(results: Option<&JsonValue>, max_results: usize) -> (values: Vec<
    JsonValue,
>)
    ensures
        array_of(values@) == Seq::new(
            search_hits(results.deep_view(), max_results as nat).len(),
            |i: int| hit_value(search_hits(results.deep_view(), max_results as nat)[i]),
        ),
{
    let hits = find_search_hits(results, max_results);
    let mut values: Vec<JsonValue> = Vec::new();
    let mut i: usize = 0;
    while i < hits.len()
        invariant
            i <= hits@.len(),
            values@.len() == i,
            forall|k: int| 0 <= k < i ==> (#[trigger] values@[k])@ == hit_value(hits@[k]@),
        decreases hits@.len() - i,
    {
        let hit = &hits[i];
        values.push(
            JsonValue::Object(
                object().with("title", JsonValue::Text(hit.title.clone())).with(
                    "url",
                    JsonValue::Text(hit.url.clone()),
                ).with("snippet", JsonValue::Text(hit.snippet.clone())),
            ),
        );
        i += 1;
    }
    assert(array_of(values@) =~= Seq::new(
        hits_of(hits@).len(),
        |k: int| hit_value(hits_of(hits@)[k]),
    ));
    values
}

/// What a hosted tool adds to a conversation and to a response.
#[derive(Debug)]
pub struct HostedToolSection {
    pub message: Option<JsonValue>,
    pub output_item: Option<JsonValue>,
}

/// What a [`HostedToolSection`] stands for.
#[verifier::ext_equal]
pub struct Section {
    pub message: Option<Json>,
    pub output_item: Option<Json>,
}

impl View for HostedToolSection {
    type V = Section;

    open spec fn view(&self) -> Section {
        Section {
            message: self.message.deep_view(),
            output_item: self.output_item.deep_view(),
        }
    }
}

/// A system message.
pub open spec fn system_message(content: Seq<char>) -> Json {
    Json::Object(
        map!["role"@ => Json::Text("system"@), "content"@ => Json::Text(content)],
    )
}

pub(crate) fn system_value(content: String) -> (v: JsonValue)
    ensures
        v@ == system_message(content@),
{
    JsonValue::Object(
        object().with("role", JsonValue::text("system")).with("content", JsonValue::Text(content)),
    )
}

/// How a result is told: its number, its title, its address and its snippet.
pub open spec fn hit_text(number: nat, hit: Hit) -> Seq<char> {
    decimal(number) + ". "@ + hit.title + "\n   "@ + hit.url + "\n   "@ + hit.snippet
}

/// How results are told.
pub open spec fn hits_text(hits: Seq<Hit>) -> Seq<char> {
    joined(Seq::new(hits.len(), |i: int| hit_text((i + 1) as nat, hits[i])), "\n\n"@)
}

/// The citation of a result.
pub open spec fn citation(hit: Hit) -> Json {
    Json::Object(
        map![
            "type"@ => Json::Text("url_citation"@),
            "url"@ => Json::Text(hit.url),
            "title"@ => Json::Text(hit.title),
        ],
    )
}

/// The citations of the results that have an address.
pub open spec fn citations(hits: Seq<Hit>) -> Seq<Json>
    decreases hits.len(),
{
    if hits.len() == 0 {
        Seq::empty()
    } else {
        let earlier = citations(hits.drop_last());
        if hits.last().url.len() > 0 {
            earlier.push(citation(hits.last()))
        } else {
            earlier
        }
    }
}

/// The output item of a web search without citations.
pub open spec fn web_item(id: Seq<char>, query: Seq<char>) -> Map<Seq<char>, Json> {
    map![
        "id"@ => Json::Text(id),
        "type"@ => Json::Text("web_search_call"@),
        "status"@ => Json::Text("completed"@),
        "action"@ => Json::Object(
            map!["type"@ => Json::Text("search"@), "query"@ => Json::Text(query)],
        ),
    ]
}

/// What a web search adds.
pub open spec fn web_section(query: Seq<char>, hits: Seq<Hit>, id: Seq<char>) -> Section {
    let head = "Web search results for `"@ + query + "`:\n"@;
    let base = web_item(id, query);
    if hits.len() == 0 {
        Section {
            message: Some(system_message(head + "No results found."@)),
            output_item: Some(Json::Object(base)),
        }
    } else {
        Section {
            message: Some(system_message(head + hits_text(hits))),
            output_item: Some(
                Json::Object(
                    if citations(hits).len() > 0 {
                        base.insert("annotations"@, Json::Array(citations(hits)))
                    } else {
                        base
                    },
                ),
            ),
        }
    }
}

fn tell_hit(number: u64, hit: &SearchHit) -> (s: String)
    ensures
        s@ == hit_text(number as nat, hit@),
{
    let mut s = concat(decimal_text(number).as_str(), ". ");
    s.append(hit.title.as_str());
    s.append("\n   ");
    s.append(hit.url.as_str());
    s.append("\n   ");
    s.append(hit.snippet.as_str());
    s
}

fn tell_hits(hits: &Vec<SearchHit>) -> (s: String)
    ensures
        s@ == hits_text(hits_of(hits@)),
{
    let ghost all = hits_of(hits@);
    let mut told: Vec<String> = Vec::new();
    let mut i: usize = 0;
    while i < hits.len()
        invariant
            i <= hits@.len(),
            all == hits_of(hits@),
            told@.len() == i,
            forall|k: int| 0 <= k < i ==> (#[trigger] told@[k])@ == hit_text((k + 1) as nat, all[k]),
        decreases hits@.len() - i,
    {
        let s = tell_hit((i + 1) as u64, &hits[i]);
        told.push(s);
        i += 1;
    }
    assert(texts(told@) =~= Seq::new(all.len(), |k: int| hit_text((k + 1) as nat, all[k])));
    join(&told, "\n\n")
}

fn cite_hits(hits: &Vec<SearchHit>) -> (values: Vec<JsonValue>)
    ensures
        array_of(values@) == citations(hits_of(hits@)),
{
    let ghost all = hits_of(hits@);
    let mut values: Vec<JsonValue> = Vec::new();
    let mut i: usize = 0;
    assert(array_of(values@) =~= Seq::empty());
    assert(all.take(0) =~= Seq::empty());
    while i < hits.len()
        invariant
            i <= hits@.len(),
            all == hits_of(hits@),
            array_of(values@) == citations(all.take(i as int)),
        decreases hits@.len() - i,
    {
        let hit = &hits[i];
        assert(all.take(i + 1).drop_last() =~= all.take(i as int));
        assert(all[i as int] == hit@);
        if !hit.url.as_str().is_empty() {
            let value = JsonValue::Object(
                object().with("type", JsonValue::text("url_citation")).with(
                    "url",
                    JsonValue::Text(hit.url.clone()),
                ).with("title", JsonValue::Text(hit.title.clone())),
            );
            push_value(&mut values, value);
        }
        i += 1;
    }
    assert(all.take(i as int) =~= all);
    values
}

/// What a web search adds.
pub fn build_web_section(query: &str, hits: &Vec<SearchHit>, id: &str) -> (section:
    HostedToolSection)
    ensures
        section@ == web_section(query@, hits_of(hits@), id@),
{
    let head = concat3("Web search results for `", query, "`:\n");
    let action = object().with("type", JsonValue::text("search")).with(
        "query",
        JsonValue::text(query),
    );
    let mut item = object().with("id", JsonValue::text(id)).with(
        "type",
        JsonValue::text("web_search_call"),
    ).with("status", JsonValue::text("completed")).with("action", JsonValue::Object(action));
    let content = if hits.len() == 0 {
        concat(head.as_str(), "No results found.")
    } else {
        let cited = cite_hits(hits);
        if cited.len() > 0 {
            item.set("annotations", JsonValue::Array(cited));
        }
        concat(head.as_str(), tell_hits(hits).as_str())
    };
    HostedToolSection {
        message: Some(system_value(content)),
        output_item: Some(JsonValue::Object(item)),
    }
}

/// What came of a request to a search engine.
#[derive(Debug)]
pub enum WebReply {
    /// There was no answer.
    Unreachable(String),
    /// The answer is not a success.
    Refused(u16),
    /// The answer cannot be read.
    Unreadable(String),
    /// The answer.
    Answer(JsonValue),
}

/// What comes of a web search.
pub open spec fn web_result(
    query: Seq<char>,
    max: nat,
    reply: WebReply,
    id: Seq<char>,
) -> Result<Section, Failure> {
    match reply {
        WebReply::Unreachable(e) => Err(
            Failure::Transport("web search request failed: "@ + e@),
        ),
        WebReply::Refused(status) => Err(
            Failure::Transport("web search returned HTTP "@ + status_text(status)),
        ),
        WebReply::Unreadable(e) => Err(
            Failure::Transport("web search response parse error: "@ + e@),
        ),
        WebReply::Answer(v) => Ok(web_section(query, search_hits(v@.get("results"@), max), id)),
    }
}

/// What comes of a web search whose output item gets the identifier `id`.
pub fn conclude_web_search(query: &str, max_results: usize, reply: &WebReply, id: &str) -> (r:
    Result<HostedToolSection, ProxyError>)
    requires
        reply matches WebReply::Refused(status) ==> is_status(*status),
    ensures
        crate::error::outcome(r) == web_result(query@, max_results as nat, *reply, id@),
{
    match reply {
        WebReply::Unreachable(e) => Err(
            ProxyError::Transport(concat("web search request failed: ", e.as_str())),
        ),
        WebReply::Refused(status) => Err(
            ProxyError::Transport(
                concat("web search returned HTTP ", crate::error::show_status(*status).as_str()),
            ),
        ),
        WebReply::Unreadable(e) => Err(
            ProxyError::Transport(concat("web search response parse error: ", e.as_str())),
        ),
        WebReply::Answer(v) => {
            let hits = find_search_hits(v.get("results"), max_results);
            Ok(build_web_section(query, &hits, id))
        },
    }
}

proof fn lemma_hits_len(entries: Seq<Json>)
    ensures
        hits_in(entries).len() <= entries.len(),
    decreases entries.len(),
{
    if entries.len() > 0 {
        lemma_hits_len(entries.drop_last());
    }
}

/// A web search never tells more results than the settings allow.
pub proof fn law_results_are_limited(results: Option<Json>, max: nat)
    ensures
        search_hits(results, max).len() <= max,
{
    if let Some(Json::Array(list)) = results {
        if list.len() <= max {
            lemma_hits_len(list);
        } else {
            lemma_hits_len(list.take(max as int));
        }
    }
}

/// What hosted tools add to a conversation and to a response.
#[derive(Debug)]
pub struct HostedToolContext {
    /// Output items that come first in the response.
    pub output_items: Vec<JsonValue>,
    /// Messages that go upstream with the conversation.
    pub messages: Vec<JsonValue>,
}

/// What a [`HostedToolContext`] stands for.
#[verifier::ext_equal]
pub struct Hosted {
    pub output_items: Seq<Json>,
    pub messages: Seq<Json>,
}

impl View for HostedToolContext {
    type V = Hosted;

    open spec fn view(&self) -> Hosted {
        Hosted {
            output_items: array_of(self.output_items@),
            messages: array_of(self.messages@),
        }
    }
}

/// Nothing is added.
pub open spec fn nothing_hosted() -> Hosted {
    Hosted { output_items: Seq::empty(), messages: Seq::empty() }
}

impl Default for HostedToolContext {
    fn default() -> (c: Self)
        ensures
            c@ == nothing_hosted(),
    {
        let c = HostedToolContext { output_items: Vec::new(), messages: Vec::new() };
        assert(array_of(c.output_items@) =~= Seq::empty());
        assert(array_of(c.messages@) =~= Seq::empty());
        c
    }
}

/// What is added once a section is there.
pub open spec fn with_section(h: Hosted, section: Section) -> Hosted {
    Hosted {
        output_items: match section.output_item {
            Some(item) => h.output_items.push(item),
            None => h.output_items,
        },
        messages: match section.message {
            Some(m) => h.messages.push(m),
            None => h.messages,
        },
    }
}

/// What is added once a web search has ended: its section, or a word on its failure.
pub open spec fn with_web_result(
    h: Hosted,
    query: Seq<char>,
    result: Result<Section, Failure>,
) -> Hosted {
    match result {
        Ok(section) => with_section(h, section),
        Err(e) => Hosted {
            messages: h.messages.push(
                system_message(
                    "Web search for `"@ + query + "` failed: "@ + e.message()
                        + ". Continue without search results."@,
                ),
            ),
            ..h
        },
    }
}

impl HostedToolContext {
    /// Adds a section.
    pub fn add_section(&mut self, section: HostedToolSection)
        ensures
            final(self)@ == with_section(old(self)@, section@),
    {
        if let Some(message) = section.message {
            push_value(&mut self.messages, message);
        }
        if let Some(item) = section.output_item {
            push_value(&mut self.output_items, item);
        }
    }

    /// Adds what came of a web search.
    pub fn add_web_result(&mut self, query: &str, result: Result<HostedToolSection, ProxyError>)
        requires
            result matches Err(e) ==> e@.has_status(),
        ensures
            final(self)@ == with_web_result(
                old(self)@,
                query@,
                crate::error::outcome(result),
            ),
    {
        match result {
            Ok(section) => self.add_section(section),
            Err(e) => {
                let head = concat3("Web search for `", query, "` failed: ");
                let content = concat3(
                    head.as_str(),
                    e.message().as_str(),
                    ". Continue without search results.",
                );
                push_value(&mut self.messages, system_value(content));
            },
        }
    }
}

/// Which hosted tools are to be run for a request.
#[derive(Debug)]
pub struct HostedPlan {
    pub query: String,
    pub web_search_url: Option<String>,
    pub search_files: bool,
}

/// Whether a list of kinds asks for a web search.
pub open spec fn asks_web(kinds: Seq<Seq<char>>) -> bool {
    kinds.contains("web_search"@) || kinds.contains("web_search_preview"@)
}

/// Where a web search is made, if it is asked for and there is anything to search for.
pub open spec fn searched_url(
    query: Seq<char>,
    kinds: Seq<Seq<char>>,
    url: Option<Seq<char>>,
) -> Option<Seq<char>> {
    if query.len() > 0 && asks_web(kinds) {
        url
    } else {
        None
    }
}

/// Whether files are searched: that is asked for, there is anything to search for, and
/// there are places to search in.
pub open spec fn searches_files(query: Seq<char>, kinds: Seq<Seq<char>>, places: nat) -> bool {
    query.len() > 0 && kinds.contains("file_search"@) && places > 0
}

/// Decides which hosted tools are to be run for a request: those that it declares and
/// the settings provide for, where its input asks for anything.
pub fn plan_hosted_tools(payload: &Object, settings: &crate::config::Settings) -> (plan:
    HostedPlan)
    ensures
        ({
            let m = object_of(*payload);
            let kinds = match m.get("tools"@) {
                Some(t) => hosted_types(t),
                None => Seq::empty(),
            };
            let query = query_of(m.get("input"@));
            &&& plan.query@ == query
            &&& plan.web_search_url.deep_view() == searched_url(
                query,
                kinds,
                settings.web_search_url.deep_view(),
            )
            &&& plan.search_files == searches_files(
                query,
                kinds,
                settings.file_search_paths@.len(),
            )
        }),
{
    let kinds = collect_hosted_tool_types(payload.member("tools"));
    let query = extract_query_text(payload.member("input"));
    let ghost all = texts(kinds@);
    let mut web = false;
    let mut files = false;
    let mut i: usize = 0;
    while i < kinds.len()
        invariant
            i <= kinds@.len(),
            all == texts(kinds@),
            web <==> asks_web(all.take(i as int)),
            files <==> all.take(i as int).contains("file_search"@),
        decreases kinds@.len() - i,
    {
        let kind = kinds[i].as_str();
        proof {
            let now = all.take(i + 1);
            let before = all.take(i as int);
            assert(now =~= before.push(kind@));
            assert forall|k: Seq<char>| now.contains(k) == (before.contains(k) || k == kind@) by {
                if before.contains(k) {
                    let x = choose|x: int| 0 <= x < before.len() && before[x] == k;
                    assert(now[x] == k);
                }
                if now.contains(k) {
                    let x = choose|x: int| 0 <= x < now.len() && now[x] == k;
                    if x < before.len() {
                        assert(before[x] == k);
                    }
                }
                assert(now[i as int] == kind@);
            }
        }
        if same_text(kind, "web_search") || same_text(kind, "web_search_preview") {
            web = true;
        }
        if same_text(kind, "file_search") {
            files = true;
        }
        i += 1;
    }
    assert(all.take(i as int) =~= all);
    let asked = !query.as_str().is_empty();
    let web_search_url = if asked && web {
        match &settings.web_search_url {
            Some(url) => Some(url.clone()),
            None => None,
        }
    } else {
        None
    };
    HostedPlan {
        query,
        web_search_url,
        search_files: asked && files && settings.file_search_paths.len() > 0,
    }
}

/// A tool that the proxy may offer is found where it is declared, and so are those in a
/// namespace. In a list without namespaces nothing else is found.
pub proof fn law_declared_tools_are_found(list: Seq<Json>, i: int, kind: Seq<char>)
    ensures
        0 <= i < list.len() && list[i].get("type"@) == Some(Json::Text(kind)) && (kind
            == "web_search"@ || kind == "web_search_preview"@ || kind == "file_search"@ || kind
            == "computer_use"@ || kind == "computer_use_preview"@) ==> hosted_types(
            Json::Array(list),
        ).contains(kind),
        0 <= i < list.len() && list[i].get("type"@) == Some(Json::Text("namespace"@)) && (
        list[i].get("tools"@) matches Some(inner) && hosted_types(inner).contains(kind))
            ==> hosted_types(Json::Array(list)).contains(kind),
        (forall|k: int|
            0 <= k < list.len() ==> (#[trigger] list[k]).get("type"@) != Some(
                Json::Text("namespace"@),
            )) && hosted_types(Json::Array(list)).contains(kind) ==> (exists|k: int|
            0 <= k < list.len() && (#[trigger] list[k]).get("type"@) == Some(Json::Text(kind)))
            && (kind == "web_search"@ || kind == "web_search_preview"@ || kind == "file_search"@
            || kind == "computer_use"@ || kind == "computer_use_preview"@),
    decreases list.len(),
{
    lemma_hosted_kinds();
    if list.len() > 0 {
        let front = list.drop_last();
        let last = list.last();
        law_declared_tools_are_found(front, i, kind);
        assert(hosted_types(Json::Array(front)) == hosted_in(front));
        let found = hosted_in(front) + hosted_of(last);
        assert(hosted_types(Json::Array(list)) == found);
        if hosted_in(front).contains(kind) {
            let x = choose|x: int| 0 <= x < hosted_in(front).len() && hosted_in(front)[x] == kind;
            assert(found[x] == kind);
        }
        if hosted_of(last).contains(kind) {
            let x = choose|x: int| 0 <= x < hosted_of(last).len() && hosted_of(last)[x] == kind;
            assert(found[hosted_in(front).len() + x] == kind);
        }
        assert(forall|k: int| 0 <= k < front.len() ==> front[k] == list[k]);
        if i == list.len() - 1 {
            if last.get("type"@) == Some(Json::Text(kind)) && is_hosted_type(kind) {
                assert(hosted_of(last) =~= seq![kind]);
                assert(hosted_of(last)[0] == kind);
            }
            if last.get("type"@) == Some(Json::Text("namespace"@)) && last.get("tools"@) is Some {
                assert(hosted_of(last) =~= hosted_types(last.get("tools"@)->0));
            }
        }
        if (forall|k: int|
            0 <= k < list.len() ==> (#[trigger] list[k]).get("type"@) != Some(
                Json::Text("namespace"@),
            )) && found.contains(kind) {
            assert forall|k: int| 0 <= k < front.len() implies (#[trigger] front[k]).get("type"@)
                != Some(Json::Text("namespace"@)) by {
                assert(list[k].get("type"@) != Some(Json::Text("namespace"@)));
            }
            let x = choose|x: int| 0 <= x < found.len() && found[x] == kind;
            if x < hosted_in(front).len() {
                assert(hosted_in(front)[x] == kind);
                let k = choose|k: int|
                    0 <= k < front.len() && (#[trigger] front[k]).get("type"@) == Some(
                        Json::Text(kind),
                    );
                assert(list[k].get("type"@) == Some(Json::Text(kind)));
            } else {
                let n = list.len() - 1;
                assert(list[n].get("type"@) != Some(Json::Text("namespace"@)));
                assert(hosted_of(last)[x - hosted_in(front).len()] == kind);
                assert(list[n].get("type"@) == Some(Json::Text(kind)));
            }
        }
    }
}

proof fn lemma_hosted_kinds()
    ensures
        !is_hosted_type("namespace"@),
        !is_hosted_type("function"@),
        "function"@ != "namespace"@,
{
    reveal_strlit("web_search");
    reveal_strlit("web_search_preview");
    reveal_strlit("file_search");
    reveal_strlit("computer_use");
    reveal_strlit("computer_use_preview");
    reveal_strlit("namespace");
    reveal_strlit("function");
    assert("web_search"@.len() == 10);
    assert("web_search_preview"@.len() == 18);
    assert("file_search"@.len() == 11);
    assert("computer_use"@.len() == 12);
    assert("computer_use_preview"@.len() == 20);
    assert("namespace"@.len() == 9);
    assert("function"@.len() == 8);
}

/// Whether an input item says these texts, one after the other.
pub open spec fn says_texts(item: Json, said: Seq<Seq<char>>) -> bool {
    match item.get("content"@) {
        Some(Json::Text(t)) => said == seq![t],
        Some(Json::Array(parts)) => parts.len() == said.len() && forall|k: int|
            0 <= k < parts.len() ==> (#[trigger] parts[k]).get("text"@) == Some(
                Json::Text(said[k]),
            ),
        _ => said.len() == 0,
    }
}

/// A request asks for what its input says: for the text that it is, or for all texts of
/// its items, in their order and with blanks between them.
pub proof fn law_queries_hold_what_is_said(
    t: Seq<char>,
    items: Seq<Json>,
    said: Seq<Seq<Seq<char>>>,
)
    requires
        items.len() == said.len(),
        forall|i: int| 0 <= i < items.len() ==> says_texts(#[trigger] items[i], said[i]),
    ensures
        query_of(Some(Json::Text(t))) == t,
        query_of(None) == Seq::<char>::empty(),
        query_of(Some(Json::Array(items))) == joined(said.flatten(), " "@),
{
    lemma_query_texts(items, said);
}

proof fn lemma_query_texts(items: Seq<Json>, said: Seq<Seq<Seq<char>>>)
    requires
        items.len() == said.len(),
        forall|i: int| 0 <= i < items.len() ==> says_texts(#[trigger] items[i], said[i]),
    ensures
        query_texts(items) == said.flatten(),
    decreases items.len(),
{
    if items.len() > 0 {
        let n = items.len() - 1;
        assert forall|i: int| 0 <= i < n implies says_texts(
            #[trigger] items.drop_last()[i],
            said.drop_last()[i],
        ) by {
            assert(says_texts(items[i], said[i]));
        }
        lemma_query_texts(items.drop_last(), said.drop_last());
        assert(says_texts(items[n], said[n]));
        if let Some(Json::Array(parts)) = items[n].get("content"@) {
            lemma_texts_in(parts, said[n]);
        }
        assert(item_texts(items[n]) =~= said[n]);
        assert(said =~= said.drop_last().push(said[n]));
        said.drop_last().lemma_flatten_push(said[n]);
    } else {
        assert(said =~= Seq::empty());
    }
}

proof fn lemma_texts_in(parts: Seq<Json>, said: Seq<Seq<char>>)
    requires
        parts.len() == said.len(),
        forall|k: int|
            0 <= k < parts.len() ==> (#[trigger] parts[k]).get("text"@) == Some(
                Json::Text(said[k]),
            ),
    ensures
        texts_in(parts) == said,
    decreases parts.len(),
{
    if parts.len() > 0 {
        let n = parts.len() - 1;
        assert forall|k: int| 0 <= k < n implies (#[trigger] parts.drop_last()[k]).get("text"@)
            == Some(Json::Text(said.drop_last()[k])) by {
            assert(parts[k].get("text"@) == Some(Json::Text(said[k])));
        }
        lemma_texts_in(parts.drop_last(), said.drop_last());
        assert(parts[n].get("text"@) == Some(Json::Text(said[n])));
        assert(texts_in(parts) =~= said);
    } else {
        assert(texts_in(parts) =~= said);
    }
}

/// Whether an entry of a search engine's answer is this result.
pub open spec fn is_result(entry: Json, hit: Hit) -> bool {
    &&& entry.get("title"@) == Some(Json::Text(hit.title))
    &&& entry.get("url"@) == Some(Json::Text(hit.url))
    &&& entry.get("content"@) == Some(Json::Text(hit.snippet)) || (entry.get("content"@) is None
        && entry.get("snippet"@) == Some(Json::Text(hit.snippet)))
    &&& hit.title.len() > 0 || hit.url.len() > 0
}

/// The results of a search are those of the engine's answer, in their order and as many
/// as are wanted.
pub proof fn law_results_are_taken_as_they_are(list: Seq<Json>, hits: Seq<Hit>, max: nat)
    requires
        list.len() == hits.len(),
        forall|i: int| 0 <= i < list.len() ==> is_result(#[trigger] list[i], hits[i]),
    ensures
        search_hits(Some(Json::Array(list)), max) == (if hits.len() <= max {
            hits
        } else {
            hits.take(max as int)
        }),
{
    if list.len() <= max {
        lemma_results(list, hits);
    } else {
        let first = list.take(max as int);
        assert forall|i: int| 0 <= i < first.len() implies is_result(
            #[trigger] first[i],
            hits.take(max as int)[i],
        ) by {
            assert(is_result(list[i], hits[i]));
        }
        lemma_results(first, hits.take(max as int));
    }
}

proof fn lemma_results(list: Seq<Json>, hits: Seq<Hit>)
    requires
        list.len() == hits.len(),
        forall|i: int| 0 <= i < list.len() ==> is_result(#[trigger] list[i], hits[i]),
    ensures
        hits_in(list) == hits,
    decreases list.len(),
{
    if list.len() > 0 {
        let n = list.len() - 1;
        assert forall|i: int| 0 <= i < n implies is_result(
            #[trigger] list.drop_last()[i],
            hits.drop_last()[i],
        ) by {
            assert(is_result(list[i], hits[i]));
        }
        lemma_results(list.drop_last(), hits.drop_last());
        assert(is_result(list[n], hits[n]));
        assert(hits_in(list) =~= hits);
    } else {
        assert(hits_in(list) =~= hits);
    }
}

/// The results of a web search go upstream in a message of the system: the query, and the
/// title, the address and the snippet of each result. The output item tells of the query
/// and cites the results.
pub proof fn law_web_results_are_told(query: Seq<char>, hits: Seq<Hit>, id: Seq<char>, i: int)
    ensures
        ({
            let section = web_section(query, hits, id);
            &&& section.message matches Some(message)
            &&& section.output_item matches Some(item)
            &&& message.get("role"@) == Some(Json::Text("system"@))
            &&& message.get("content"@) matches Some(Json::Text(content))
            &&& has_part(content, query)
            &&& hits.len() == 0 ==> has_part(content, "No results found."@)
            &&& 0 <= i < hits.len() ==> has_part(content, hits[i].title) && has_part(
                content,
                hits[i].url,
            ) && has_part(content, hits[i].snippet)
            &&& item.get("id"@) == Some(Json::Text(id))
            &&& item.get("type"@) == Some(Json::Text("web_search_call"@))
            &&& item.get("status"@) == Some(Json::Text("completed"@))
            &&& item.get("action"@) matches Some(action)
            &&& action.get("type"@) == Some(Json::Text("search"@))
            &&& action.get("query"@) == Some(Json::Text(query))
            &&& 0 <= i < hits.len() && (forall|k: int|
                0 <= k < hits.len() ==> (#[trigger] hits[k]).url.len() > 0) ==> {
                &&& item.get("annotations"@) matches Some(Json::Array(cited))
                &&& cited.len() == hits.len()
                &&& cited[i].get("type"@) == Some(Json::Text("url_citation"@))
                &&& cited[i].get("url"@) == Some(Json::Text(hits[i].url))
                &&& cited[i].get("title"@) == Some(Json::Text(hits[i].title))
            }
            &&& (forall|k: int| 0 <= k < hits.len() ==> (#[trigger] hits[k]).url.len() == 0)
                ==> item.get("annotations"@) is None
        }),
{
    reveal_strlit("role");
    reveal_strlit("content");
    reveal_strlit("id");
    reveal_strlit("type");
    reveal_strlit("status");
    reveal_strlit("action");
    reveal_strlit("query");
    reveal_strlit("annotations");
    reveal_strlit("url");
    reveal_strlit("title");
    assert("role"@.len() == 4);
    assert("content"@.len() == 7);
    assert("id"@.len() == 2);
    assert("type"@.len() == 4);
    assert("status"@.len() == 6);
    assert("action"@.len() == 6);
    assert("query"@.len() == 5);
    assert("annotations"@.len() == 11);
    assert("url"@.len() == 3);
    assert("title"@.len() == 5);
    assert("role"@[0] == 'r');
    assert("type"@[0] == 't');
    assert("status"@[0] == 's');
    assert("action"@[0] == 'a');
    assert("query"@[0] == 'q');
    assert("title"@[0] == 't');
    let head = "Web search results for `"@ + query + "`:\n"@;
    let tail = if hits.len() == 0 {
        "No results found."@
    } else {
        hits_text(hits)
    };
    law_parts_have_surroundings("Web search results for `"@, query, "`:\n"@ + tail, Seq::empty());
    assert("Web search results for `"@ + query + ("`:\n"@ + tail) =~= head + tail);
    if hits.len() == 0 {
        law_parts_have_surroundings(head, tail, Seq::empty(), Seq::empty());
        assert(head + tail + Seq::empty() =~= head + tail);
    }
    if 0 <= i < hits.len() {
        let told = Seq::new(hits.len(), |k: int| hit_text((k + 1) as nat, hits[k]));
        let hit = hits[i];
        let number = decimal((i + 1) as nat) + ". "@;
        let text = hit_text((i + 1) as nat, hit);
        assert(told[i] == text);
        law_parts_have_surroundings(
            number,
            hit.title,
            "\n   "@ + hit.url + "\n   "@ + hit.snippet,
            text,
        );
        assert(number + hit.title + ("\n   "@ + hit.url + "\n   "@ + hit.snippet) =~= text);
        law_parts_have_surroundings(
            number + hit.title + "\n   "@,
            hit.url,
            "\n   "@ + hit.snippet,
            text,
        );
        assert(number + hit.title + "\n   "@ + hit.url + ("\n   "@ + hit.snippet) =~= text);
        law_parts_have_surroundings(
            number + hit.title + "\n   "@ + hit.url + "\n   "@,
            hit.snippet,
            Seq::empty(),
            text,
        );
        assert(number + hit.title + "\n   "@ + hit.url + "\n   "@ + hit.snippet + Seq::empty()
            =~= text);
        law_told_texts_are_found(head, told, "\n\n"@, i, hit.title);
        law_told_texts_are_found(head, told, "\n\n"@, i, hit.url);
        law_told_texts_are_found(head, told, "\n\n"@, i, hit.snippet);
    }
    lemma_citations(hits);
}

proof fn lemma_citations(hits: Seq<Hit>)
    ensures
        (forall|k: int| 0 <= k < hits.len() ==> (#[trigger] hits[k]).url.len() > 0) ==> citations(
            hits,
        ) == Seq::new(hits.len(), |k: int| citation(hits[k])),
        (forall|k: int| 0 <= k < hits.len() ==> (#[trigger] hits[k]).url.len() == 0) ==> citations(
            hits,
        ).len() == 0,
    decreases hits.len(),
{
    if hits.len() > 0 {
        let n = hits.len() - 1;
        let front = hits.drop_last();
        lemma_citations(front);
        assert(forall|k: int| 0 <= k < n ==> front[k] == hits[k]);
        assert(hits.last() == hits[n]);
        if forall|k: int| 0 <= k < hits.len() ==> (#[trigger] hits[k]).url.len() > 0 {
            assert(hits[n].url.len() > 0);
            assert forall|k: int| 0 <= k < front.len() implies (#[trigger] front[k]).url.len()
                > 0 by {
                assert(hits[k].url.len() > 0);
            }
            assert(citations(hits) =~= Seq::new(hits.len(), |k: int| citation(hits[k])));
        }
        if forall|k: int| 0 <= k < hits.len() ==> (#[trigger] hits[k]).url.len() == 0 {
            assert(hits[n].url.len() == 0);
            assert forall|k: int| 0 <= k < front.len() implies (#[trigger] front[k]).url.len()
                == 0 by {
                assert(hits[k].url.len() == 0);
            }
        }
    } else {
        assert(citations(hits) =~= Seq::new(hits.len(), |k: int| citation(hits[k])));
    }
}

/// A search that cannot be made gives no section, and its failure is told to the upstream
/// in a message of the system; nothing else changes.
pub proof fn law_failed_searches_are_told(
    h: Hosted,
    query: Seq<char>,
    max: nat,
    reply: WebReply,
    id: Seq<char>,
)
    requires
        !(reply is Answer),
    ensures
        web_result(query, max, reply, id) matches Err(e) && {
            let after = with_web_result(h, query, web_result(query, max, reply, id));
            &&& e is Transport
            &&& after.output_items == h.output_items
            &&& after.messages.len() == h.messages.len() + 1
            &&& after.messages.take(h.messages.len() as int) == h.messages
            &&& after.messages.last().get("role"@) == Some(Json::Text("system"@))
            &&& after.messages.last().get("content"@) matches Some(Json::Text(content))
            &&& has_part(content, query)
            &&& has_part(content, e.message())
        },
{
    reveal_strlit("role");
    reveal_strlit("content");
    assert("role"@.len() == 4);
    assert("content"@.len() == 7);
    let e = web_result(query, max, reply, id)->Err_0;
    let after = with_web_result(h, query, web_result(query, max, reply, id));
    let a = "Web search for `"@;
    let b = "` failed: "@;
    let c = ". Continue without search results."@;
    let content = a + query + b + e.message() + c;
    assert(after.messages.take(h.messages.len() as int) =~= h.messages);
    law_parts_have_surroundings(a, query, b + e.message() + c, content);
    assert(a + query + (b + e.message() + c) =~= content);
    law_parts_have_surroundings(a + query + b, e.message(), c, content);
}

/// An answer of the search engine gives a section with its results.
pub proof fn law_answered_searches_give_their_results(
    query: Seq<char>,
    max: nat,
    answer: JsonValue,
    list: Seq<Json>,
    hits: Seq<Hit>,
    id: Seq<char>,
)
    requires
        answer@.get("results"@) == Some(Json::Array(list)),
        list.len() == hits.len(),
        list.len() <= max,
        forall|i: int| 0 <= i < list.len() ==> is_result(#[trigger] list[i], hits[i]),
    ensures
        web_result(query, max, WebReply::Answer(answer), id) == Ok::<Section, Failure>(
            web_section(query, hits, id),
        ),
{
    law_results_are_taken_as_they_are(list, hits, max);
}

/// Sections are added behind those that were there: the message goes upstream, and the
/// output item goes to the client.
pub proof fn law_sections_are_added_in_order(h: Hosted, message: Json, item: Json)
    ensures
        ({
            let after = with_section(
                h,
                Section { message: Some(message), output_item: Some(item) },
            );
            after.messages == h.messages.push(message) && after.output_items
                == h.output_items.push(item)
        }),
        with_section(h, Section { message: None, output_item: None }) == h,
{
}

/// A web search is asked for by either of its names.
pub proof fn law_either_name_asks_for_a_web_search(kinds: Seq<Seq<char>>, i: int)
    ensures
        0 <= i < kinds.len() && (kinds[i] == "web_search"@ || kinds[i] == "web_search_preview"@)
            ==> asks_web(kinds),
        (forall|k: int|
            0 <= k < kinds.len() ==> (#[trigger] kinds[k]) != "web_search"@ && kinds[k]
                != "web_search_preview"@) ==> !asks_web(kinds),
{
}

/// A search is made where it is asked for, there is something to search for, and the
/// settings say where.
pub proof fn law_searches_are_made_where_asked_for(
    query: Seq<char>,
    kinds: Seq<Seq<char>>,
    i: int,
    url: Seq<char>,
    places: nat,
)
    ensures
        query.len() > 0 && 0 <= i < kinds.len() && (kinds[i] == "web_search"@ || kinds[i]
            == "web_search_preview"@) ==> searched_url(query, kinds, Some(url)) == Some(url),
        query.len() == 0 ==> searched_url(query, kinds, Some(url)) is None && !searches_files(
            query,
            kinds,
            places,
        ),
        searched_url(query, kinds, None) is None,
        (forall|k: int|
            0 <= k < kinds.len() ==> (#[trigger] kinds[k]) != "web_search"@ && kinds[k]
                != "web_search_preview"@) ==> searched_url(query, kinds, Some(url)) is None,
        query.len() > 0 && 0 <= i < kinds.len() && kinds[i] == "file_search"@ && places > 0
            ==> searches_files(query, kinds, places),
        !kinds.contains("file_search"@) || places == 0 ==> !searches_files(query, kinds, places),
{
}

} // verus!

//! What the commands of the proxy decide and print.

use crate::codec::{encode_pretty, parse, parsed_json, pretty_json};
use crate::json::{object, object_of, Json, JsonValue, Object};
use crate::metrics::{law_counters_are_shown, metrics_value, RequestMetrics};
use crate::order::{in_order, insert_in_order};
use crate::probe::{model_ids, text_map, ModelInfo, ProbeReport};
use crate::table::Table;
use crate::text::{
    all_digits, concat, concat3, decimal, decimal_text, digits_value, ends_with, has_prefix,
    has_suffix, is_digit, is_space, lemma_decimal_value, parse_digits, same_text, starts_with, texts, to_chars, trim, trim_end_matches,
    trimmed, trimmed_end, trimmed_start, without_trailing,
};
use crate::usage::{count_at, count_in, read_count, read_count_in};
use vstd::prelude::*;
use vstd::string::*;

verus! {

/// Why a command cannot go on.
#[derive(Debug, PartialEq)]
pub enum CliError {
    NotFound(String),
    InvalidInput(String),
}

impl CliError {
    /// What a user is told.
    pub fn message(&self) -> (m: &str)
        ensures
            m@ == (match *self {
                CliError::NotFound(m) => m@,
                CliError::InvalidInput(m) => m@,
            }),
    {
        match self {
            CliError::NotFound(m) => m.as_str(),
            CliError::InvalidInput(m) => m.as_str(),
        }
    }
}

/// The config file to serve with: the one that was given, or the ones to choose from.
#[derive(Debug, PartialEq)]
pub enum ServeConfig {
    Explicit(String),
    Candidates(Vec<String>),
}

/// Whether a file name is that of a config file: `config.*.json`.
pub open spec fn is_config_name(name: Seq<char>) -> bool {
    has_prefix(name, "config."@) && has_suffix(name, ".json"@) && name.len() > "config."@.len()
        + ".json"@.len()
}

/// The config files among file names, in the order of the list.
pub open spec fn config_names(names: Seq<Seq<char>>) -> Seq<Seq<char>>
    decreases names.len(),
{
    if names.len() == 0 {
        Seq::empty()
    } else {
        let earlier = config_names(names.drop_last());
        if is_config_name(names.last()) {
            earlier.push(names.last())
        } else {
            earlier
        }
    }
}

/// Whether `sorted` holds what `list` holds, in order.
pub open spec fn is_sorted_form(sorted: Seq<Seq<char>>, list: Seq<Seq<char>>) -> bool {
    in_order(sorted) && sorted.to_multiset() == list.to_multiset()
}

fn is_config_file(name: &str) -> (b: bool)
    ensures
        b == is_config_name(name@),
{
    proof {
        reveal_strlit("config.");
        reveal_strlit(".json");
    }
    starts_with(name, "config.") && ends_with(name, ".json") && to_chars(name).len() > 12
}

/// The config files among the file names of a directory, in order.
pub fn discover_config_candidates(names: &Vec<String>) -> (candidates: Vec<String>)
    ensures
        is_sorted_form(texts(candidates@), config_names(texts(names@))),
{
    let ghost all = texts(names@);
    let mut candidates: Vec<String> = Vec::new();
    let mut i: usize = 0;
    assert(texts(candidates@) =~= Seq::empty());
    assert(all.take(0) =~= Seq::empty());
    while i < names.len()
        invariant
            i <= names@.len(),
            all == texts(names@),
            is_sorted_form(texts(candidates@), config_names(all.take(i as int))),
        decreases names@.len() - i,
    {
        let name = names[i].as_str();
        assert(all[i as int] == name@);
        assert(all.take(i + 1).drop_last() =~= all.take(i as int));
        if is_config_file(name) {
            let ghost before = texts(candidates@);
            let ghost found = config_names(all.take(i as int));
            insert_in_order(&mut candidates, name.to_owned());
            proof {
                let at = choose|at: int|
                    0 <= at <= before.len() && texts(candidates@) == #[trigger] before.insert(
                        at,
                        name@,
                    );
                before.to_multiset_ensures();
                found.to_multiset_ensures();
                vstd::seq_lib::to_multiset_insert(before, at, name@);
            }
        }
        i += 1;
    }
    assert(all.take(i as int) =~= all);
    candidates
}

/// The config file to serve with, given the one that was asked for, if any, and the file
/// names of the current directory.
pub fn prepare_serve_config(config: Option<String>, names: &Vec<String>) -> (r: Result<
    ServeConfig,
    CliError,
>)
    ensures
        match config {
            Some(path) => r matches Ok(ServeConfig::Explicit(p)) && p@ == path@,
            None => {
                let found = config_names(texts(names@));
                if found.len() == 0 {
                    r matches Err(CliError::NotFound(m)) && m@
                        == "no config.*.json found in the current directory; pass --config <FILE> to choose one explicitly"@
                } else {
                    r matches Ok(ServeConfig::Candidates(c)) && is_sorted_form(texts(c@), found)
                }
            },
        },
{
    if let Some(path) = config {
        return Ok(ServeConfig::Explicit(path));
    }
    let candidates = discover_config_candidates(names);
    proof {
        texts(candidates@).to_multiset_ensures();
        config_names(texts(names@)).to_multiset_ensures();
        assert(texts(candidates@).len() == candidates@.len());
    }
    if candidates.len() == 0 {
        return Err(
            CliError::NotFound(
                "no config.*.json found in the current directory; pass --config <FILE> to choose one explicitly".to_owned(),
            ),
        );
    }
    Ok(ServeConfig::Candidates(candidates))
}

/// The number that a text writes, a sign in front of it allowed, if it fits a machine
/// word.
pub open spec fn number_in(t: Seq<char>) -> Option<nat> {
    let digits = if t.len() > 0 && t[0] == '+' {
        t.skip(1)
    } else {
        t
    };
    if all_digits(digits) && digits_value(digits) <= usize::MAX {
        Some(digits_value(digits))
    } else {
        None
    }
}

/// The place in a list of `count` entries that an answer selects. No answer selects the
/// first.
pub open spec fn selection(input: Seq<char>, count: nat) -> Result<nat, Seq<char>> {
    let t = trimmed(input);
    if t.len() == 0 {
        Ok(0)
    } else {
        match number_in(t) {
            None => Err("Please enter a number from the list."@),
            Some(n) => if 1 <= n <= count {
                Ok((n - 1) as nat)
            } else {
                Err("Selection out of range. Try one of the listed numbers."@)
            },
        }
    }
}

/// The place in a list of `count` entries that an answer selects.
pub fn parse_config_selection(input: &str, count: usize) -> (r: Result<usize, &'static str>)
    ensures
        match r {
            Ok(i) => selection(input@, count as nat) == Ok::<nat, Seq<char>>(i as nat),
            Err(m) => selection(input@, count as nat) == Err::<nat, Seq<char>>(m@),
        },
{
    let t = trim(input);
    if t.as_str().is_empty() {
        return Ok(0);
    }
    let chars = to_chars(t.as_str());
    let from: usize = if chars.len() > 0 && chars[0] == '+' {
        1
    } else {
        0
    };
    assert(chars@.skip(0) =~= chars@);
    let selected = match parse_digits(&chars, from) {
        Some(n) => n,
        None => return Err("Please enter a number from the list."),
    };
    if selected > usize::MAX as u64 {
        return Err("Please enter a number from the list.");
    }
    let selected = selected as usize;
    if 1 <= selected && selected <= count {
        Ok(selected - 1)
    } else {
        Err("Selection out of range. Try one of the listed numbers.")
    }
}

/// A selection lies in the list, as long as the list has an entry.
pub proof fn law_selections_lie_in_the_list(input: Seq<char>, count: nat)
    requires
        count > 0,
    ensures
        selection(input, count) matches Ok(i) ==> i < count,
{
}

/// The address of the statistics of the proxy at `url`, if that is an address at all.
pub open spec fn stats_url(url: Seq<char>) -> Option<Seq<char>> {
    let base = without_trailing(trimmed(url), '/');
    if base.len() == 0 {
        None
    } else if has_suffix(base, "/stats"@) {
        Some(base)
    } else {
        Some(base + "/stats"@)
    }
}

/// The address of the statistics of the proxy at `url`.
pub fn stats_endpoint(url: &str) -> (r: Result<String, CliError>)
    ensures
        match r {
            Ok(s) => stats_url(url@) == Some(s@),
            Err(e) => {
                &&& stats_url(url@) is None
                &&& e matches CliError::InvalidInput(m)
                &&& m@ == "stats URL cannot be empty"@
            },
        },
{
    let base = trim_end_matches(trim(url).as_str(), '/');
    if base.as_str().is_empty() {
        return Err(CliError::InvalidInput("stats URL cannot be empty".to_owned()));
    }
    if ends_with(base.as_str(), "/stats") {
        Ok(base)
    } else {
        Ok(concat(base.as_str(), "/stats"))
    }
}

proof fn lemma_trimmed_start(s: Seq<char>)
    ensures
        trimmed_start(s).len() > 0 ==> !crate::text::is_space(trimmed_start(s)[0]),
    decreases s.len(),
{
    if s.len() > 0 && crate::text::is_space(s[0]) {
        lemma_trimmed_start(s.skip(1));
    }
}

proof fn lemma_trimmed_end_first(s: Seq<char>)
    ensures
        trimmed_end(s).len() > 0 ==> s.len() > 0 && trimmed_end(s)[0] == s[0],
    decreases s.len(),
{
    if s.len() > 0 && crate::text::is_space(s.last()) {
        lemma_trimmed_end_first(s.drop_last());
    }
}

proof fn lemma_without_trailing_first(s: Seq<char>, c: char)
    ensures
        without_trailing(s, c).len() > 0 ==> s.len() > 0 && without_trailing(s, c)[0] == s[0],
    decreases s.len(),
{
    if s.len() > 0 && s.last() == c {
        lemma_without_trailing_first(s.drop_last(), c);
    }
}

/// The address of the statistics stands for itself.
pub proof fn law_stats_address_is_stable(url: Seq<char>)
    ensures
        stats_url(url) matches Some(s) ==> stats_url(s) == Some(s),
{
    let base = without_trailing(trimmed(url), '/');
    if let Some(s) = stats_url(url) {
        reveal_strlit("/stats");
        let tail = "/stats"@;
        lemma_trimmed_start(url);
        lemma_trimmed_end_first(trimmed_start(url));
        lemma_without_trailing_first(trimmed(url), '/');
        assert(!crate::text::is_space(base[0]));
        assert(s[0] == base[0]);
        assert(has_suffix(s, tail)) by {
            if !has_suffix(base, tail) {
                assert(s.skip(s.len() - tail.len()) =~= tail);
            }
        }
        assert(tail.len() == 6);
        assert(tail[5] == 's');
        assert(s.skip(s.len() - 6)[5] == s.last());
        assert(s.last() == 's');
        assert(!crate::text::is_space('s'));
        assert(trimmed_start(s) == s);
        assert(trimmed_end(s) == s);
        assert(without_trailing(s, '/') == s);
    }
}

/// A line with a figure.
pub open spec fn figure(label: Seq<char>, n: u64) -> Seq<char> {
    label + decimal(n as nat)
}

fn show_figure(label: &str, n: u64) -> (s: String)
    ensures
        s@ == figure(label@, n),
{
    concat(label, decimal_text(n).as_str())
}

/// The statistics of a proxy, line by line.
pub open spec fn stats_report(stats: Json) -> Seq<Seq<char>> {
    seq![
        "cc2rep stats (uptime: "@ + decimal(count_at(stats, "uptime_seconds"@) as nat) + "s)"@,
        ""@,
        "Requests"@,
        figure("  total:      "@, count_in(stats, "requests"@, "total"@)),
        figure("  stream:     "@, count_in(stats, "requests"@, "stream"@)),
        figure("  non-stream: "@, count_in(stats, "requests"@, "non_stream"@)),
        figure("  completed:  "@, count_in(stats, "requests"@, "completed"@)),
        figure("  failed:     "@, count_in(stats, "requests"@, "failed"@)),
        figure("  cancelled:  "@, count_in(stats, "requests"@, "cancelled"@)),
        figure("  inflight:   "@, count_in(stats, "requests"@, "inflight"@)),
        ""@,
        "Tokens"@,
        figure("  input:      "@, count_in(stats, "tokens"@, "input"@)),
        figure("  output:     "@, count_in(stats, "tokens"@, "output"@)),
        figure("  cached:     "@, count_in(stats, "tokens"@, "cached"@)),
        figure("  reasoning:  "@, count_in(stats, "tokens"@, "reasoning"@)),
        ""@,
        figure("Stored responses: "@, count_at(stats, "stored_responses"@)),
    ]
}

/// The statistics of a proxy, line by line.
pub fn stats_lines(stats: &JsonValue) -> (lines: Vec<String>)
    ensures
        texts(lines@) == stats_report(stats@),
{
    let uptime = decimal_text(read_count(stats, "uptime_seconds"));
    let mut lines: Vec<String> = Vec::new();
    lines.push(concat3("cc2rep stats (uptime: ", uptime.as_str(), "s)"));
    lines.push("".to_owned());
    lines.push("Requests".to_owned());
    lines.push(show_figure("  total:      ", read_count_in(stats, "requests", "total")));
    lines.push(show_figure("  stream:     ", read_count_in(stats, "requests", "stream")));
    lines.push(show_figure("  non-stream: ", read_count_in(stats, "requests", "non_stream")));
    lines.push(show_figure("  completed:  ", read_count_in(stats, "requests", "completed")));
    lines.push(show_figure("  failed:     ", read_count_in(stats, "requests", "failed")));
    lines.push(show_figure("  cancelled:  ", read_count_in(stats, "requests", "cancelled")));
    lines.push(show_figure("  inflight:   ", read_count_in(stats, "requests", "inflight")));
    lines.push("".to_owned());
    lines.push("Tokens".to_owned());
    lines.push(show_figure("  input:      ", read_count_in(stats, "tokens", "input")));
    lines.push(show_figure("  output:     ", read_count_in(stats, "tokens", "output")));
    lines.push(show_figure("  cached:     ", read_count_in(stats, "tokens", "cached")));
    lines.push(show_figure("  reasoning:  ", read_count_in(stats, "tokens", "reasoning")));
    lines.push("".to_owned());
    lines.push(show_figure("Stored responses: ", read_count(stats, "stored_responses")));
    assert(texts(lines@) =~= stats_report(stats@));
    lines
}

/// The line for a model of the upstream.
pub open spec fn model_line(id: Seq<char>, upstream_model: Seq<char>) -> Seq<char> {
    "  "@ + id + (if id == upstream_model {
        " <-- upstream_model"@
    } else {
        ""@
    })
}

/// The models of the upstream, line by line.
pub open spec fn model_report(ids: Seq<Seq<char>>, upstream_model: Seq<char>) -> Seq<Seq<char>> {
    if ids.len() == 0 {
        seq![""@, "Models: (could not retrieve from upstream)"@]
    } else {
        seq![""@, "Available models ("@ + decimal(ids.len()) + "):"@] + Seq::new(
            ids.len(),
            |i: int| model_line(ids[i], upstream_model),
        )
    }
}

/// The models of the upstream, line by line.
pub fn model_lines(models: &Vec<ModelInfo>, upstream_model: &str) -> (lines: Vec<String>)
    ensures
        texts(lines@) == model_report(model_ids(models@), upstream_model@),
{
    let ghost ids = model_ids(models@);
    let mut lines: Vec<String> = Vec::new();
    lines.push("".to_owned());
    if models.len() == 0 {
        lines.push("Models: (could not retrieve from upstream)".to_owned());
        assert(texts(lines@) =~= model_report(ids, upstream_model@));
        return lines;
    }
    lines.push(
        concat3("Available models (", decimal_text(models.len() as u64).as_str(), "):"),
    );
    let ghost head = texts(lines@);
    let mut i: usize = 0;
    assert(head =~= head + Seq::new(0, |k: int| model_line(ids[k], upstream_model@)));
    while i < models.len()
        invariant
            i <= models@.len(),
            ids == model_ids(models@),
            texts(lines@) == head + Seq::new(
                i as nat,
                |k: int| model_line(ids[k], upstream_model@),
            ),
        decreases models@.len() - i,
    {
        let id = models[i].id.as_str();
        assert(ids[i as int] == id@);
        let marker = if same_text(id, upstream_model) {
            " <-- upstream_model"
        } else {
            ""
        };
        let ghost before = texts(lines@);
        lines.push(concat3("  ", id, marker));
        assert(texts(lines@) =~= before.push(model_line(id@, upstream_model@)));
        i += 1;
        assert(before.push(model_line(id@, upstream_model@)) =~= head + Seq::new(
            i as nat,
            |k: int| model_line(ids[k], upstream_model@),
        ));
    }
    assert(head =~= seq![""@, "Available models ("@ + decimal(ids.len()) + "):"@]);
    lines
}

/// The suggested aliases, line by line.
pub open spec fn alias_report(entries: Seq<(String, String)>) -> Seq<Seq<char>> {
    if entries.len() == 0 {
        Seq::empty()
    } else {
        seq![""@, "Suggested model_aliases:"@] + Seq::new(
            entries.len(),
            |i: int| "  "@ + entries[i].0@ + " -> "@ + entries[i].1@,
        )
    }
}

/// The suggested aliases, line by line.
pub fn alias_lines(aliases: &Table<String>) -> (lines: Vec<String>)
    ensures
        texts(lines@) == alias_report(aliases.spec_entries()),
{
    let ghost entries = aliases.spec_entries();
    let mut lines: Vec<String> = Vec::new();
    if aliases.is_empty() {
        assert(texts(lines@) =~= Seq::empty());
        return lines;
    }
    lines.push("".to_owned());
    lines.push("Suggested model_aliases:".to_owned());
    let ghost head = texts(lines@);
    assert(head =~= seq![""@, "Suggested model_aliases:"@]);
    let mut i: usize = 0;
    while i < aliases.len()
        invariant
            i <= entries.len(),
            entries == aliases.spec_entries(),
            head == seq![""@, "Suggested model_aliases:"@],
            lines@.len() == i + 2,
            forall|k: int| 0 <= k < 2 ==> (#[trigger] lines@[k])@ == head[k],
            forall|k: int|
                0 <= k < i ==> (#[trigger] lines@[k + 2])@ == "  "@ + entries[k].0@ + " -> "@
                    + entries[k].1@,
        decreases entries.len() - i,
    {
        let (from, to) = aliases.entry(i);
        let mut line = concat3("  ", from.as_str(), " -> ");
        line.append(to.as_str());
        lines.push(line);
        i += 1;
    }
    assert forall|k: int| 0 <= k < lines@.len() implies (#[trigger] lines@[k])@ == alias_report(
        entries,
    )[k] by {
        if k >= 2 {
            assert(lines@[(k - 2) + 2]@ == "  "@ + entries[k - 2].0@ + " -> "@ + entries[k
                - 2].1@);
        }
    }
    assert(texts(lines@) =~= alias_report(entries));
    lines
}

/// What a user still has to set up, line by line.
pub fn setup_lines(upstream_model: &str, models: &Vec<ModelInfo>) -> (lines: Vec<String>)
    ensures
        ({
            let base = seq![
                ""@,
                "Config fields that still need manual setup:"@,
                "  proxy_api_key              - API key for clients connecting to this proxy"@,
                "  upstream_api_key           - API key for the upstream provider"@,
            ];
            texts(lines@) == (if upstream_model@.len() == 0 && models@.len() > 0 {
                base.push(
                    "  upstream_model             - choose from available models above"@,
                )
            } else {
                base
            })
        }),
{
    let mut lines: Vec<String> = Vec::new();
    lines.push("".to_owned());
    lines.push("Config fields that still need manual setup:".to_owned());
    lines.push(
        "  proxy_api_key              - API key for clients connecting to this proxy".to_owned(),
    );
    lines.push("  upstream_api_key           - API key for the upstream provider".to_owned());
    let ghost base = texts(lines@);
    assert(base =~= seq![
        ""@,
        "Config fields that still need manual setup:"@,
        "  proxy_api_key              - API key for clients connecting to this proxy"@,
        "  upstream_api_key           - API key for the upstream provider"@,
    ]);
    if upstream_model.is_empty() && models.len() > 0 {
        lines.push(
            "  upstream_model             - choose from available models above".to_owned(),
        );
        assert(texts(lines@) =~= base.push(
            "  upstream_model             - choose from available models above"@,
        ));
    }
    lines
}

/// A config document with what a probe found out.
pub open spec fn updated_config(
    doc: Map<Seq<char>, Json>,
    report: ProbeReport,
    aliases: Map<Seq<char>, Seq<char>>,
) -> Map<Seq<char>, Json> {
    let known = doc.insert(
        "upstream_supports_named_tool_choice"@,
        Json::Bool(report.named_tool_choice),
    ).insert(
        "upstream_supports_tool_choice_required"@,
        Json::Bool(report.tool_choice_required),
    ).insert(
        "upstream_supports_reasoning_content"@,
        Json::Bool(report.reasoning_content),
    ).insert(
        "upstream_supports_reasoning_effort"@,
        Json::Bool(report.reasoning_effort),
    ).insert("upstream_supports_image_input"@, Json::Bool(report.image_input));
    if aliases == Map::<Seq<char>, Seq<char>>::empty() {
        known
    } else {
        known.insert("model_aliases"@, Json::Object(alias_members(aliases)))
    }
}

/// Aliases as the members of an object.
pub open spec fn alias_members(aliases: Map<Seq<char>, Seq<char>>) -> Map<Seq<char>, Json> {
    Map::new(|k: Seq<char>| aliases.contains_key(k), |k: Seq<char>| Json::Text(aliases[k]))
}

fn alias_object(aliases: &Table<String>) -> (o: Object)
    ensures
        object_of(o) == alias_members(text_map(*aliases)),
{
    let ghost entries = aliases.spec_entries();
    aliases.keys_are_distinct();
    proof {
        crate::table::lemma_table_view(*aliases);
        crate::table::lemma_entries_map(entries);
    }
    let mut o = object();
    let mut i: usize = 0;
    assert(object_of(o) =~= Map::empty());
    while i < aliases.len()
        invariant
            i <= entries.len(),
            entries == aliases.spec_entries(),
            aliases@ == crate::table::entries_map(entries),
            forall|j: int|
                0 <= j < entries.len() ==> aliases@.contains_key((#[trigger] entries[j]).0@)
                    && aliases@[entries[j].0@] == entries[j].1,
            forall|k: Seq<char>| #[trigger]
                object_of(o).contains_key(k) <==> exists|j: int|
                    0 <= j < i && (#[trigger] entries[j]).0@ == k,
            forall|k: Seq<char>| #[trigger]
                object_of(o).contains_key(k) ==> aliases@.contains_key(k) && object_of(o)[k]
                    == Json::Text(aliases@[k]@),
        decreases entries.len() - i,
    {
        let (from, to) = aliases.entry(i);
        let ghost before = object_of(o);
        assert(entries[i as int].0@ == from@);
        o.set(from.as_str(), JsonValue::Text(to.clone()));
        assert forall|k: Seq<char>| #[trigger]
            object_of(o).contains_key(k) <==> exists|j: int|
                0 <= j < i + 1 && (#[trigger] entries[j]).0@ == k by {
            if before.contains_key(k) {
                let j = choose|j: int| 0 <= j < i && (#[trigger] entries[j]).0@ == k;
                assert(entries[j].0@ == k);
            }
        }
        i += 1;
    }
    assert forall|k: Seq<char>| aliases@.contains_key(k) implies #[trigger]
        object_of(o).contains_key(k) by {
        assert(crate::table::entries_map(entries).contains_key(k));
        let j = choose|j: int| 0 <= j < entries.len() && (#[trigger] entries[j]).0@ == k;
        assert(entries[j].0@ == k);
    }
    assert(object_of(o) =~= alias_members(text_map(*aliases)));
    o
}

/// Writes what a probe found out into a config document.
pub fn update_config(doc: JsonValue, report: &ProbeReport, aliases: &Table<String>) -> (r: Result<
    JsonValue,
    CliError,
>)
    ensures
        match doc@ {
            Json::Object(m) => r matches Ok(v) && v@ == Json::Object(
                updated_config(m, *report, text_map(*aliases)),
            ),
            _ => r matches Err(CliError::InvalidInput(e)) && e@
                == "config file must be a JSON object"@,
        },
{
    match doc {
        JsonValue::Object(o) => {
            let mut o = o.with(
                "upstream_supports_named_tool_choice",
                JsonValue::Bool(report.named_tool_choice),
            ).with(
                "upstream_supports_tool_choice_required",
                JsonValue::Bool(report.tool_choice_required),
            ).with(
                "upstream_supports_reasoning_content",
                JsonValue::Bool(report.reasoning_content),
            ).with(
                "upstream_supports_reasoning_effort",
                JsonValue::Bool(report.reasoning_effort),
            ).with("upstream_supports_image_input", JsonValue::Bool(report.image_input));
            let none = aliases.is_empty();
            proof {
                let m = text_map(*aliases);
                if none {
                    assert(m =~= Map::empty());
                } else if m == Map::<Seq<char>, Seq<char>>::empty() {
                    assert forall|k: Seq<char>| !aliases@.contains_key(k) by {
                        assert(!m.contains_key(k));
                    }
                    assert(aliases@ =~= Map::empty());
                }
            }
            if !none {
                o.set("model_aliases", JsonValue::Object(alias_object(aliases)));
            }
            Ok(JsonValue::Object(o))
        },
        _ => Err(CliError::InvalidInput("config file must be a JSON object".to_owned())),
    }
}

/// Writes what a probe found out into the text of a config file: the text that is to be
/// saved in its place.
pub fn rewrite_config(raw: &str, report: &ProbeReport, aliases: &Table<String>) -> (r: Result<
    String,
    CliError,
>)
    ensures
        match parsed_json(raw@) {
            Err(e) => r matches Err(CliError::InvalidInput(m)) && m@ == e,
            Ok(Json::Object(doc)) => match pretty_json(
                Json::Object(updated_config(doc, *report, text_map(*aliases))),
            ) {
                Ok(t) => r matches Ok(s) && s@ == t + "\n"@,
                Err(e) => r matches Err(CliError::InvalidInput(m)) && m@ == e,
            },
            Ok(_) => r matches Err(CliError::InvalidInput(m)) && m@
                == "config file must be a JSON object"@,
        },
{
    let doc = match parse(raw) {
        Ok(doc) => doc,
        Err(e) => return Err(CliError::InvalidInput(e)),
    };
    match update_config(doc, report, aliases) {
        Ok(updated) => match encode_pretty(&updated) {
            Ok(text) => Ok(concat(text.as_str(), "\n")),
            Err(e) => Err(CliError::InvalidInput(e)),
        },
        Err(e) => Err(e),
    }
}

/// Whether a member of a config document is one that a probe writes.
pub open spec fn is_probed_member(key: Seq<char>) -> bool {
    key == "upstream_supports_named_tool_choice"@ || key
        == "upstream_supports_tool_choice_required"@ || key
        == "upstream_supports_reasoning_content"@ || key == "upstream_supports_reasoning_effort"@
        || key == "upstream_supports_image_input"@ || key == "model_aliases"@
}

/// Writing down what a probe found out leaves the rest of the document alone.
pub proof fn law_probe_leaves_other_settings(
    doc: Map<Seq<char>, Json>,
    report: ProbeReport,
    aliases: Map<Seq<char>, Seq<char>>,
    key: Seq<char>,
)
    requires
        !is_probed_member(key),
    ensures
        updated_config(doc, report, aliases).get(key) == doc.get(key),
{
}

/// A file name of the form `config.*.json` is that of a config file. The config files
/// among the names of a directory are those, and no others.
pub proof fn law_config_files_are_told_by_name(
    names: Seq<Seq<char>>,
    i: int,
    name: Seq<char>,
    middle: Seq<char>,
)
    ensures
        middle.len() > 0 ==> is_config_name("config."@ + middle + ".json"@),
        0 <= i < names.len() && is_config_name(names[i]) ==> config_names(names).contains(names[i]),
        config_names(names).contains(name) ==> names.contains(name) && is_config_name(name),
        is_config_name(name) ==> exists|m: Seq<char>|
            m.len() > 0 && name == #[trigger] ("config."@ + m + ".json"@),
    decreases names.len(),
{
    reveal_strlit("config.");
    reveal_strlit(".json");
    assert("config."@.len() == 7);
    assert(".json"@.len() == 5);
    let whole = "config."@ + middle + ".json"@;
    assert(whole.take(7) =~= "config."@);
    assert(whole.skip(whole.len() - 5) =~= ".json"@);
    if is_config_name(name) {
        let m = name.subrange(7, name.len() - 5);
        assert(name.take(7) == "config."@);
        assert(name.skip(name.len() - 5) == ".json"@);
        assert(name =~= name.take(7) + m + name.skip(name.len() - 5));
        assert(name == "config."@ + m + ".json"@);
    }
    if names.len() > 0 {
        let front = names.drop_last();
        law_config_files_are_told_by_name(front, i, name, middle);
        let earlier = config_names(front);
        let all = config_names(names);
        if 0 <= i < front.len() && is_config_name(names[i]) {
            let x = choose|x: int| 0 <= x < earlier.len() && earlier[x] == front[i];
            assert(all[x] == names[i]);
        }
        if i == front.len() && is_config_name(names[i]) {
            assert(all[all.len() - 1] == names[i]);
        }
        if all.contains(name) {
            let x = choose|x: int| 0 <= x < all.len() && all[x] == name;
            if x < earlier.len() {
                assert(earlier[x] == name);
                let y = choose|y: int| 0 <= y < front.len() && front[y] == name;
                assert(names[y] == name);
            } else {
                assert(names[names.len() - 1] == name);
            }
        }
    }
}

proof fn lemma_unspaced(s: Seq<char>)
    requires
        s.len() > 0,
        !is_space(s[0]),
        !is_space(s.last()),
    ensures
        trimmed(s) == s,
{
}

/// A number from the list selects the entry with that number, counted from one; no answer
/// selects the first; all else is turned down.
pub proof fn law_numbers_select_entries(n: nat, count: nat, input: Seq<char>)
    requires
        count <= usize::MAX,
    ensures
        1 <= n <= count ==> selection(decimal(n), count) == Ok::<nat, Seq<char>>((n - 1) as nat),
        n == 0 || n > count ==> selection(decimal(n), count) is Err,
        trimmed(input).len() == 0 ==> selection(input, count) == Ok::<nat, Seq<char>>(0),
        trimmed(input).len() > 0 && trimmed(input)[0] != '+' && !all_digits(trimmed(input))
            ==> selection(input, count) is Err,
{
    lemma_decimal_value(n);
    let t = decimal(n);
    assert(is_digit(t[0]) && is_digit(t.last()));
    lemma_unspaced(t);
}

/// The statistics of a proxy stand under its address, however that is written.
pub proof fn law_statistics_stand_under_the_address(url: Seq<char>)
    requires
        url.len() > 0,
        !is_space(url[0]),
        !is_space(url.last()),
        url.last() != '/',
        !has_suffix(url, "/stats"@),
    ensures
        stats_url(url) == Some(url + "/stats"@),
        stats_url(url.push('/')) == Some(url + "/stats"@),
        stats_url(url + "/stats"@) == Some(url + "/stats"@),
        stats_url(Seq::empty()) is None,
{
    reveal_strlit("/stats");
    reveal_with_fuel(without_trailing, 2);
    assert("/stats"@.len() == 6);
    assert("/stats"@[5] == 's');
    lemma_unspaced(url);
    lemma_unspaced(url.push('/'));
    assert(url.push('/').drop_last() =~= url);
    let whole = url + "/stats"@;
    assert(whole.last() == 's');
    lemma_unspaced(whole);
    assert(whole.skip(whole.len() - 6) =~= "/stats"@);
}

/// The statistics that are printed are those that the proxy shows.
pub proof fn law_printed_statistics_are_those_shown(
    m: RequestMetrics,
    uptime_seconds: u64,
    inflight: usize,
    stored: usize,
)
    ensures
        ({
            let lines = stats_report(metrics_value(m, uptime_seconds, inflight, stored));
            &&& lines[0] == "cc2rep stats (uptime: "@ + decimal(uptime_seconds as nat) + "s)"@
            &&& lines[3] == "  total:      "@ + decimal(m.total_requests as nat)
            &&& lines[4] == "  stream:     "@ + decimal(m.stream_requests as nat)
            &&& lines[5] == "  non-stream: "@ + decimal(m.non_stream_requests as nat)
            &&& lines[6] == "  completed:  "@ + decimal(m.completed as nat)
            &&& lines[7] == "  failed:     "@ + decimal(m.failed as nat)
            &&& lines[8] == "  cancelled:  "@ + decimal(m.cancelled as nat)
            &&& lines[9] == "  inflight:   "@ + decimal(inflight as nat)
            &&& lines[12] == "  input:      "@ + decimal(m.input_tokens as nat)
            &&& lines[13] == "  output:     "@ + decimal(m.output_tokens as nat)
            &&& lines[14] == "  cached:     "@ + decimal(m.cached_tokens as nat)
            &&& lines[15] == "  reasoning:  "@ + decimal(m.reasoning_tokens as nat)
            &&& lines[17] == "Stored responses: "@ + decimal(stored as nat)
        }),
{
    law_counters_are_shown(m, uptime_seconds, inflight, stored);
}

/// Every model is printed on a line of its own, in the order of the list, and the
/// configured one is pointed out.
pub proof fn law_models_are_printed(ids: Seq<Seq<char>>, upstream_model: Seq<char>, i: int)
    requires
        0 <= i < ids.len(),
    ensures
        model_report(ids, upstream_model).len() == ids.len() + 2,
        ids[i] == upstream_model ==> model_report(ids, upstream_model)[i + 2] == "  "@ + ids[i]
            + " <-- upstream_model"@,
        ids[i] != upstream_model ==> model_report(ids, upstream_model)[i + 2] == "  "@ + ids[i],
{
    reveal_strlit("");
    assert("  "@ + ids[i] + ""@ =~= "  "@ + ids[i]);
}

/// Every alias is printed with the model that it leads to.
pub proof fn law_aliases_are_printed(entries: Seq<(String, String)>, i: int)
    ensures
        entries.len() == 0 ==> alias_report(entries).len() == 0,
        0 <= i < entries.len() ==> alias_report(entries).len() == entries.len() + 2
            && alias_report(entries)[i + 2] == "  "@ + entries[i].0@ + " -> "@ + entries[i].1@,
{
}

/// What a probe found out is written down under the name of the setting, and the aliases
/// with the models that they lead to.
pub proof fn law_findings_are_written_down(
    doc: Map<Seq<char>, Json>,
    report: ProbeReport,
    aliases: Map<Seq<char>, Seq<char>>,
    name: Seq<char>,
)
    ensures
        ({
            let after = updated_config(doc, report, aliases);
            &&& after.get("upstream_supports_named_tool_choice"@) == Some(
                Json::Bool(report.named_tool_choice),
            )
            &&& after.get("upstream_supports_tool_choice_required"@) == Some(
                Json::Bool(report.tool_choice_required),
            )
            &&& after.get("upstream_supports_reasoning_content"@) == Some(
                Json::Bool(report.reasoning_content),
            )
            &&& after.get("upstream_supports_reasoning_effort"@) == Some(
                Json::Bool(report.reasoning_effort),
            )
            &&& after.get("upstream_supports_image_input"@) == Some(Json::Bool(report.image_input))
            &&& aliases.contains_key(name) ==> (after.get("model_aliases"@) matches Some(written)
                && written.get(name) == Some(Json::Text(aliases[name])))
            &&& (forall|k: Seq<char>| !#[trigger] aliases.contains_key(k)) ==> after.get(
                "model_aliases"@,
            ) == doc.get("model_aliases"@)
        }),
{
    reveal_strlit("upstream_supports_named_tool_choice");
    reveal_strlit("upstream_supports_tool_choice_required");
    reveal_strlit("upstream_supports_reasoning_content");
    reveal_strlit("upstream_supports_reasoning_effort");
    reveal_strlit("upstream_supports_image_input");
    reveal_strlit("model_aliases");
    assert("upstream_supports_named_tool_choice"@.len() == 35);
    assert("upstream_supports_tool_choice_required"@.len() == 38);
    assert("upstream_supports_reasoning_content"@.len() == 35);
    assert("upstream_supports_reasoning_effort"@.len() == 34);
    assert("upstream_supports_image_input"@.len() == 29);
    assert("model_aliases"@.len() == 13);
    assert("upstream_supports_named_tool_choice"@[18] == 'n');
    assert("upstream_supports_reasoning_content"@[18] == 'r');
    if forall|k: Seq<char>| !#[trigger] aliases.contains_key(k) {
        assert(aliases =~= Map::empty());
    }
}

} // verus!

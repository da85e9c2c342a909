//! Finding out what the upstream is able to do.

use crate::codec::{parse, parsed_json};
use crate::config::Settings;
use crate::json::{array_of, object, object_of, Json, JsonValue, Object};
use crate::table::Table;
use crate::text::{
    contains, has_part, is_ascii_text, law_parts_have_surroundings, lower_name, lowercased,
    same_text, texts, to_lowercase, trim_end_matches, without_trailing,
};
use crate::upstream::{is_success, is_success_status};
use crate::usage::count;
use vstd::prelude::*;
use vstd::string::*;

verus! {

/// What the upstream is able to do.
#[derive(Debug, Clone, Copy, PartialEq, Eq, Structural)]
pub struct Capabilities {
    pub supports_named_tool_choice: bool,
    pub supports_tool_choice_required: bool,
    pub supports_reasoning_content: bool,
    pub supports_image_input: bool,
    pub supports_reasoning_effort: bool,
}

/// The result of a probe, as it is shown.
#[derive(Debug, Clone, Copy, PartialEq, Eq, Structural)]
pub struct ProbeReport {
    pub named_tool_choice: bool,
    pub tool_choice_required: bool,
    pub reasoning_content: bool,
    pub reasoning_effort: bool,
    pub image_input: bool,
}

/// A model of the upstream.
#[derive(Debug, PartialEq)]
pub struct ModelInfo {
    pub id: String,
}

/// The identifiers of models.
pub open spec fn model_ids(models: Seq<ModelInfo>) -> Seq<Seq<char>> {
    Seq::new(models.len(), |i: int| models[i].id@)
}

pub fn fmt_bool(v: bool) -> (s: &'static str)
    ensures
        s@ == (if v {
            "yes"@
        } else {
            "no"@
        }),
{
    if v {
        "yes"
    } else {
        "no"
    }
}

/// The lines of a report: what was asked, padded to one width, and the answer.
pub open spec fn report_line(label: Seq<char>, v: bool) -> Seq<char> {
    "  "@ + padded(label, 35) + " "@ + if v {
        "yes"@
    } else {
        "no"@
    }
}

/// A text, filled up with blanks to the given width.
pub open spec fn padded(s: Seq<char>, width: nat) -> Seq<char>
    decreases width - s.len(),
{
    if s.len() >= width {
        s
    } else {
        padded(s.push(' '), width)
    }
}

fn pad(s: &str, width: usize) -> (t: String)
    ensures
        t@ == padded(s@, width as nat),
{
    let mut t = s.to_owned();
    let mut n: usize = crate::text::to_chars(s).len();
    while n < width
        invariant
            n == t@.len(),
            padded(t@, width as nat) == padded(s@, width as nat),
        decreases width - n,
    {
        t.push(' ');
        n += 1;
    }
    t
}

fn show_line(label: &str, v: bool) -> (line: String)
    ensures
        line@ == report_line(label@, v),
{
    let mut line = "  ".to_owned();
    line.append(pad(label, 35).as_str());
    line.append(" ");
    line.append(fmt_bool(v));
    line
}

impl ProbeReport {
    pub fn from_caps(caps: &Capabilities, settings: &Settings) -> (report: ProbeReport)
        ensures
            report == (ProbeReport {
                named_tool_choice: caps.supports_named_tool_choice,
                tool_choice_required: caps.supports_tool_choice_required,
                reasoning_content: caps.supports_reasoning_content,
                reasoning_effort: caps.supports_reasoning_effort,
                image_input: settings.upstream_supports_image_input,
            }),
    {
        ProbeReport {
            named_tool_choice: caps.supports_named_tool_choice,
            tool_choice_required: caps.supports_tool_choice_required,
            reasoning_content: caps.supports_reasoning_content,
            reasoning_effort: caps.supports_reasoning_effort,
            image_input: settings.upstream_supports_image_input,
        }
    }

    /// The report, line by line.
    pub fn lines(&self) -> (lines: Vec<String>)
        ensures
            texts(lines@) == seq![
                "Upstream capability probe results:"@,
                ""@,
                report_line("named tool_choice"@, self.named_tool_choice),
                report_line("tool_choice: required"@, self.tool_choice_required),
                report_line("reasoning_content"@, self.reasoning_content),
                report_line("reasoning_effort"@, self.reasoning_effort),
                report_line("image input"@, self.image_input),
            ],
    {
        let mut lines: Vec<String> = Vec::new();
        lines.push("Upstream capability probe results:".to_owned());
        lines.push("".to_owned());
        lines.push(show_line("named tool_choice", self.named_tool_choice));
        lines.push(show_line("tool_choice: required", self.tool_choice_required));
        lines.push(show_line("reasoning_content", self.reasoning_content));
        lines.push(show_line("reasoning_effort", self.reasoning_effort));
        lines.push(show_line("image input", self.image_input));
        assert(texts(lines@) =~= seq![
            "Upstream capability probe results:"@,
            ""@,
            report_line("named tool_choice"@, self.named_tool_choice),
            report_line("tool_choice: required"@, self.tool_choice_required),
            report_line("reasoning_content"@, self.reasoning_content),
            report_line("reasoning_effort"@, self.reasoning_effort),
            report_line("image input"@, self.image_input),
        ]);
        lines
    }
}

/// The identifiers in a list of models; entries without one are left out.
pub open spec fn listed_ids(data: Seq<Json>) -> Seq<Seq<char>>
    decreases data.len(),
{
    if data.len() == 0 {
        Seq::empty()
    } else {
        let earlier = listed_ids(data.drop_last());
        match data.last().text_at("id"@) {
            Some(id) => earlier.push(id),
            None => earlier,
        }
    }
}

/// The models in an upstream's answer.
pub open spec fn models_in(answer: Json) -> Seq<Seq<char>> {
    match answer.get("data"@) {
        Some(Json::Array(data)) => listed_ids(data),
        _ => Seq::empty(),
    }
}

/// The models in an upstream's answer.
pub fn models_from_answer(answer: &JsonValue) -> (models: Vec<ModelInfo>)
    ensures
        model_ids(models@) == models_in(answer@),
{
    let mut models: Vec<ModelInfo> = Vec::new();
    assert(model_ids(models@) =~= Seq::empty());
    let data = match answer.get("data") {
        Some(JsonValue::Array(data)) => data,
        _ => return models,
    };
    let ghost all = array_of(data@);
    let mut i: usize = 0;
    assert(all.take(0) =~= Seq::empty());
    while i < data.len()
        invariant
            i <= data@.len(),
            all == array_of(data@),
            model_ids(models@) == listed_ids(all.take(i as int)),
        decreases data@.len() - i,
    {
        assert(all.take(i + 1).drop_last() =~= all.take(i as int));
        assert(all[i as int] == data@[i as int]@);
        if let Some(id) = data[i].text_at("id") {
            let ghost before = models@;
            let model = ModelInfo { id: id.to_owned() };
            models.push(model);
            assert(model_ids(models@) =~= model_ids(before).push(id@));
        }
        i += 1;
    }
    assert(all.take(i as int) =~= all);
    models
}

/// The models in the body of an upstream's answer; none where it is not JSON.
pub fn parse_model_list(body: &str) -> (models: Vec<ModelInfo>)
    ensures
        model_ids(models@) == (match parsed_json(body@) {
            Ok(v) => models_in(v),
            Err(_) => Seq::empty(),
        }),
{
    match parse(body) {
        Ok(v) => models_from_answer(&v),
        Err(_) => {
            let none: Vec<ModelInfo> = Vec::new();
            assert(model_ids(none@) =~= Seq::empty());
            none
        },
    }
}

/// The models that a reply to the request for the list of models names; none where the
/// request failed or was refused.
pub open spec fn replied_models(reply: ProbeReply) -> Seq<Seq<char>> {
    match reply {
        ProbeReply::Answered { status, body } => if is_success(status) {
            match parsed_json(body@) {
                Ok(v) => models_in(v),
                Err(_) => Seq::empty(),
            }
        } else {
            Seq::empty()
        },
        ProbeReply::Failed => Seq::empty(),
    }
}

/// The models that a reply to the request for the list of models names.
pub fn models_of_reply(reply: &ProbeReply) -> (models: Vec<ModelInfo>)
    ensures
        model_ids(models@) == replied_models(*reply),
{
    if let ProbeReply::Answered { status, body } = reply {
        if is_success_status(*status) {
            return parse_model_list(body.as_str());
        }
    }
    let none: Vec<ModelInfo> = Vec::new();
    assert(model_ids(none@) =~= Seq::empty());
    none
}

/// Where the upstream lists its models.
pub fn models_url(settings: &Settings) -> (url: String)
    ensures
        url@ == without_trailing(settings.upstream_base_url@, '/') + "/models"@,
{
    crate::text::concat(
        trim_end_matches(settings.upstream_base_url.as_str(), '/').as_str(),
        "/models",
    )
}

/// Whether the lower-case form of a model's name tells that it reasons.
pub open spec fn names_reasoning(lower: Seq<char>) -> bool {
    has_part(lower, "reasoner"@) || has_part(lower, "r1"@) || has_part(lower, "thinking"@)
        || has_part(lower, "-o1"@) || has_part(lower, "-o3"@)
}

/// Whether the lower-case form of a model's name tells that it reasons.
pub fn lower_names_reasoning(lower: &str) -> (b: bool)
    ensures
        b == names_reasoning(lower@),
{
    contains(lower, "reasoner") || contains(lower, "r1") || contains(lower, "thinking")
        || contains(lower, "-o1") || contains(lower, "-o3")
}

/// Whether a model's name tells that it reasons.
pub fn is_reasoning_model(id: &str) -> (b: bool)
    ensures
        b == names_reasoning(lowercased(id@)),
        is_ascii_text(id@) ==> b == names_reasoning(lower_name(id@)),
{
    lower_names_reasoning(to_lowercase(id).as_str())
}

/// The first model that reasons, or the first that does not.
pub open spec fn first_model(ids: Seq<Seq<char>>, reasoning: bool) -> Option<Seq<char>>
    decreases ids.len(),
{
    if ids.len() == 0 {
        None
    } else if names_reasoning(lowercased(ids[0])) == reasoning {
        Some(ids[0])
    } else {
        first_model(ids.skip(1), reasoning)
    }
}

/// The model for chats: the configured one if the upstream has it, or the first that
/// does not reason, or the first at all.
pub open spec fn chat_model(ids: Seq<Seq<char>>, configured: Seq<char>) -> Seq<char> {
    if ids.contains(configured) {
        configured
    } else {
        match first_model(ids, false) {
            Some(id) => id,
            None => if ids.len() > 0 {
                ids[0]
            } else {
                configured
            },
        }
    }
}

/// The model for reasoning: the first that reasons, or the model for chats.
pub open spec fn reasoning_model(ids: Seq<Seq<char>>, configured: Seq<char>) -> Seq<char> {
    match first_model(ids, true) {
        Some(id) => id,
        None => chat_model(ids, configured),
    }
}

fn find_model(models: &Vec<ModelInfo>, reasoning: bool) -> (id: Option<String>)
    ensures
        id.deep_view() == first_model(model_ids(models@), reasoning),
{
    let ghost ids = model_ids(models@);
    let mut i: usize = 0;
    assert(ids.skip(0) =~= ids);
    while i < models.len()
        invariant
            i <= models@.len(),
            ids == model_ids(models@),
            first_model(ids.skip(i as int), reasoning) == first_model(ids, reasoning),
        decreases models@.len() - i,
    {
        assert(ids.skip(i as int)[0] == models@[i as int].id@);
        assert(ids.skip(i as int).skip(1) =~= ids.skip(i + 1));
        if is_reasoning_model(models[i].id.as_str()) == reasoning {
            return Some(models[i].id.clone());
        }
        i += 1;
    }
    None
}

pub fn find_chat_model(models: &Vec<ModelInfo>, upstream_model: &str) -> (id: String)
    ensures
        id@ == chat_model(model_ids(models@), upstream_model@),
{
    let ghost ids = model_ids(models@);
    let mut i: usize = 0;
    while i < models.len()
        invariant
            i <= models@.len(),
            ids == model_ids(models@),
            forall|k: int| 0 <= k < i ==> ids[k] != upstream_model@,
        decreases models@.len() - i,
    {
        if same_text(models[i].id.as_str(), upstream_model) {
            assert(ids[i as int] == upstream_model@);
            return upstream_model.to_owned();
        }
        i += 1;
    }
    assert(!ids.contains(upstream_model@));
    match find_model(models, false) {
        Some(id) => id,
        None => if models.len() > 0 {
            models[0].id.clone()
        } else {
            upstream_model.to_owned()
        },
    }
}

pub fn find_reasoning_model(models: &Vec<ModelInfo>, upstream_model: &str) -> (id: String)
    ensures
        id@ == reasoning_model(model_ids(models@), upstream_model@),
{
    match find_model(models, true) {
        Some(id) => id,
        None => find_chat_model(models, upstream_model),
    }
}

/// The names under which clients ask for a chat model.
pub open spec fn chat_names() -> Seq<Seq<char>> {
    seq!["gpt-5-codex"@, "gpt-4o"@, "gpt-4o-mini"@, "gpt-4-turbo"@, "gpt-4"@, "gpt-3.5-turbo"@]
}

/// The names under which clients ask for a reasoning model.
pub open spec fn reasoning_names() -> Seq<Seq<char>> {
    seq![
        "o1"@,
        "o1-mini"@,
        "o1-preview"@,
        "o3"@,
        "o3-mini"@,
        "o4-mini"@,
        "deepseek-reasoner"@,
    ]
}

/// `aliases` with the names in `names` for `model`; a model needs no alias for itself.
pub open spec fn with_aliases(
    aliases: Map<Seq<char>, Seq<char>>,
    names: Seq<Seq<char>>,
    model: Seq<char>,
) -> Map<Seq<char>, Seq<char>>
    decreases names.len(),
{
    if names.len() == 0 {
        aliases
    } else {
        let earlier = with_aliases(aliases, names.drop_last(), model);
        if names.last() == model {
            earlier
        } else {
            earlier.insert(names.last(), model)
        }
    }
}

/// The aliases that are suggested for an upstream's models.
pub open spec fn suggested_aliases(ids: Seq<Seq<char>>, configured: Seq<char>) -> Map<
    Seq<char>,
    Seq<char>,
> {
    if ids.len() == 0 {
        Map::empty()
    } else {
        with_aliases(
            with_aliases(Map::empty(), chat_names(), chat_model(ids, configured)),
            reasoning_names(),
            reasoning_model(ids, configured),
        )
    }
}

/// What a table of texts stands for.
pub open spec fn text_map(t: Table<String>) -> Map<Seq<char>, Seq<char>> {
    Map::new(|k: Seq<char>| t@.contains_key(k), |k: Seq<char>| t@[k]@)
}

fn add_alias(aliases: &mut Table<String>, name: &str, model: &str)
    ensures
        text_map(*final(aliases)) == (if name@ == model@ {
            text_map(*old(aliases))
        } else {
            text_map(*old(aliases)).insert(name@, model@)
        }),
{
    if !same_text(name, model) {
        aliases.insert(name.to_owned(), model.to_owned());
        assert(text_map(*aliases) =~= text_map(*old(aliases)).insert(name@, model@));
    }
}

/// The aliases that are suggested for an upstream's models: well-known names for the
/// models that stand in for them.
pub fn suggest_aliases(models: &Vec<ModelInfo>, upstream_model: &str) -> (aliases: Table<String>)
    ensures
        text_map(aliases) == suggested_aliases(model_ids(models@), upstream_model@),
{
    let mut aliases: Table<String> = Table::new();
    assert(text_map(aliases) =~= Map::empty());
    if models.len() == 0 {
        return aliases;
    }
    let chat = find_chat_model(models, upstream_model);
    let reasoning = find_reasoning_model(models, upstream_model);
    let c = chat.as_str();
    let r = reasoning.as_str();
    add_alias(&mut aliases, "gpt-5-codex", c);
    add_alias(&mut aliases, "gpt-4o", c);
    add_alias(&mut aliases, "gpt-4o-mini", c);
    add_alias(&mut aliases, "gpt-4-turbo", c);
    add_alias(&mut aliases, "gpt-4", c);
    add_alias(&mut aliases, "gpt-3.5-turbo", c);
    proof {
        reveal_with_fuel(with_aliases, 7);
        let n = chat_names();
        assert(n.drop_last().drop_last().drop_last().drop_last().drop_last().drop_last()
            =~= Seq::empty());
        assert(text_map(aliases) == with_aliases(Map::empty(), chat_names(), c@));
    }
    let ghost chats = text_map(aliases);
    add_alias(&mut aliases, "o1", r);
    add_alias(&mut aliases, "o1-mini", r);
    add_alias(&mut aliases, "o1-preview", r);
    add_alias(&mut aliases, "o3", r);
    add_alias(&mut aliases, "o3-mini", r);
    add_alias(&mut aliases, "o4-mini", r);
    add_alias(&mut aliases, "deepseek-reasoner", r);
    proof {
        reveal_with_fuel(with_aliases, 8);
        let n = reasoning_names();
        assert(n.drop_last().drop_last().drop_last().drop_last().drop_last().drop_last().drop_last()
            =~= Seq::empty());
        assert(text_map(aliases) == with_aliases(chats, reasoning_names(), r@));
    }
    aliases
}

/// No suggested alias leads from a name to that same name, and each leads to the model
/// for chats or the model for reasoning.
pub proof fn law_aliases_lead_elsewhere(
    ids: Seq<Seq<char>>,
    configured: Seq<char>,
    name: Seq<char>,
)
    requires
        suggested_aliases(ids, configured).contains_key(name),
    ensures
        suggested_aliases(ids, configured)[name] != name,
        suggested_aliases(ids, configured)[name] == chat_model(ids, configured)
            || suggested_aliases(ids, configured)[name] == reasoning_model(ids, configured),
{
    let chat = chat_model(ids, configured);
    let first = with_aliases(Map::empty(), chat_names(), chat);
    lemma_aliases(Map::empty(), chat_names(), chat, name);
    lemma_aliases(first, reasoning_names(), reasoning_model(ids, configured), name);
}

proof fn lemma_aliases(
    aliases: Map<Seq<char>, Seq<char>>,
    names: Seq<Seq<char>>,
    model: Seq<char>,
    name: Seq<char>,
)
    ensures
        with_aliases(aliases, names, model).contains_key(name) ==> (aliases.contains_key(name)
            && with_aliases(aliases, names, model)[name] == aliases[name]) || (with_aliases(
            aliases,
            names,
            model,
        )[name] == model && name != model),
    decreases names.len(),
{
    if names.len() > 0 {
        lemma_aliases(aliases, names.drop_last(), model, name);
    }
}

/// The suggested aliases lead to models that the upstream has.
pub proof fn law_aliases_lead_to_known_models(
    ids: Seq<Seq<char>>,
    configured: Seq<char>,
    name: Seq<char>,
)
    requires
        suggested_aliases(ids, configured).contains_key(name),
    ensures
        ids.contains(suggested_aliases(ids, configured)[name]),
{
    law_aliases_lead_elsewhere(ids, configured, name);
    lemma_first_model(ids, false);
    lemma_first_model(ids, true);
    assert(ids.contains(ids[0]));
}

proof fn lemma_first_model(ids: Seq<Seq<char>>, reasoning: bool)
    ensures
        first_model(ids, reasoning) matches Some(id) ==> ids.contains(id),
    decreases ids.len(),
{
    if ids.len() > 0 {
        lemma_first_model(ids.skip(1), reasoning);
        if let Some(id) = first_model(ids, reasoning) {
            if names_reasoning(lowercased(ids[0])) == reasoning {
                assert(ids[0] == id);
            } else {
                let k = choose|k: int| 0 <= k < ids.skip(1).len() && ids.skip(1)[k] == id;
                assert(ids[k + 1] == id);
            }
        }
    }
}

/// Whether a value says something.
pub open spec fn has_content(v: Json) -> bool {
    match v {
        Json::Text(t) => t.len() > 0,
        Json::Array(items) => items.len() > 0,
        Json::Null => false,
        _ => true,
    }
}

/// Whether a member of a message says something.
pub open spec fn says(message: Map<Seq<char>, Json>, key: Seq<char>) -> bool {
    match message.get(key) {
        Some(v) => has_content(v),
        None => false,
    }
}

/// Whether an answer shows that the upstream gives its reasoning.
pub open spec fn shows_reasoning(answer: Json) -> bool {
    match answer.get("choices"@) {
        Some(Json::Array(choices)) => if choices.len() == 0 {
            false
        } else {
            match choices[0].get("message"@) {
                Some(Json::Object(m)) => says(m, "reasoning_content"@) || says(m, "reasoning"@)
                    || says(m, "thinking"@),
                _ => false,
            }
        },
        _ => false,
    }
}

/// Whether the body of an answer shows that the upstream gives its reasoning.
pub open spec fn body_shows_reasoning(body: Seq<char>) -> bool {
    match parsed_json(body) {
        Ok(v) => shows_reasoning(v),
        Err(_) => false,
    }
}

fn member_says(message: &Object, key: &str) -> (b: bool)
    ensures
        b == says(object_of(*message), key@),
{
    match message.member(key) {
        Some(JsonValue::Text(t)) => !t.as_str().is_empty(),
        Some(JsonValue::Array(items)) => items.len() > 0,
        Some(JsonValue::Null) => false,
        Some(_) => true,
        None => false,
    }
}

/// Whether an answer shows that the upstream gives its reasoning.
pub fn answer_shows_reasoning(answer: &JsonValue) -> (b: bool)
    ensures
        b == shows_reasoning(answer@),
{
    let choices = match answer.get("choices") {
        Some(JsonValue::Array(choices)) => choices,
        _ => return false,
    };
    if choices.len() == 0 {
        return false;
    }
    assert(array_of(choices@)[0] == choices@[0]@);
    match choices[0].get("message") {
        Some(JsonValue::Object(m)) => member_says(m, "reasoning_content") || member_says(
            m,
            "reasoning",
        ) || member_says(m, "thinking"),
        _ => false,
    }
}

/// Marks that the upstream gives its reasoning, where an answer shows it.
pub fn check_reasoning_support(body: &str, caps: &mut Capabilities)
    ensures
        *final(caps) == with_reasoning(*old(caps), body_shows_reasoning(body@)),
{
    if let Ok(answer) = parse(body) {
        if answer_shows_reasoning(&answer) {
            caps.supports_reasoning_content = true;
        }
    }
}

/// Capabilities, with reasoning where it was shown.
pub open spec fn with_reasoning(caps: Capabilities, shown: bool) -> Capabilities {
    Capabilities {
        supports_reasoning_content: caps.supports_reasoning_content || shown,
        ..caps
    }
}

/// What came of a probing request.
#[derive(Debug)]
pub enum ProbeReply {
    Failed,
    Answered { status: u16, body: String },
}

/// What is to be done next in a probe.
#[derive(Debug)]
pub enum ProbeAction {
    /// Send the first requests, side by side: the one on tool choice and the one on
    /// reasoning, where they are needed.
    SendFirst { tool_choice: Option<JsonValue>, reasoning: Option<JsonValue> },
    /// Send the request on required tool choice.
    SendRequired(JsonValue),
    /// Send the request on reasoning effort.
    SendEffort(JsonValue),
    /// The probe is over.
    Done(Capabilities),
}

/// What is known from the settings alone.
pub open spec fn configured_capabilities(s: Settings) -> Capabilities {
    Capabilities {
        supports_named_tool_choice: s.upstream_supports_named_tool_choice == Some(true),
        supports_tool_choice_required: s.upstream_supports_tool_choice_required == Some(true),
        supports_reasoning_content: s.upstream_supports_reasoning_content == Some(true),
        supports_image_input: s.upstream_supports_image_input,
        supports_reasoning_effort: false,
    }
}

/// Whether the settings leave nothing to probe.
pub open spec fn nothing_to_probe(s: Settings) -> bool {
    s.upstream_supports_named_tool_choice is Some && s.upstream_supports_tool_choice_required is Some
        && s.upstream_supports_reasoning_content is Some
}

/// Whether tool choice is to be probed.
pub open spec fn probes_tool_choice(s: Settings) -> bool {
    s.upstream_supports_named_tool_choice is None || s.upstream_supports_tool_choice_required is None
}

/// A request with a single message.
pub open spec fn single_message(model: Seq<char>, content: Seq<char>, max_tokens: u64) -> Map<
    Seq<char>,
    Json,
> {
    map![
        "model"@ => Json::Text(model),
        "messages"@ => Json::Array(
            seq![
                Json::Object(
                    map!["role"@ => Json::Text("user"@), "content"@ => Json::Text(content)],
                ),
            ],
        ),
        "max_tokens"@ => count(max_tokens),
        "stream"@ => Json::Bool(false),
    ]
}

/// The tool that probes declare.
pub open spec fn probe_tool() -> Json {
    Json::Object(
        map![
            "type"@ => Json::Text("function"@),
            "function"@ => Json::Object(
                map![
                    "name"@ => Json::Text("_probe"@),
                    "parameters"@ => Json::Object(
                        map![
                            "type"@ => Json::Text("object"@),
                            "properties"@ => Json::Object(Map::empty()),
                        ],
                    ),
                ],
            ),
        ],
    )
}

/// The request that probes named tool choice.
pub open spec fn tool_choice_probe(model: Seq<char>) -> Json {
    Json::Object(
        single_message(model, "hi"@, 1).insert("tools"@, Json::Array(seq![probe_tool()])).insert(
            "tool_choice"@,
            Json::Object(
                map![
                    "type"@ => Json::Text("function"@),
                    "function"@ => Json::Object(map!["name"@ => Json::Text("_probe"@)]),
                ],
            ),
        ),
    )
}

/// The request that probes required tool choice.
pub open spec fn required_probe(model: Seq<char>) -> Json {
    Json::Object(
        single_message(model, "hi"@, 1).insert("tool_choice"@, Json::Text("required"@)),
    )
}

/// The request that probes reasoning.
pub open spec fn reasoning_probe(model: Seq<char>) -> Json {
    Json::Object(single_message(model, "1+1?"@, 16))
}

/// The request that probes reasoning effort.
pub open spec fn effort_probe(model: Seq<char>) -> Json {
    Json::Object(
        single_message(model, "1+1?"@, 16).insert("reasoning_effort"@, Json::Text("low"@)),
    )
}

/// Whether an answer is about the tool choice.
pub open spec fn is_about_tool_choice(body: Seq<char>) -> bool {
    has_part(lowercased(body), "tool_choice"@) || has_part(lowercased(body), "tool choice"@)
}

/// Whether a reply is a refusal of the tool choice.
pub open spec fn refuses_tool_choice(reply: Option<ProbeReply>) -> bool {
    match reply {
        Some(ProbeReply::Answered { status, body }) => !is_success(status) && is_about_tool_choice(
            body@,
        ),
        _ => false,
    }
}

/// Capabilities after the reply to the probe of tool choice. An answer that is not about
/// the tool choice counts as support.
pub open spec fn after_tool_choice(caps: Capabilities, reply: Option<ProbeReply>) -> Capabilities {
    match reply {
        Some(ProbeReply::Answered { status, body }) => if refuses_tool_choice(reply) {
            Capabilities { supports_named_tool_choice: false, ..caps }
        } else {
            with_reasoning(
                Capabilities {
                    supports_named_tool_choice: true,
                    supports_tool_choice_required: true,
                    ..caps
                },
                body_shows_reasoning(body@),
            )
        },
        _ => caps,
    }
}

/// Whether a reply is a success.
pub open spec fn succeeded(reply: ProbeReply) -> bool {
    match reply {
        ProbeReply::Answered { status, .. } => is_success(status),
        ProbeReply::Failed => false,
    }
}

/// Capabilities after the reply to the probe of required tool choice.
pub open spec fn after_required(caps: Capabilities, reply: ProbeReply) -> Capabilities {
    Capabilities { supports_tool_choice_required: succeeded(reply), ..caps }
}

/// Capabilities after the reply to the probe of reasoning.
pub open spec fn after_reasoning_reply(
    caps: Capabilities,
    reply: Option<ProbeReply>,
) -> Capabilities {
    match reply {
        Some(ProbeReply::Answered { status, body }) => with_reasoning(
            caps,
            is_success(status) && body_shows_reasoning(body@),
        ),
        _ => caps,
    }
}

/// Capabilities after the reply to the probe of reasoning effort.
pub open spec fn after_effort(caps: Capabilities, reply: ProbeReply) -> Capabilities {
    Capabilities {
        supports_reasoning_effort: caps.supports_reasoning_effort || succeeded(reply),
        ..caps
    }
}

fn request(model: &str, content: &str, max_tokens: u64) -> (o: Object)
    ensures
        object_of(o) == single_message(model@, content@, max_tokens),
{
    let message = object().with("role", JsonValue::text("user")).with(
        "content",
        JsonValue::text(content),
    );
    object().with("model", JsonValue::text(model)).with(
        "messages",
        JsonValue::singleton(JsonValue::Object(message)),
    ).with("max_tokens", JsonValue::number(max_tokens)).with("stream", JsonValue::Bool(false))
}

fn tool_choice_request(model: &str) -> (v: JsonValue)
    ensures
        v@ == tool_choice_probe(model@),
{
    let parameters = object().with("type", JsonValue::text("object")).with(
        "properties",
        JsonValue::Object(object()),
    );
    let function = object().with("name", JsonValue::text("_probe")).with(
        "parameters",
        JsonValue::Object(parameters),
    );
    let tool = object().with("type", JsonValue::text("function")).with(
        "function",
        JsonValue::Object(function),
    );
    let choice = object().with("type", JsonValue::text("function")).with(
        "function",
        JsonValue::Object(object().with("name", JsonValue::text("_probe"))),
    );
    JsonValue::Object(
        request(model, "hi", 1).with("tools", JsonValue::singleton(JsonValue::Object(tool))).with(
            "tool_choice",
            JsonValue::Object(choice),
        ),
    )
}

/// A probe under way.
#[derive(Debug)]
pub struct Probe {
    model: String,
    required_is_open: bool,
    caps: Capabilities,
    reasoning: Option<ProbeReply>,
}

/// Settings that leave open all that a probe can find out.
pub fn with_open_capabilities(settings: Settings) -> (s: Settings)
    ensures
        s == (Settings {
            upstream_supports_named_tool_choice: None,
            upstream_supports_tool_choice_required: None,
            upstream_supports_reasoning_content: None,
            ..settings
        }),
{
    let mut s = settings;
    s.upstream_supports_named_tool_choice = None;
    s.upstream_supports_tool_choice_required = None;
    s.upstream_supports_reasoning_content = None;
    s
}

impl Probe {
    /// What is known so far.
    pub closed spec fn known(self) -> Capabilities {
        self.caps
    }

    /// The model that is probed.
    pub closed spec fn probed_model(self) -> Seq<char> {
        self.model@
    }

    /// Whether required tool choice is still to be probed on its own.
    pub closed spec fn asks_required(self) -> bool {
        self.required_is_open
    }

    /// The reply on reasoning that is still to be looked at.
    pub closed spec fn waiting_reply(self) -> Option<ProbeReply> {
        self.reasoning
    }

    /// Begins a probe.
    pub fn start(settings: &Settings) -> (r: (Probe, ProbeAction))
        ensures
            r.0.known() == configured_capabilities(*settings),
            r.0.probed_model() == settings.upstream_model@,
            r.0.asks_required() == (settings.upstream_supports_tool_choice_required is None),
            match r.1 {
                ProbeAction::Done(caps) => nothing_to_probe(*settings) && caps
                    == configured_capabilities(*settings),
                ProbeAction::SendFirst { tool_choice, reasoning } => !nothing_to_probe(*settings)
                    && tool_choice.deep_view() == (if probes_tool_choice(*settings) {
                    Some(tool_choice_probe(settings.upstream_model@))
                } else {
                    None
                }) && reasoning.deep_view() == (if settings.upstream_supports_reasoning_content
                    is None {
                    Some(reasoning_probe(settings.upstream_model@))
                } else {
                    None
                }),
                _ => false,
            },
    {
        let caps = Capabilities {
            supports_named_tool_choice: match settings.upstream_supports_named_tool_choice {
                Some(b) => b,
                None => false,
            },
            supports_tool_choice_required: match settings.upstream_supports_tool_choice_required {
                Some(b) => b,
                None => false,
            },
            supports_reasoning_content: match settings.upstream_supports_reasoning_content {
                Some(b) => b,
                None => false,
            },
            supports_image_input: settings.upstream_supports_image_input,
            supports_reasoning_effort: false,
        };
        let named_open = settings.upstream_supports_named_tool_choice.is_none();
        let required_open = settings.upstream_supports_tool_choice_required.is_none();
        let reasoning_open = settings.upstream_supports_reasoning_content.is_none();
        let model = settings.upstream_model.as_str();
        let probe = Probe {
            model: settings.upstream_model.clone(),
            required_is_open: required_open,
            caps,
            reasoning: None,
        };
        if !named_open && !required_open && !reasoning_open {
            return (probe, ProbeAction::Done(caps));
        }
        let tool_choice = if named_open || required_open {
            Some(tool_choice_request(model))
        } else {
            None
        };
        let reasoning = if reasoning_open {
            Some(JsonValue::Object(request(model, "1+1?", 16)))
        } else {
            None
        };
        (probe, ProbeAction::SendFirst { tool_choice, reasoning })
    }

    fn effort_action(&self) -> (action: ProbeAction)
        ensures
            match action {
                ProbeAction::SendEffort(v) => v@ == effort_probe(self.probed_model()),
                _ => false,
            },
    {
        ProbeAction::SendEffort(
            JsonValue::Object(
                request(self.model.as_str(), "1+1?", 16).with(
                    "reasoning_effort",
                    JsonValue::text("low"),
                ),
            ),
        )
    }

    fn look_at_reasoning(&mut self)
        ensures
            final(self).known() == after_reasoning_reply(
                old(self).known(),
                old(self).waiting_reply(),
            ),
            final(self).probed_model() == old(self).probed_model(),
    {
        if let Some(ProbeReply::Answered { status, body }) = &self.reasoning {
            if is_success_status(*status) {
                check_reasoning_support(body.as_str(), &mut self.caps);
            }
        }
    }

    /// Takes the replies to the first requests.
    pub fn on_first(
        &mut self,
        tool_choice: Option<ProbeReply>,
        reasoning: Option<ProbeReply>,
    ) -> (action: ProbeAction)
        ensures
            final(self).probed_model() == old(self).probed_model(),
            match action {
                ProbeAction::SendRequired(v) => refuses_tool_choice(tool_choice)
                    && old(self).asks_required() && v@ == required_probe(
                    old(self).probed_model(),
                ) && final(self).known() == after_tool_choice(old(self).known(), tool_choice)
                    && final(self).waiting_reply() == reasoning,
                ProbeAction::SendEffort(v) => !(refuses_tool_choice(tool_choice)
                    && old(self).asks_required()) && v@ == effort_probe(old(self).probed_model())
                    && final(self).known() == after_reasoning_reply(
                    after_tool_choice(old(self).known(), tool_choice),
                    reasoning,
                ),
                _ => false,
            },
    {
        self.reasoning = reasoning;
        if let Some(ProbeReply::Answered { status, body }) = &tool_choice {
            let refused = if is_success_status(*status) {
                false
            } else {
                let lower = to_lowercase(body.as_str());
                contains(lower.as_str(), "tool_choice") || contains(lower.as_str(), "tool choice")
            };
            if refused {
                self.caps.supports_named_tool_choice = false;
                if self.required_is_open {
                    return ProbeAction::SendRequired(
                        JsonValue::Object(
                            request(self.model.as_str(), "hi", 1).with(
                                "tool_choice",
                                JsonValue::text("required"),
                            ),
                        ),
                    );
                }
            } else {
                self.caps.supports_named_tool_choice = true;
                self.caps.supports_tool_choice_required = true;
                check_reasoning_support(body.as_str(), &mut self.caps);
            }
        }
        self.look_at_reasoning();
        self.effort_action()
    }

    /// Takes the reply on required tool choice.
    pub fn on_required(&mut self, reply: ProbeReply) -> (action: ProbeAction)
        ensures
            final(self).known() == after_reasoning_reply(
                after_required(old(self).known(), reply),
                old(self).waiting_reply(),
            ),
            match action {
                ProbeAction::SendEffort(v) => v@ == effort_probe(old(self).probed_model()),
                _ => false,
            },
    {
        self.caps.supports_tool_choice_required =
        match &reply {
            ProbeReply::Answered { status, .. } => is_success_status(*status),
            ProbeReply::Failed => false,
        };
        self.look_at_reasoning();
        self.effort_action()
    }

    /// Takes the reply on reasoning effort, which ends the probe.
    pub fn on_effort(&self, reply: &ProbeReply) -> (caps: Capabilities)
        ensures
            caps == after_effort(self.known(), *reply),
    {
        let mut caps = self.caps;
        if let ProbeReply::Answered { status, .. } = reply {
            if is_success_status(*status) {
                caps.supports_reasoning_effort = true;
            }
        }
        caps
    }
}

/// What a whole probe finds out, from its replies. The reply on required tool choice
/// counts only where it was asked for.
pub open spec fn probed(
    settings: Settings,
    tool_choice: Option<ProbeReply>,
    reasoning: Option<ProbeReply>,
    required: ProbeReply,
    effort: ProbeReply,
) -> Capabilities {
    let first = after_tool_choice(configured_capabilities(settings), tool_choice);
    let second = if refuses_tool_choice(tool_choice)
        && settings.upstream_supports_tool_choice_required is None {
        after_required(first, required)
    } else {
        first
    };
    after_effort(after_reasoning_reply(second, reasoning), effort)
}

/// The replies to the requests that a probe may send. Those to requests that it does not
/// send count for nothing.
#[derive(Debug)]
pub struct ProbeReplies {
    pub tool_choice: ProbeReply,
    pub reasoning: ProbeReply,
    pub required: ProbeReply,
    pub effort: ProbeReply,
}

/// A reply, where it was asked for.
pub open spec fn if_asked(asked: bool, reply: ProbeReply) -> Option<ProbeReply> {
    if asked {
        Some(reply)
    } else {
        None
    }
}

/// What a probe finds out where the upstream replies in the given way.
pub open spec fn probe_outcome(settings: Settings, replies: ProbeReplies) -> Capabilities {
    if nothing_to_probe(settings) {
        configured_capabilities(settings)
    } else {
        probed(
            settings,
            if_asked(probes_tool_choice(settings), replies.tool_choice),
            if_asked(settings.upstream_supports_reasoning_content is None, replies.reasoning),
            replies.required,
            replies.effort,
        )
    }
}

/// Runs a whole probe on replies that are known beforehand.
pub fn run_probe(settings: &Settings, replies: ProbeReplies) -> (caps: Capabilities)
    ensures
        caps == probe_outcome(*settings, replies),
{
    let (mut probe, first) = Probe::start(settings);
    let (asks_tool_choice, asks_reasoning) = match &first {
        ProbeAction::SendFirst { tool_choice, reasoning } => (
            tool_choice.is_some(),
            reasoning.is_some(),
        ),
        ProbeAction::Done(caps) => return *caps,
        _ => (false, false),
    };
    let tool_choice = if asks_tool_choice {
        Some(replies.tool_choice)
    } else {
        None
    };
    let reasoning = if asks_reasoning {
        Some(replies.reasoning)
    } else {
        None
    };
    let second = probe.on_first(tool_choice, reasoning);
    if let ProbeAction::SendRequired(_) = &second {
        let _third = probe.on_required(replies.required);
    }
    probe.on_effort(&replies.effort)
}

/// Where no probing request gets an answer, nothing is taken for granted: what the
/// settings leave open counts as not supported.
pub proof fn law_failed_probe_is_conservative(
    settings: Settings,
    tool_choice: Option<ProbeReply>,
    reasoning: Option<ProbeReply>,
    required: ProbeReply,
)
    requires
        tool_choice is None || tool_choice == Some(ProbeReply::Failed),
        reasoning is None || reasoning == Some(ProbeReply::Failed),
    ensures
        probed(settings, tool_choice, reasoning, required, ProbeReply::Failed)
            == configured_capabilities(settings),
{
}

/// A probe finds out nothing about images: they are supported where the settings say so.
pub proof fn law_probe_leaves_images_to_settings(
    settings: Settings,
    tool_choice: Option<ProbeReply>,
    reasoning: Option<ProbeReply>,
    required: ProbeReply,
    effort: ProbeReply,
)
    ensures
        probed(settings, tool_choice, reasoning, required, effort).supports_image_input
            == settings.upstream_supports_image_input,
{
}

/// Where the upstream takes a named tool choice, it takes a required one too, unless the
/// settings say otherwise and the probe was refused.
pub proof fn law_accepted_choice_is_fully_supported(
    settings: Settings,
    status: u16,
    body: String,
    reasoning: Option<ProbeReply>,
    required: ProbeReply,
    effort: ProbeReply,
)
    requires
        is_success(status),
    ensures
        ({
            let reply = Some(ProbeReply::Answered { status, body });
            let caps = probed(settings, reply, reasoning, required, effort);
            caps.supports_named_tool_choice && caps.supports_tool_choice_required
        }),
{
}

/// Every probe asks the model that is probed, in a single message and without a stream.
/// The probe of named tool choice declares a tool and names that tool, the one of required
/// tool choice requires a call, and the one of reasoning effort asks for little effort.
pub proof fn law_probes_ask_for_what_they_probe(model: Seq<char>)
    ensures
        is_plain_question(tool_choice_probe(model), model),
        is_plain_question(required_probe(model), model),
        is_plain_question(reasoning_probe(model), model),
        is_plain_question(effort_probe(model), model),
        required_probe(model).get("tool_choice"@) == Some(Json::Text("required"@)),
        effort_probe(model).get("reasoning_effort"@) == Some(Json::Text("low"@)),
        reasoning_probe(model).get("tool_choice"@) is None,
        reasoning_probe(model).get("reasoning_effort"@) is None,
        ({
            let v = tool_choice_probe(model);
            &&& v.get("tools"@) matches Some(Json::Array(tools))
            &&& v.get("tool_choice"@) matches Some(choice)
            &&& tools.len() == 1
            &&& tools[0].get("type"@) == Some(Json::Text("function"@))
            &&& choice.get("type"@) == Some(Json::Text("function"@))
            &&& tools[0].get("function"@) matches Some(declared)
            &&& choice.get("function"@) matches Some(chosen)
            &&& declared.get("name"@) is Some
            &&& declared.get("name"@) == chosen.get("name"@)
        }),
{
    reveal_strlit("model");
    reveal_strlit("messages");
    reveal_strlit("role");
    reveal_strlit("content");
    reveal_strlit("max_tokens");
    reveal_strlit("stream");
    reveal_strlit("tools");
    reveal_strlit("tool_choice");
    reveal_strlit("reasoning_effort");
    reveal_strlit("type");
    reveal_strlit("function");
    reveal_strlit("name");
    reveal_strlit("parameters");
    reveal_strlit("properties");
    assert("model"@.len() == 5);
    assert("messages"@.len() == 8);
    assert("role"@.len() == 4);
    assert("content"@.len() == 7);
    assert("max_tokens"@.len() == 10);
    assert("stream"@.len() == 6);
    assert("tools"@.len() == 5);
    assert("tool_choice"@.len() == 11);
    assert("reasoning_effort"@.len() == 16);
    assert("type"@.len() == 4);
    assert("function"@.len() == 8);
    assert("name"@.len() == 4);
    assert("parameters"@.len() == 10);
    assert("properties"@.len() == 10);
    assert("model"@[0] == 'm');
    assert("tools"@[0] == 't');
    assert("messages"@[0] == 'm');
    assert("function"@[0] == 'f');
    assert("role"@[0] == 'r');
    assert("type"@[0] == 't');
    assert("name"@[0] == 'n');
    assert("max_tokens"@[0] == 'm');
    assert("parameters"@[0] == 'p');
    assert("properties"@[0] == 'p');
    assert("parameters"@[1] == 'a');
    assert("properties"@[1] == 'r');
    assert(single_message(model, "hi"@, 1)["messages"@]->Array_0.len() == 1);
    assert(single_message(model, "1+1?"@, 16)["messages"@]->Array_0.len() == 1);
}

/// Whether a request asks a model in a single message of the user, without a stream.
pub open spec fn is_plain_question(v: Json, model: Seq<char>) -> bool {
    &&& v.get("model"@) == Some(Json::Text(model))
    &&& v.get("stream"@) == Some(Json::Bool(false))
    &&& v.get("messages"@) matches Some(Json::Array(messages))
    &&& messages.len() == 1
    &&& messages[0].get("role"@) == Some(Json::Text("user"@))
    &&& messages[0].get("content"@) matches Some(Json::Text(_))
}

/// Whether a reply is an answer with a status of success.
pub open spec fn went_well(reply: ProbeReply) -> bool {
    reply matches ProbeReply::Answered { status, .. } && 200 <= status && status <= 299
}

/// Whether a reply is an answer without success that names the tool choice.
pub open spec fn names_tool_choice(reply: ProbeReply) -> bool {
    reply matches ProbeReply::Answered { status, body } && !(200 <= status && status <= 299) && (
    has_part(lowercased(body@), "tool_choice"@) || has_part(lowercased(body@), "tool choice"@))
}

/// What the settings leave open is found out: named tool choice is supported unless the
/// upstream refuses it, required tool choice as well, or where its own probe goes well,
/// reasoning where an answer shows it, and reasoning effort where its probe goes well.
pub proof fn law_probes_find_out_what_is_supported(settings: Settings, replies: ProbeReplies)
    requires
        !nothing_to_probe(settings),
    ensures
        ({
            let caps = probe_outcome(settings, replies);
            let asked = settings.upstream_supports_named_tool_choice is None
                || settings.upstream_supports_tool_choice_required is None;
            let answered = replies.tool_choice is Answered;
            let refused = names_tool_choice(replies.tool_choice);
            &&& asked && answered ==> caps.supports_named_tool_choice == !refused
            &&& !asked || !answered ==> caps.supports_named_tool_choice == (
            settings.upstream_supports_named_tool_choice == Some(true))
            &&& asked && answered && !refused ==> caps.supports_tool_choice_required
            &&& asked && refused && settings.upstream_supports_tool_choice_required is None
                ==> caps.supports_tool_choice_required == went_well(replies.required)
            &&& !asked || !answered ==> caps.supports_tool_choice_required == (
            settings.upstream_supports_tool_choice_required == Some(true))
            &&& settings.upstream_supports_reasoning_content == Some(true)
                ==> caps.supports_reasoning_content
            &&& settings.upstream_supports_reasoning_content is None && went_well(
                replies.reasoning,
            ) && body_shows_reasoning(replies.reasoning->body@) ==> caps.supports_reasoning_content
            &&& caps.supports_reasoning_effort == went_well(replies.effort)
            &&& caps.supports_image_input == settings.upstream_supports_image_input
        }),
{
}

/// An answer shows reasoning where its first message says something under one of the names
/// for reasoning.
pub proof fn law_reasoning_is_seen_under_its_names(
    answer: Json,
    choices: Seq<Json>,
    message: Json,
    key: Seq<char>,
    t: Seq<char>,
)
    requires
        answer.get("choices"@) == Some(Json::Array(choices)),
        choices.len() > 0,
        choices[0].get("message"@) == Some(message),
    ensures
        (key == "reasoning_content"@ || key == "reasoning"@ || key == "thinking"@) && t.len() > 0
            && message.get(key) == Some(Json::Text(t)) ==> shows_reasoning(answer),
        message.get("reasoning_content"@) is None && message.get("reasoning"@) is None
            && message.get("thinking"@) is None ==> !shows_reasoning(answer),
        (message.get("reasoning_content"@) == Some(Json::Text(Seq::<char>::empty())) || message.get(
            "reasoning_content"@,
        ) == Some(Json::Null)) && message.get("reasoning"@) is None && message.get("thinking"@)
            is None ==> !shows_reasoning(answer),
{
}

/// The models of an upstream are those that its answer lists, in the order of the list.
pub proof fn law_listed_models_are_found(answer: Json, data: Seq<Json>, ids: Seq<Seq<char>>)
    requires
        answer.get("data"@) == Some(Json::Array(data)),
        data.len() == ids.len(),
        forall|i: int|
            0 <= i < data.len() ==> (#[trigger] data[i]).get("id"@) == Some(Json::Text(ids[i])),
    ensures
        models_in(answer) == ids,
{
    lemma_listed_ids(data, ids);
}

proof fn lemma_listed_ids(data: Seq<Json>, ids: Seq<Seq<char>>)
    requires
        data.len() == ids.len(),
        forall|i: int|
            0 <= i < data.len() ==> (#[trigger] data[i]).get("id"@) == Some(Json::Text(ids[i])),
    ensures
        listed_ids(data) == ids,
    decreases data.len(),
{
    if data.len() > 0 {
        let n = data.len() - 1;
        assert forall|i: int| 0 <= i < n implies (#[trigger] data.drop_last()[i]).get("id"@)
            == Some(Json::Text(ids.drop_last()[i])) by {
            assert(data[i].get("id"@) == Some(Json::Text(ids[i])));
        }
        lemma_listed_ids(data.drop_last(), ids.drop_last());
        assert(data[n].get("id"@) == Some(Json::Text(ids[n])));
        assert(listed_ids(data) =~= ids);
    } else {
        assert(listed_ids(data) =~= ids);
    }
}

/// A model reasons if its name says so.
pub proof fn law_names_tell_of_reasoning(lower: Seq<char>, a: Seq<char>, b: Seq<char>)
    ensures
        names_reasoning(a + "reasoner"@ + b),
        names_reasoning(a + "r1"@ + b),
        names_reasoning(a + "thinking"@ + b),
        names_reasoning(a + "-o1"@ + b),
        names_reasoning(a + "-o3"@ + b),
        !has_part(lower, "reasoner"@) && !has_part(lower, "r1"@) && !has_part(lower, "thinking"@)
            && !has_part(lower, "-o1"@) && !has_part(lower, "-o3"@) ==> !names_reasoning(lower),
{
    law_parts_have_surroundings(a, "reasoner"@, b, Seq::empty());
    law_parts_have_surroundings(a, "r1"@, b, Seq::empty());
    law_parts_have_surroundings(a, "thinking"@, b, Seq::empty());
    law_parts_have_surroundings(a, "-o1"@, b, Seq::empty());
    law_parts_have_surroundings(a, "-o3"@, b, Seq::empty());
}

proof fn lemma_first_of_kind(ids: Seq<Seq<char>>, reasoning: bool, i: int)
    requires
        0 <= i <= ids.len(),
        forall|j: int|
            0 <= j < i ==> names_reasoning(lowercased(#[trigger] ids[j])) != reasoning,
        i < ids.len() ==> names_reasoning(lowercased(ids[i])) == reasoning,
    ensures
        first_model(ids, reasoning) == (if i < ids.len() {
            Some(ids[i])
        } else {
            None
        }),
    decreases i,
{
    if i > 0 {
        let rest = ids.skip(1);
        assert(names_reasoning(lowercased(ids[0])) != reasoning);
        assert forall|j: int| 0 <= j < i - 1 implies names_reasoning(
            lowercased(#[trigger] rest[j]),
        ) != reasoning by {
            assert(names_reasoning(lowercased(ids[j + 1])) != reasoning);
        }
        lemma_first_of_kind(rest, reasoning, i - 1);
    }
}

/// The configured model stands for chats where the upstream has it, and otherwise the
/// first that does not reason. The first that reasons stands for reasoning.
pub proof fn law_models_are_picked_by_kind(ids: Seq<Seq<char>>, configured: Seq<char>, i: int)
    requires
        0 <= i < ids.len(),
    ensures
        ids.contains(configured) ==> chat_model(ids, configured) == configured,
        !ids.contains(configured) && !names_reasoning(lowercased(ids[i])) && (forall|j: int|
            0 <= j < i ==> names_reasoning(lowercased(#[trigger] ids[j]))) ==> chat_model(
            ids,
            configured,
        ) == ids[i],
        !ids.contains(configured) && (forall|j: int|
            0 <= j < ids.len() ==> names_reasoning(lowercased(#[trigger] ids[j]))) ==> chat_model(
            ids,
            configured,
        ) == ids[0],
        names_reasoning(lowercased(ids[i])) && (forall|j: int|
            0 <= j < i ==> !names_reasoning(lowercased(#[trigger] ids[j]))) ==> reasoning_model(
            ids,
            configured,
        ) == ids[i],
        (forall|j: int| 0 <= j < ids.len() ==> !names_reasoning(lowercased(#[trigger] ids[j])))
            ==> reasoning_model(ids, configured) == chat_model(ids, configured),
{
    if !names_reasoning(lowercased(ids[i])) && (forall|j: int|
        0 <= j < i ==> names_reasoning(lowercased(#[trigger] ids[j]))) {
        lemma_first_of_kind(ids, false, i);
    }
    if names_reasoning(lowercased(ids[i])) && (forall|j: int|
        0 <= j < i ==> !names_reasoning(lowercased(#[trigger] ids[j]))) {
        lemma_first_of_kind(ids, true, i);
    }
    if forall|j: int| 0 <= j < ids.len() ==> names_reasoning(lowercased(#[trigger] ids[j])) {
        lemma_first_of_kind(ids, false, ids.len() as int);
    }
    if forall|j: int| 0 <= j < ids.len() ==> !names_reasoning(lowercased(#[trigger] ids[j])) {
        lemma_first_of_kind(ids, true, ids.len() as int);
    }
}

/// Whether a name leads to a model, unless it is the name of that model.
pub open spec fn leads_to(
    aliases: Map<Seq<char>, Seq<char>>,
    name: Seq<char>,
    model: Seq<char>,
) -> bool {
    if name == model {
        !aliases.contains_key(name)
    } else {
        aliases.contains_key(name) && aliases[name] == model
    }
}

proof fn lemma_alias_of(
    aliases: Map<Seq<char>, Seq<char>>,
    names: Seq<Seq<char>>,
    model: Seq<char>,
    name: Seq<char>,
)
    ensures
        names.contains(name) && name != model ==> with_aliases(aliases, names, model).contains_key(
            name,
        ) && with_aliases(aliases, names, model)[name] == model,
        !names.contains(name) || name == model ==> with_aliases(aliases, names, model).contains_key(
            name,
        ) == aliases.contains_key(name) && with_aliases(aliases, names, model)[name]
            == aliases[name],
    decreases names.len(),
{
    if names.len() > 0 {
        let front = names.drop_last();
        lemma_alias_of(aliases, front, model, name);
        if front.contains(name) {
            let k = choose|k: int| 0 <= k < front.len() && front[k] == name;
            assert(names[k] == name);
        }
        if names.contains(name) && names.last() != name {
            let k = choose|k: int| 0 <= k < names.len() && names[k] == name;
            assert(front[k] == name);
        }
        if names.last() == name {
            assert(names[names.len() - 1] == name);
        }
    }
}

/// The names by which clients ask for models of chats lead to the model for chats, and
/// those by which they ask for models that reason lead to the model for reasoning.
pub proof fn law_well_known_names_lead_to_the_models(ids: Seq<Seq<char>>, configured: Seq<char>)
    requires
        ids.len() > 0,
    ensures
        ({
            let aliases = suggested_aliases(ids, configured);
            let chat = chat_model(ids, configured);
            let reasoning = reasoning_model(ids, configured);
            &&& leads_to(aliases, "gpt-5-codex"@, chat)
            &&& leads_to(aliases, "gpt-4o"@, chat)
            &&& leads_to(aliases, "gpt-4o-mini"@, chat)
            &&& leads_to(aliases, "gpt-4-turbo"@, chat)
            &&& leads_to(aliases, "gpt-4"@, chat)
            &&& leads_to(aliases, "gpt-3.5-turbo"@, chat)
            &&& leads_to(aliases, "o1"@, reasoning)
            &&& leads_to(aliases, "o1-mini"@, reasoning)
            &&& leads_to(aliases, "o1-preview"@, reasoning)
            &&& leads_to(aliases, "o3"@, reasoning)
            &&& leads_to(aliases, "o3-mini"@, reasoning)
            &&& leads_to(aliases, "o4-mini"@, reasoning)
            &&& leads_to(aliases, "deepseek-reasoner"@, reasoning)
        }),
{
    reveal_strlit("gpt-5-codex");
    reveal_strlit("gpt-4o");
    reveal_strlit("gpt-4o-mini");
    reveal_strlit("gpt-4-turbo");
    reveal_strlit("gpt-4");
    reveal_strlit("gpt-3.5-turbo");
    reveal_strlit("o1");
    reveal_strlit("o1-mini");
    reveal_strlit("o1-preview");
    reveal_strlit("o3");
    reveal_strlit("o3-mini");
    reveal_strlit("o4-mini");
    reveal_strlit("deepseek-reasoner");
    assert("gpt-5-codex"@.len() == 11);
    assert("gpt-4o"@.len() == 6);
    assert("gpt-4o-mini"@.len() == 11);
    assert("gpt-4-turbo"@.len() == 11);
    assert("gpt-4"@.len() == 5);
    assert("gpt-3.5-turbo"@.len() == 13);
    assert("o1"@.len() == 2);
    assert("o1-mini"@.len() == 7);
    assert("o1-preview"@.len() == 10);
    assert("o3"@.len() == 2);
    assert("o3-mini"@.len() == 7);
    assert("o4-mini"@.len() == 7);
    assert("deepseek-reasoner"@.len() == 17);
    assert("gpt-5-codex"@[4] == '5');
    assert("gpt-4o-mini"@[4] == '4');
    assert("gpt-4-turbo"@[4] == '4');
    assert("gpt-4o-mini"@[5] == 'o');
    assert("gpt-4-turbo"@[5] == '-');
    assert("o1"@[1] == '1');
    assert("o3"@[1] == '3');
    assert("o1-mini"@[1] == '1');
    assert("o3-mini"@[1] == '3');
    assert("o4-mini"@[1] == '4');

    let chat = chat_model(ids, configured);
    let reasoning = reasoning_model(ids, configured);
    let first = with_aliases(Map::empty(), chat_names(), chat);
    assert(chat_names()[0] == "gpt-5-codex"@);
    assert(chat_names()[1] == "gpt-4o"@);
    assert(chat_names()[2] == "gpt-4o-mini"@);
    assert(chat_names()[3] == "gpt-4-turbo"@);
    assert(chat_names()[4] == "gpt-4"@);
    assert(chat_names()[5] == "gpt-3.5-turbo"@);
    assert(reasoning_names()[0] == "o1"@);
    assert(reasoning_names()[1] == "o1-mini"@);
    assert(reasoning_names()[2] == "o1-preview"@);
    assert(reasoning_names()[3] == "o3"@);
    assert(reasoning_names()[4] == "o3-mini"@);
    assert(reasoning_names()[5] == "o4-mini"@);
    assert(reasoning_names()[6] == "deepseek-reasoner"@);
    lemma_alias_of(Map::empty(), chat_names(), chat, "gpt-5-codex"@);
    lemma_alias_of(first, reasoning_names(), reasoning, "gpt-5-codex"@);
    lemma_alias_of(Map::empty(), chat_names(), chat, "gpt-4o"@);
    lemma_alias_of(first, reasoning_names(), reasoning, "gpt-4o"@);
    lemma_alias_of(Map::empty(), chat_names(), chat, "gpt-4o-mini"@);
    lemma_alias_of(first, reasoning_names(), reasoning, "gpt-4o-mini"@);
    lemma_alias_of(Map::empty(), chat_names(), chat, "gpt-4-turbo"@);
    lemma_alias_of(first, reasoning_names(), reasoning, "gpt-4-turbo"@);
    lemma_alias_of(Map::empty(), chat_names(), chat, "gpt-4"@);
    lemma_alias_of(first, reasoning_names(), reasoning, "gpt-4"@);
    lemma_alias_of(Map::empty(), chat_names(), chat, "gpt-3.5-turbo"@);
    lemma_alias_of(first, reasoning_names(), reasoning, "gpt-3.5-turbo"@);
    lemma_alias_of(Map::empty(), chat_names(), chat, "o1"@);
    lemma_alias_of(first, reasoning_names(), reasoning, "o1"@);
    lemma_alias_of(Map::empty(), chat_names(), chat, "o1-mini"@);
    lemma_alias_of(first, reasoning_names(), reasoning, "o1-mini"@);
    lemma_alias_of(Map::empty(), chat_names(), chat, "o1-preview"@);
    lemma_alias_of(first, reasoning_names(), reasoning, "o1-preview"@);
    lemma_alias_of(Map::empty(), chat_names(), chat, "o3"@);
    lemma_alias_of(first, reasoning_names(), reasoning, "o3"@);
    lemma_alias_of(Map::empty(), chat_names(), chat, "o3-mini"@);
    lemma_alias_of(first, reasoning_names(), reasoning, "o3-mini"@);
    lemma_alias_of(Map::empty(), chat_names(), chat, "o4-mini"@);
    lemma_alias_of(first, reasoning_names(), reasoning, "o4-mini"@);
    lemma_alias_of(Map::empty(), chat_names(), chat, "deepseek-reasoner"@);
    lemma_alias_of(first, reasoning_names(), reasoning, "deepseek-reasoner"@);
}

/// A report shows each finding as a word, behind what was asked, in one column.
pub proof fn law_findings_stand_in_one_column(label: Seq<char>, v: bool)
    requires
        label.len() <= 35,
    ensures
        report_line(label, v).len() == 38 + if v {
            3int
        } else {
            2int
        },
        report_line(label, v).subrange(2, 2int + label.len()) == label,
        report_line(label, v).skip(38) == (if v {
            "yes"@
        } else {
            "no"@
        }),
{
    reveal_strlit("  ");
    reveal_strlit(" ");
    reveal_strlit("yes");
    reveal_strlit("no");
    lemma_padded(label, 35);
    let line = report_line(label, v);
    assert(line.subrange(2, 2int + label.len()) =~= label);
    assert(line.skip(38) =~= (if v {
        "yes"@
    } else {
        "no"@
    }));
}

proof fn lemma_padded(s: Seq<char>, width: nat)
    requires
        s.len() <= width,
    ensures
        padded(s, width).len() == width,
        forall|i: int| 0 <= i < s.len() ==> #[trigger] padded(s, width)[i] == s[i],
    decreases width - s.len(),
{
    if s.len() < width {
        let t = s.push(' ');
        lemma_padded(t, width);
        assert forall|i: int| 0 <= i < s.len() implies #[trigger] padded(s, width)[i] == s[i] by {
            assert(padded(t, width)[i] == t[i]);
        }
    }
}

/// The models of a reply are those that a successful answer lists; another reply lists
/// none.
pub proof fn law_other_replies_list_no_models(status: u16, body: String)
    ensures
        200 <= status <= 299 && parsed_json(body@) is Ok ==> replied_models(
            ProbeReply::Answered { status, body },
        ) == models_in(parsed_json(body@)->Ok_0),
        !(200 <= status <= 299) ==> replied_models(ProbeReply::Answered { status, body }).len()
            == 0,
        replied_models(ProbeReply::Failed).len() == 0,
{
}

} // verus!
